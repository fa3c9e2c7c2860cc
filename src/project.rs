//! Which files of a project tree are scanned, and the project-wide scans.
use vstd::prelude::*;

use crate::text::{chars_of, lines_of};
use crate::traceability::{implementation_links, link_views, parse_requirement_annotations, parse_test_annotations, test_links, LinkView, TraceabilityMatrix};
use crate::untraced::{
    analyze_file_for_untraceable, finding_views, untraceable_lines, with_file,
    UntraceableFunction,
};

verus! {

/// Position of the last `c` in `s`, or -1.
pub open spec fn last_index_of(s: Seq<char>, c: char) -> int
    decreases s.len(),
{
    if s.len() == 0 {
        -1
    } else if s.last() == c {
        s.len() - 1
    } else {
        last_index_of(s.drop_last(), c)
    }
}

/// The last component of a `/`-separated path.
pub open spec fn file_name_of(p: Seq<char>) -> Seq<char> {
    p.subrange(last_index_of(p, '/') + 1, p.len() as int)
}

/// The extension of a path: what follows the last `.` of its file name, where
/// that `.` is not the name's first character.
pub open spec fn extension_of(p: Seq<char>) -> Option<Seq<char>> {
    let n = file_name_of(p);
    let d = last_index_of(n, '.');
    if d > 0 {
        Some(n.subrange(d + 1, n.len() as int))
    } else {
        None
    }
}

/// `c` is `t`, or `t` is a lower-case ASCII letter and `c` its capital.
pub open spec fn same_letter(c: char, t: char) -> bool {
    c == t || ('A' <= c && c <= 'Z' && (c as u32) + 32 == (t as u32))
}

/// `p` holds `test` at `i`, in any letter case.
pub open spec fn test_word_at(p: Seq<char>, i: int) -> bool {
    0 <= i && i + 4 <= p.len() && forall|k: int| 0 <= k < 4 ==> same_letter(#[trigger] p[i + k], "test"@[k])
}

/// A path names a test file when it holds `test` in any letter case.
pub open spec fn is_test_path_spec(p: Seq<char>) -> bool {
    exists|i: int| test_word_at(p, i)
}

/// C and C++ sources and headers are scanned for annotations.
pub open spec fn is_annotated_source(p: Seq<char>) -> bool {
    match extension_of(p) {
        Some(e) => e == "c"@ || e == "h"@ || e == "cpp"@ || e == "hpp"@,
        None => false,
    }
}

/// C and C++ sources that are not tests are scanned for function definitions.
pub open spec fn is_definition_source(p: Seq<char>) -> bool {
    match extension_of(p) {
        Some(e) => (e == "c"@ || e == "cpp"@) && !is_test_path_spec(p),
        None => false,
    }
}

/// Directories named `build` or `target`, or whose name starts with `.`, are
/// not visited.
pub open spec fn descends_into(name: Seq<char>) -> bool {
    !(name == "build"@ || name == "target"@ || (name.len() > 0 && name[0] == '.'))
}

fn last_index(s: &Vec<char>, c: char) -> (r: Option<usize>)
    ensures
        match r {
            Some(i) => i < s.len() && last_index_of(s@, c) == i,
            None => last_index_of(s@, c) == -1,
        },
{
    let mut k: usize = s.len();
    assert(s@.subrange(0, k as int) =~= s@);
    while k > 0
        invariant
            k <= s.len(),
            last_index_of(s@, c) == last_index_of(s@.subrange(0, k as int), c),
        decreases k,
    {
        assert(s@.subrange(0, k as int).drop_last() =~= s@.subrange(0, k - 1));
        if s[k - 1] == c {
            return Some(k - 1);
        }
        k -= 1;
    }
    None
}

pub fn literal_eq(a: &Vec<char>, lit: &str) -> (r: bool)
    ensures
        r == (a@ == lit@),
{
    let b = chars_of(lit);
    if a.len() != b.len() {
        return false;
    }
    let r = crate::text::occurs_at_exec(a, &b, 0);
    assert(a@.subrange(0, b@.len() as int) =~= a@);
    r
}

/// The extension of a path is the end of the path.
pub proof fn lemma_extension_is_suffix(p: Seq<char>)
    ensures
        extension_of(p) matches Some(e) ==> e.len() <= p.len() && p.subrange(p.len() - e.len(), p.len() as int) == e,
{
    if extension_of(p) is Some {
        let n = file_name_of(p);
        let d = last_index_of(n, '.');
        lemma_last_index_bounds(p, '/');
        lemma_last_index_bounds(n, '.');
        let e = n.subrange(d + 1, n.len() as int);
        assert(p.subrange(p.len() - e.len(), p.len() as int) =~= e);
    }
}

proof fn lemma_last_index_bounds(s: Seq<char>, c: char)
    ensures
        -1 <= last_index_of(s, c) < s.len(),
    decreases s.len(),
{
    if s.len() > 0 && s.last() != c {
        lemma_last_index_bounds(s.drop_last(), c);
    }
}

/// The extension of `path`, as characters.
pub fn extension_chars(path: &Vec<char>) -> (r: Option<Vec<char>>)
    ensures
        match r {
            Some(e) => extension_of(path@) == Some(e@),
            None => extension_of(path@) is None,
        },
{
    let start = match last_index(path, '/') {
        Some(i) => i + 1,
        None => 0,
    };
    let name = crate::text::sub_chars(path, start, path.len());
    assert(name@ =~= file_name_of(path@));
    match last_index(&name, '.') {
        Some(d) => if d > 0 {
            Some(crate::text::sub_chars(&name, d + 1, name.len()))
        } else {
            None
        },
        None => None,
    }
}

fn letter_eq(c: char, t: char) -> (r: bool)
    ensures
        r == same_letter(c, t),
{
    c == t || ('A' <= c && c <= 'Z' && (c as u32) + 32 == (t as u32))
}

/// Whether `path` names a test file: it holds `test` in any letter case.
pub fn is_test_path(path: &str) -> (r: bool)
    ensures
        r == is_test_path_spec(path@),
{
    proof {
        reveal_strlit("test");
    }
    let cs = chars_of(path);
    if cs.len() < 4 {
        assert forall|i: int| !test_word_at(cs@, i) by {}
        return false;
    }
    let mut i: usize = 0;
    while i <= cs.len() - 4
        invariant
            cs@ == path@,
            cs.len() >= 4,
            forall|j: int| 0 <= j < i ==> !test_word_at(cs@, j),
        decreases cs.len() - i,
    {
        proof {
            reveal_strlit("test");
        }
        if letter_eq(cs[i], 't') && letter_eq(cs[i + 1], 'e') && letter_eq(cs[i + 2], 's') && letter_eq(cs[i + 3], 't') {
            assert forall|k: int| 0 <= k < 4 implies same_letter(#[trigger] cs@[i + k], "test"@[k]) by {
                if k == 0 {} else if k == 1 {} else if k == 2 {} else {}
            }
            assert(test_word_at(cs@, i as int));
            return true;
        }
        proof {
            assert(!test_word_at(cs@, i as int)) by {
                if test_word_at(cs@, i as int) {
                    assert(same_letter(cs@[i + 0], "test"@[0]));
                    assert(same_letter(cs@[i + 1], "test"@[1]));
                    assert(same_letter(cs@[i + 2], "test"@[2]));
                    assert(same_letter(cs@[i + 3], "test"@[3]));
                }
            }
        }
        i += 1;
    }
    assert forall|j: int| !test_word_at(cs@, j) by {
        if 0 <= j < i {
        }
    }
    false
}

/// Whether `path` is a C or C++ source or header, whose annotations are read.
pub fn is_annotated_source_path(path: &str) -> (r: bool)
    ensures
        r == is_annotated_source(path@),
{
    let cs = chars_of(path);
    match extension_chars(&cs) {
        Some(e) => literal_eq(&e, "c") || literal_eq(&e, "h") || literal_eq(&e, "cpp") || literal_eq(
            &e,
            "hpp",
        ),
        None => false,
    }
}

/// Whether `path` is a C or C++ source, not a test, whose function
/// definitions are checked for annotations.
pub fn is_definition_source_path(path: &str) -> (r: bool)
    ensures
        r == is_definition_source(path@),
{
    let cs = chars_of(path);
    match extension_chars(&cs) {
        Some(e) => (literal_eq(&e, "c") || literal_eq(&e, "cpp")) && !is_test_path(path),
        None => false,
    }
}

/// Whether a directory walk enters the directory named `name`.
pub fn should_descend(name: &str) -> (r: bool)
    ensures
        r == descends_into(name@),
{
    let cs = chars_of(name);
    !(literal_eq(&cs, "build") || literal_eq(&cs, "target") || (cs.len() > 0 && cs[0] == '.'))
}

/// The links that the files of a project give, in the order of the files:
/// test annotations of test files, requirement annotations of the others;
/// files that are no C or C++ source or header give none.
pub open spec fn project_links(files: Seq<(String, String)>) -> Seq<LinkView>
    decreases files.len(),
{
    if files.len() == 0 {
        Seq::empty()
    } else {
        let (p, c) = files.last();
        project_links(files.drop_last()) + if !is_annotated_source(p@) {
            Seq::empty()
        } else if is_test_path_spec(p@) {
            test_links(lines_of(c@), p@)
        } else {
            implementation_links(lines_of(c@), p@)
        }
    }
}

/// Every file's text is short enough for its line numbers to fit in `u32`.
pub open spec fn texts_fit(files: Seq<(String, String)>) -> bool {
    forall|i: int| 0 <= i < files.len() ==> (#[trigger] files[i]).1@.len() < u32::MAX
}

/// Builds the traceability matrix of a project from its files, each given as
/// its path and its text.
pub fn generate_traceability_matrix(files: &Vec<(String, String)>) -> (r: TraceabilityMatrix)
    requires
        texts_fit(files@),
    ensures
        r.wf(),
        link_views(r.link_seq()) == project_links(files@),
{
    let mut m = TraceabilityMatrix::new();
    assert(link_views(m.link_seq()) =~= Seq::<LinkView>::empty());
    let mut i: usize = 0;
    while i < files.len()
        invariant
            i <= files.len(),
            texts_fit(files@),
            m.wf(),
            link_views(m.link_seq()) == project_links(files@.subrange(0, i as int)),
        decreases files.len() - i,
    {
        let (path, content) = &files[i];
        proof {
            let pre = files@.subrange(0, i + 1);
            assert(pre.drop_last() =~= files@.subrange(0, i as int));
            assert(pre.last() == files@[i as int]);
        }
        assert(files@[i as int].1@.len() < u32::MAX);
        if is_annotated_source_path(path.as_str()) {
            let links = if is_test_path(path.as_str()) {
                parse_test_annotations(path.as_str(), content.as_str())
            } else {
                parse_requirement_annotations(path.as_str(), content.as_str())
            };
            let ghost base = link_views(m.link_seq());
            let mut k: usize = 0;
            while k < links.len()
                invariant
                    k <= links.len(),
                    m.wf(),
                    link_views(m.link_seq()) == base + link_views(links@).subrange(0, k as int),
                decreases links.len() - k,
            {
                let ghost before = m.link_seq();
                m.add_link(links[k].duplicate());
                k += 1;
                assert(link_views(m.link_seq()) =~= link_views(before).push(links@[k - 1]@));
                assert(link_views(links@).subrange(0, k as int) =~= link_views(links@).subrange(0, k - 1).push(links@[k - 1]@));
            }
            assert(link_views(links@).subrange(0, k as int) =~= link_views(links@));
        }
        i += 1;
    }
    assert(files@.subrange(0, i as int) =~= files@);
    m
}

} // verus!

verus! {

/// The untraceable definitions of a project's files, in the order of the
/// files; only C and C++ sources that are not tests are scanned.
pub open spec fn project_untraceable(files: Seq<(String, String)>) -> Seq<(Seq<char>, Seq<char>, int)>
    decreases files.len(),
{
    if files.len() == 0 {
        Seq::empty()
    } else {
        let (p, c) = files.last();
        project_untraceable(files.drop_last()) + if is_definition_source(p@) {
            with_file(untraceable_lines(lines_of(c@)), p@)
        } else {
            Seq::empty()
        }
    }
}

/// Finds, across a project's files (each given as its path and its text), the
/// function definitions with no requirement identifier on their line or the
/// ten lines before it.
pub fn find_untraceable_functions(files: &Vec<(String, String)>) -> (r: Vec<UntraceableFunction>)
    requires
        texts_fit(files@),
    ensures
        finding_views(r@) == project_untraceable(files@),
{
    let mut out: Vec<UntraceableFunction> = Vec::new();
    assert(finding_views(out@) =~= Seq::<(Seq<char>, Seq<char>, int)>::empty());
    let mut i: usize = 0;
    while i < files.len()
        invariant
            i <= files.len(),
            texts_fit(files@),
            finding_views(out@) == project_untraceable(files@.subrange(0, i as int)),
        decreases files.len() - i,
    {
        let (path, content) = &files[i];
        proof {
            let pre = files@.subrange(0, i + 1);
            assert(pre.drop_last() =~= files@.subrange(0, i as int));
            assert(pre.last() == files@[i as int]);
        }
        assert(files@[i as int].1@.len() < u32::MAX);
        if is_definition_source_path(path.as_str()) {
            analyze_file_for_untraceable(path.as_str(), content.as_str(), &mut out);
        } else {
            assert(finding_views(out@) =~= project_untraceable(files@.subrange(0, i + 1)));
        }
        i += 1;
    }
    assert(files@.subrange(0, i as int) =~= files@);
    out
}

} // verus!
