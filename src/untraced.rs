//! Function definitions without a nearby requirement annotation, found by a
//! textual heuristic over C and C++ sources.
use vstd::prelude::*;

use crate::annotation::{id_spans, req_ids};
use crate::text::{chars_of, line_spans, lines_of, skip_space, slice_string, space_char, span_texts, sub_chars, trim_bounds, trimmed, starts_with_seq, ends_with_seq, contains_seq, contains_chars, lemma_lines_len};

verus! {

/// A function definition with no requirement annotation close above it.
#[derive(Debug, PartialEq, Eq)]
pub struct UntraceableFunction {
    pub name: String,
    pub file: String,
    pub line_number: u32,
}

pub open spec fn is_word_char(c: char) -> bool {
    ('a' <= c && c <= 'z') || ('A' <= c && c <= 'Z') || ('0' <= c && c <= '9') || c == '_'
}

pub open spec fn is_ident_start(c: char) -> bool {
    ('a' <= c && c <= 'z') || ('A' <= c && c <= 'Z') || c == '_'
}

/// End of the run of word characters that starts at `p`.
pub open spec fn word_end(s: Seq<char>, p: int) -> int
    decreases s.len() - p,
{
    if p < 0 || p >= s.len() {
        p
    } else if is_word_char(s[p]) {
        word_end(s, p + 1)
    } else {
        p
    }
}

/// A word starts at `i` that begins like an identifier and is followed, after
/// optional white space, by `(` and later by `)`.
pub open spec fn call_shape_at(s: Seq<char>, i: int) -> bool {
    &&& 0 <= i < s.len()
    &&& is_ident_start(s[i])
    &&& (i == 0 || !is_word_char(s[i - 1]))
    &&& {
        let f = skip_space(s, word_end(s, i));
        0 <= f < s.len() && s[f] == '(' && contains_seq(s.subrange(f + 1, s.len() as int), ")"@)
    }
}

/// The name of the leftmost call shape in `s`, if any.
pub open spec fn called_name(s: Seq<char>) -> Option<Seq<char>> {
    if exists|i: int| call_shape_at(s, i) {
        let i = choose|i: int| call_shape_at(s, i) && forall|j: int| 0 <= j < i ==> !call_shape_at(s, j);
        Some(s.subrange(i, word_end(s, i)))
    } else {
        None
    }
}

/// Words that look like calls but are keywords.
pub open spec fn is_keyword(w: Seq<char>) -> bool {
    w == "if"@ || w == "while"@ || w == "for"@ || w == "switch"@ || w == "return"@ || w == "sizeof"@
}

/// The function name a line defines, by the heuristic: a trimmed line that is
/// not blank, not a preprocessor directive or comment, holds `(` and `)`, does
/// not end with `;`, and whose leftmost call shape is no keyword.
pub open spec fn defined_name(l: Seq<char>) -> Option<Seq<char>> {
    let t = trimmed(l);
    if t.len() == 0 || t[0] == '#' || starts_with_seq(t, "//"@) || starts_with_seq(t, "/*"@) || t[0] == '*'
        || !contains_seq(t, "("@) || !contains_seq(t, ")"@) || ends_with_seq(t, ";"@) {
        None
    } else {
        match called_name(t) {
            Some(w) => if is_keyword(w) { None } else { Some(w) },
            None => None,
        }
    }
}

/// No line among the last eleven of `ls` (the line itself and up to ten
/// before it) holds a requirement identifier.
pub open spec fn no_annotation_near(ls: Seq<Seq<char>>) -> bool {
    forall|k: int| ls.len() - 11 <= k < ls.len() && 0 <= k ==> req_ids(#[trigger] ls[k]).len() == 0
}

/// Untraceable definitions among the lines `ls`: name and 1-based line, in order.
pub open spec fn untraceable_lines(ls: Seq<Seq<char>>) -> Seq<(Seq<char>, int)>
    decreases ls.len(),
{
    if ls.len() == 0 {
        Seq::empty()
    } else {
        untraceable_lines(ls.drop_last()) + match defined_name(ls.last()) {
            Some(w) => if no_annotation_near(ls) { seq![(w, ls.len() as int)] } else { Seq::empty() },
            None => Seq::empty(),
        }
    }
}

pub open spec fn finding_view(u: UntraceableFunction) -> (Seq<char>, Seq<char>, int) {
    (u.name@, u.file@, u.line_number as int)
}

pub open spec fn with_file(fs: Seq<(Seq<char>, int)>, file: Seq<char>) -> Seq<(Seq<char>, Seq<char>, int)> {
    fs.map_values(|f: (Seq<char>, int)| (f.0, file, f.1))
}

} // verus!

verus! {

fn word_char(c: char) -> (r: bool)
    ensures
        r == is_word_char(c),
{
    ('a' <= c && c <= 'z') || ('A' <= c && c <= 'Z') || ('0' <= c && c <= '9') || c == '_'
}

fn word_end_exec(s: &Vec<char>, p: usize) -> (r: usize)
    requires
        p <= s.len(),
    ensures
        r == word_end(s@, p as int),
        p <= r <= s.len(),
{
    let mut i = p;
    while i < s.len() && word_char(s[i])
        invariant
            p <= i <= s.len(),
            word_end(s@, p as int) == word_end(s@, i as int),
        decreases s.len() - i,
    {
        i += 1;
    }
    i
}

fn skip_space_exec(s: &Vec<char>, p: usize) -> (r: usize)
    requires
        p <= s.len(),
    ensures
        r == skip_space(s@, p as int),
        p <= r <= s.len(),
{
    let mut i = p;
    while i < s.len() && space_char(s[i])
        invariant
            p <= i <= s.len(),
            skip_space(s@, p as int) == skip_space(s@, i as int),
        decreases s.len() - i,
    {
        i += 1;
    }
    i
}

fn call_shape_exec(s: &Vec<char>, i: usize, close: &Vec<char>) -> (r: bool)
    requires
        i < s.len(),
        close@ == ")"@,
    ensures
        r == call_shape_at(s@, i as int),
{
    let c = s[i];
    if !(('a' <= c && c <= 'z') || ('A' <= c && c <= 'Z') || c == '_') {
        return false;
    }
    if i > 0 && word_char(s[i - 1]) {
        return false;
    }
    let e = word_end_exec(s, i);
    let f = skip_space_exec(s, e);
    if f >= s.len() || s[f] != '(' {
        return false;
    }
    let rest = sub_chars(s, f + 1, s.len());
    contains_chars(&rest, close)
}

/// Start and end of the leftmost call shape's name in `s`.
fn called_name_exec(s: &Vec<char>) -> (r: Option<(usize, usize)>)
    ensures
        match r {
            Some((a, b)) => a <= b <= s.len() && called_name(s@) == Some(s@.subrange(a as int, b as int)),
            None => called_name(s@) is None,
        },
{
    proof {
        reveal_strlit(")");
    }
    let close = chars_of(")");
    let mut i: usize = 0;
    while i < s.len()
        invariant
            i <= s.len(),
            close@ == ")"@,
            forall|j: int| 0 <= j < i ==> !call_shape_at(s@, j),
        decreases s.len() - i,
    {
        if call_shape_exec(s, i, &close) {
            let e = word_end_exec(s, i);
            proof {
                let c = choose|c: int| call_shape_at(s@, c) && forall|j: int| 0 <= j < c ==> !call_shape_at(s@, j);
                assert(c == i) by {
                    if c < i {
                        assert(!call_shape_at(s@, c));
                    } else if c > i {
                        assert(!call_shape_at(s@, i as int));
                    }
                }
            }
            return Some((i, e));
        }
        i += 1;
    }
    assert forall|j: int| !call_shape_at(s@, j) by {
        if 0 <= j < s.len() {
            assert(!call_shape_at(s@, j));
        }
    }
    None
}

fn chars_equal(a: &Vec<char>, b: &Vec<char>) -> (r: bool)
    ensures
        r == (a@ == b@),
{
    if a.len() != b.len() {
        return false;
    }
    let r = crate::text::occurs_at_exec(a, b, 0);
    assert(a@.subrange(0, b@.len() as int) =~= a@);
    r
}

fn keyword(w: &Vec<char>) -> (r: bool)
    ensures
        r == is_keyword(w@),
{
    chars_equal(w, &chars_of("if")) || chars_equal(w, &chars_of("while")) || chars_equal(w, &chars_of("for"))
        || chars_equal(w, &chars_of("switch")) || chars_equal(w, &chars_of("return"))
        || chars_equal(w, &chars_of("sizeof"))
}

/// Start and end, within `l`, of the name of the function the line defines.
fn defined_name_exec(l: &Vec<char>) -> (r: Option<(usize, usize)>)
    ensures
        match r {
            Some((a, b)) => a <= b <= l.len() && defined_name(l@) == Some(l@.subrange(a as int, b as int)),
            None => defined_name(l@) is None,
        },
{
    proof {
        reveal_strlit("//");
        reveal_strlit("/*");
        reveal_strlit("(");
        reveal_strlit(")");
        reveal_strlit(";");
    }
    let (ta, tb) = trim_bounds(l);
    let t = sub_chars(l, ta, tb);
    if t.len() == 0 || t[0] == '#' || t[0] == '*' {
        return None;
    }
    if crate::text::starts_with_chars(&t, &chars_of("//")) || crate::text::starts_with_chars(&t, &chars_of("/*")) {
        return None;
    }
    if !contains_chars(&t, &chars_of("(")) || !contains_chars(&t, &chars_of(")")) {
        return None;
    }
    if crate::text::ends_with_chars(&t, &chars_of(";")) {
        return None;
    }
    match called_name_exec(&t) {
        Some((a, b)) => {
            let w = sub_chars(&t, a, b);
            if keyword(&w) {
                None
            } else {
                assert(l@.subrange(ta + a, ta + b) =~= t@.subrange(a as int, b as int));
                Some((ta + a, ta + b))
            }
        },
        None => None,
    }
}

} // verus!

verus! {

pub open spec fn finding_views(v: Seq<UntraceableFunction>) -> Seq<(Seq<char>, Seq<char>, int)> {
    v.map_values(|u: UntraceableFunction| finding_view(u))
}

/// Appends to `untraceable` each function that `content`, the text of
/// `file_path`, defines with no requirement identifier on its own line or the
/// ten lines before it, in reading order.
#[verifier::rlimit(40)]
pub fn analyze_file_for_untraceable(
    file_path: &str,
    content: &str,
    untraceable: &mut Vec<UntraceableFunction>,
)
    requires
        content@.len() < u32::MAX,
    ensures
        finding_views(final(untraceable)@) == finding_views(old(untraceable)@) + with_file(
            untraceable_lines(lines_of(content@)),
            file_path@,
        ),
{
    let cs = chars_of(content);
    let spans = line_spans(&cs);
    let ghost ls = lines_of(cs@);
    proof {
        lemma_lines_len(cs@);
    }
    let mut annotated: Vec<bool> = Vec::new();
    let mut k: usize = 0;
    while k < spans.len()
        invariant
            span_texts(cs@, spans@) == ls,
            forall|q: int| 0 <= q < spans.len() ==> #[trigger] spans@[q].0 <= spans@[q].1 <= cs.len(),
            k <= spans.len(),
            annotated.len() == k,
            forall|q: int| 0 <= q < k ==> #[trigger] annotated@[q] == (req_ids(ls[q]).len() > 0),
        decreases spans.len() - k,
    {
        let (a, b) = spans[k];
        let l = sub_chars(&cs, a, b);
        assert(l@ == ls[k as int]);
        let ids = id_spans(&l);
        annotated.push(ids.len() > 0);
        k += 1;
    }
    let ghost start = old(untraceable)@;
    let mut i: usize = 0;
    while i < spans.len()
        invariant
            cs@ == content@,
            content@.len() < u32::MAX,
            ls == lines_of(cs@),
            ls.len() <= cs.len(),
            span_texts(cs@, spans@) == ls,
            forall|q: int| 0 <= q < spans.len() ==> #[trigger] spans@[q].0 <= spans@[q].1 <= cs.len(),
            annotated.len() == spans.len(),
            forall|q: int| 0 <= q < spans.len() ==> #[trigger] annotated@[q] == (req_ids(ls[q]).len() > 0),
            i <= spans.len(),
            finding_views(untraceable@) == finding_views(start) + with_file(
                untraceable_lines(ls.subrange(0, i as int)),
                file_path@,
            ),
        decreases spans.len() - i,
    {
        let (a, b) = spans[i];
        let l = sub_chars(&cs, a, b);
        assert(l@ == ls[i as int]);
        let ghost pre = ls.subrange(0, i + 1);
        proof {
            assert(pre.drop_last() =~= ls.subrange(0, i as int));
            assert(pre.last() == l@);
        }
        let ghost before = untraceable@;
        match defined_name_exec(&l) {
            Some((x, y)) => {
                let lo: usize = if i >= 10 {
                    i - 10
                } else {
                    0
                };
                let mut q: usize = lo;
                let mut near = false;
                while q <= i
                    invariant
                        lo <= q <= i + 1,
                        i < spans.len(),
                        annotated.len() == spans.len(),
                        forall|z: int| 0 <= z < spans.len() ==> #[trigger] annotated@[z] == (req_ids(ls[z]).len() > 0),
                        !near ==> forall|z: int| lo <= z < q ==> req_ids(#[trigger] ls[z]).len() == 0,
                        near ==> exists|z: int| lo <= z <= i && req_ids(#[trigger] ls[z]).len() > 0,
                    ensures
                        !near ==> forall|z: int| lo <= z <= i ==> req_ids(#[trigger] ls[z]).len() == 0,
                        near ==> exists|z: int| lo <= z <= i && req_ids(#[trigger] ls[z]).len() > 0,
                    decreases i + 1 - q,
                {
                    if annotated[q] {
                        near = true;
                        break;
                    }
                    q += 1;
                }
                proof {
                    if near {
                        let z = choose|z: int| lo <= z <= i && req_ids(#[trigger] ls[z]).len() > 0;
                        assert(pre[z] == ls[z]);
                        assert(!no_annotation_near(pre));
                    } else {
                        assert forall|z: int| pre.len() - 11 <= z < pre.len() && 0 <= z implies req_ids(#[trigger] pre[z]).len() == 0 by {
                            assert(pre[z] == ls[z]);
                        }
                    }
                }
                if !near {
                    let name = slice_string(content, a + x, a + y);
                    assert(name@ =~= l@.subrange(x as int, y as int));
                    untraceable.push(UntraceableFunction {
                        name,
                        file: String::from_str(file_path),
                        line_number: (i + 1) as u32,
                    });
                    assert(finding_views(untraceable@) =~= finding_views(before) + seq![finding_view(untraceable@.last())]);
                    assert(with_file(untraceable_lines(pre), file_path@) =~= with_file(untraceable_lines(ls.subrange(0, i as int)), file_path@) + seq![(l@.subrange(x as int, y as int), file_path@, i + 1)]);
                } else {
                    assert(with_file(untraceable_lines(pre), file_path@) =~= with_file(untraceable_lines(ls.subrange(0, i as int)), file_path@));
                }
            },
            None => {
                assert(with_file(untraceable_lines(pre), file_path@) =~= with_file(untraceable_lines(ls.subrange(0, i as int)), file_path@));
            },
        }
        i += 1;
    }
    assert(ls.subrange(0, i as int) =~= ls);
}

} // verus!
