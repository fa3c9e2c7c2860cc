//! Make targets declared by a Makefile.
use vstd::prelude::*;

use crate::text::{char_views, chars_of, concat_str, find_char, line_spans, lines_of, next_index_of, slice_string, span_texts, split_words, starts_with_seq, sub_chars, trim_bounds, trimmed, views, words};

verus! {

/// A Makefile and the targets it declares.
#[derive(Debug, Clone)]
pub struct MakefileInfo {
    pub path: String,
    pub targets: Vec<String>,
}

/// What a make run gave.
#[derive(Debug, Clone)]
pub struct MakeResult {
    pub exit_code: i32,
    pub stdout: String,
    pub stderr: String,
}

/// `acc` with `x` appended unless it already holds it.
pub open spec fn add_unique(acc: Seq<Seq<char>>, x: Seq<char>) -> Seq<Seq<char>> {
    if acc.contains(x) {
        acc
    } else {
        acc.push(x)
    }
}

pub open spec fn add_all_unique(acc: Seq<Seq<char>>, xs: Seq<Seq<char>>) -> Seq<Seq<char>>
    decreases xs.len(),
{
    if xs.len() == 0 {
        acc
    } else {
        add_unique(add_all_unique(acc, xs.drop_last()), xs.last())
    }
}

/// The targets a trimmed line names: the words after `.PHONY:`, then the
/// name before the first `:` unless it is empty, starts with `.`, or holds
/// `$` or `=`; comment lines define no target.
pub open spec fn line_targets(t: Seq<char>) -> Seq<Seq<char>> {
    let phony = if starts_with_seq(t, ".PHONY:"@) {
        words(t.subrange(7, t.len() as int))
    } else {
        Seq::empty()
    };
    let c = next_index_of(t, ':', 0);
    let defined = if c < t.len() && !(t.len() > 0 && t[0] == '#') {
        let n = trimmed(t.subrange(0, c));
        if n.len() > 0 && n[0] != '.' && !n.contains('$') && !n.contains('=') {
            seq![n]
        } else {
            Seq::empty()
        }
    } else {
        Seq::empty()
    };
    phony + defined
}

/// The targets of the lines `ls`, once each, in order of first mention.
pub open spec fn makefile_targets(ls: Seq<Seq<char>>) -> Seq<Seq<char>>
    decreases ls.len(),
{
    if ls.len() == 0 {
        Seq::empty()
    } else {
        add_all_unique(makefile_targets(ls.drop_last()), line_targets(trimmed(ls.last())))
    }
}

fn push_unique(acc: &mut Vec<String>, x: String)
    ensures
        views(final(acc)@) == add_unique(views(old(acc)@), x@),
{
    if crate::entries::has_member(acc, x.as_str()) {
        assert(views(acc@) =~= views(acc@));
    } else {
        assert(views(acc@) =~= views(acc@));
        let ghost before = acc@;
        acc.push(x);
        proof {
            crate::text::lemma_views_push(before, acc@.last());
        }
    }
}

fn has_char(s: &Vec<char>, c: char) -> (r: bool)
    ensures
        r == s@.contains(c),
{
    let i = find_char(s, c, 0);
    proof {
        if i >= s.len() {
            assert forall|j: int| 0 <= j < s.len() implies s@[j] != c by {
                lemma_no_char(s@, c, 0, j);
            }
        }
    }
    i < s.len()
}

proof fn lemma_no_char(s: Seq<char>, c: char, p: int, j: int)
    requires
        0 <= p <= j < s.len(),
        next_index_of(s, c, p) >= s.len(),
    ensures
        s[j] != c,
    decreases j - p,
{
    if p < j {
        assert(s[p] != c);
        lemma_no_char(s, c, p + 1, j);
    }
}

/// Reads the targets a Makefile's text declares.
pub fn parse_makefile_targets(content: &str) -> (r: Vec<String>)
    ensures
        views(r@) == makefile_targets(lines_of(content@)),
{
    proof {
        reveal_strlit(".PHONY:");
    }
    let cs = chars_of(content);
    let spans = line_spans(&cs);
    let ghost ls = lines_of(cs@);
    let phony_mark = chars_of(".PHONY:");
    let mut targets: Vec<String> = Vec::new();
    assert(views(targets@) =~= Seq::<Seq<char>>::empty());
    let mut i: usize = 0;
    while i < spans.len()
        invariant
            cs@ == content@,
            ls == lines_of(cs@),
            phony_mark@ == ".PHONY:"@,
            span_texts(cs@, spans@) == ls,
            forall|k: int| 0 <= k < spans.len() ==> #[trigger] spans@[k].0 <= spans@[k].1 <= cs.len(),
            i <= spans.len(),
            views(targets@) == makefile_targets(ls.subrange(0, i as int)),
        decreases spans.len() - i,
    {
        proof {
            reveal_strlit(".PHONY:");
        }
        let (a, b) = spans[i];
        let l = sub_chars(&cs, a, b);
        assert(l@ == ls[i as int]);
        let (ta, tb) = trim_bounds(&l);
        let t = sub_chars(&l, ta, tb);
        let ghost start = views(targets@);
        let ghost cands = line_targets(t@);
        let ghost phony: Seq<Seq<char>> = if starts_with_seq(t@, ".PHONY:"@) { words(t@.subrange(7, t@.len() as int)) } else { Seq::empty() };
        if crate::text::starts_with_chars(&t, &phony_mark) {
            let rest = sub_chars(&t, 7, t.len());
            let off = a + ta + 7;
            assert(rest@ =~= cs@.subrange(off as int, off + rest.len()));
            let ws = split_words(&rest);
            let mut k: usize = 0;
            while k < ws.len()
                invariant
                    cs@ == content@,
                    off + rest.len() <= cs.len(),
                    rest@ == cs@.subrange(off as int, off + rest.len()),
                    char_views(ws@) == words(rest@),
                    k <= ws.len(),
                    char_views(ws@) == phony,
                    views(targets@) == add_all_unique(start, phony.subrange(0, k as int)),
                decreases ws.len() - k,
            {
                let w = slice_word(content, &cs, off, &ws, k, &rest);
                proof {
                    assert(phony.subrange(0, k + 1).drop_last() =~= phony.subrange(0, k as int));
                    assert(char_views(ws@)[k as int] == ws@[k as int]@);
                }
                push_unique(&mut targets, w);
                k += 1;
            }
            assert(phony.subrange(0, k as int) =~= phony);
        } else {
            assert(add_all_unique(start, phony) == start);
        }
        let ghost mid = views(targets@);
        let c = find_char(&t, ':', 0);
        if c < t.len() && !(t.len() > 0 && t[0] == '#') {
            let (na, nb) = trim_bounds(&sub_chars(&t, 0, c));
            let n = sub_chars(&t, na, nb);
            assert(n@ == trimmed(t@.subrange(0, c as int)));
            if n.len() > 0 && n[0] != '.' && !has_char(&n, '$') && !has_char(&n, '=') {
                let name = slice_string(content, a + ta + na, a + ta + nb);
                assert(name@ =~= n@);
                push_unique(&mut targets, name);
                proof {
                    assert(line_targets(t@) == phony + seq![n@]);
                    lemma_add_all_unique_append(start, phony, n@);
                }
            } else {
                assert(line_targets(t@) =~= phony);
            }
        } else {
            assert(line_targets(t@) =~= phony);
        }
        proof {
            let pre = ls.subrange(0, i + 1);
            assert(pre.drop_last() =~= ls.subrange(0, i as int));
            assert(pre.last() == l@);
            assert(t@ == trimmed(l@));
        }
        i += 1;
    }
    assert(ls.subrange(0, i as int) =~= ls);
    targets
}

proof fn lemma_add_all_unique_append(acc: Seq<Seq<char>>, xs: Seq<Seq<char>>, x: Seq<char>)
    ensures
        add_all_unique(acc, xs + seq![x]) == add_unique(add_all_unique(acc, xs), x),
{
    assert((xs + seq![x]).drop_last() =~= xs);
}

/// The `k`-th word of `rest`, which stands at `off` in `content`, as a string.
fn slice_word(content: &str, cs: &Vec<char>, off: usize, ws: &Vec<Vec<char>>, k: usize, rest: &Vec<char>) -> (r: String)
    requires
        cs@ == content@,
        k < ws.len(),
        char_views(ws@) == words(rest@),
        off + rest.len() <= cs.len(),
        rest@ == cs@.subrange(off as int, off + rest.len()),
    ensures
        r@ == ws@[k as int]@,
{
    let spans = crate::text::word_spans(rest);
    assert(char_views(ws@)[k as int] == ws@[k as int]@);
    assert(words(rest@).len() == crate::text::words_from(rest@, 0).len());
    assert(char_views(ws@).len() == ws@.len());
    assert(words(rest@)[k as int] == rest@.subrange(crate::text::words_from(rest@, 0)[k as int].0, crate::text::words_from(rest@, 0)[k as int].1));
    let (x, y) = spans[k];
    assert(cs@.subrange(off + x, off + y) =~= rest@.subrange(x as int, y as int));
    slice_string(content, off + x, off + y)
}

/// The Makefile of directory `dir`, given whether it exists and, where it
/// could be read, its text; an unreadable Makefile declares no targets.
pub fn detect_makefile(dir: &str, exists: bool, content: Option<&str>) -> (r: Option<MakefileInfo>)
    ensures
        !exists ==> r is None,
        exists ==> (r matches Some(info) && info.path@ == dir@ + "/Makefile"@ && match content {
            Some(c) => views(info.targets@) == makefile_targets(lines_of(c@)),
            None => info.targets@.len() == 0,
        }),
{
    if !exists {
        return None;
    }
    let targets = match content {
        Some(c) => parse_makefile_targets(c),
        None => Vec::new(),
    };
    Some(MakefileInfo { path: concat_str(dir, "/Makefile"), targets })
}

} // verus!
