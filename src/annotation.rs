//! Requirement identifiers in source text: `REQ-` and a segment of capital
//! letters and digits, further `-`-separated segments, and an optional
//! `.`-and-digits sub-requirement suffix.
use vstd::prelude::*;

use crate::text::{is_digit, occurs_at};

verus! {

pub open spec fn is_id_char(c: char) -> bool {
    ('A' <= c && c <= 'Z') || is_digit(c)
}

/// End of the run of segment characters (or of digits) that starts at `p`.
pub open spec fn run_end(s: Seq<char>, p: int, digits: bool) -> int
    decreases s.len() - p,
{
    if p < 0 || p >= s.len() {
        p
    } else if (if digits {
        is_digit(s[p])
    } else {
        is_id_char(s[p])
    }) {
        run_end(s, p + 1, digits)
    } else {
        p
    }
}

pub proof fn lemma_run_end(s: Seq<char>, p: int, digits: bool)
    requires
        0 <= p <= s.len(),
    ensures
        p <= run_end(s, p, digits) <= s.len(),
        p < s.len() && (if digits {
            is_digit(s[p])
        } else {
            is_id_char(s[p])
        }) ==> run_end(s, p, digits) > p,
    decreases s.len() - p,
{
    if p < s.len() {
        lemma_run_end(s, p + 1, digits);
    }
}

/// End of the further `-`-separated segments that follow position `p`.
pub open spec fn segments_end(s: Seq<char>, p: int) -> int
    decreases s.len() - p
    via segments_end_decreases
{
    if 0 <= p && p + 1 < s.len() && s[p] == '-' && is_id_char(s[p + 1]) {
        segments_end(s, run_end(s, p + 1, false))
    } else {
        p
    }
}

#[via_fn]
proof fn segments_end_decreases(s: Seq<char>, p: int) {
    if 0 <= p && p + 1 < s.len() && s[p] == '-' && is_id_char(s[p + 1]) {
        lemma_run_end(s, p + 1, false);
    }
}

pub proof fn lemma_segments_end(s: Seq<char>, p: int)
    requires
        0 <= p <= s.len(),
    ensures
        p <= segments_end(s, p) <= s.len(),
    decreases s.len() - p,
{
    if 0 <= p && p + 1 < s.len() && s[p] == '-' && is_id_char(s[p + 1]) {
        lemma_run_end(s, p + 1, false);
        lemma_segments_end(s, run_end(s, p + 1, false));
    }
}

/// End of the requirement identifier that starts at `i`, if one does.
pub open spec fn id_end(s: Seq<char>, i: int) -> Option<int> {
    if occurs_at(s, "REQ-"@, i) && i + 4 < s.len() && is_id_char(s[i + 4]) {
        let e = segments_end(s, run_end(s, i + 4, false));
        if s.len() - e > 1 && s[e] == '.' && is_digit(s[e + 1]) {
            Some(run_end(s, e + 1, true))
        } else {
            Some(e)
        }
    } else {
        None
    }
}

pub proof fn lemma_id_end(s: Seq<char>, i: int)
    requires
        0 <= i <= s.len(),
    ensures
        id_end(s, i) matches Some(e) ==> i + 5 <= e <= s.len(),
{
    reveal_strlit("REQ-");
    if occurs_at(s, "REQ-"@, i) && i + 4 < s.len() && is_id_char(s[i + 4]) {
        lemma_run_end(s, i + 4, false);
        let e0 = run_end(s, i + 4, false);
        lemma_segments_end(s, e0);
        let e = segments_end(s, e0);
        if s.len() - e > 1 && s[e] == '.' && is_digit(s[e + 1]) {
            lemma_run_end(s, e + 1, true);
        }
    }
}

/// Start and end of each identifier found scanning `s` from `p` on, left to
/// right; the scan goes on after the end of each identifier it finds.
pub open spec fn id_spans_from(s: Seq<char>, p: int) -> Seq<(int, int)>
    decreases s.len() + 1 - p
    via id_spans_decreases
{
    if p < 0 || p >= s.len() {
        Seq::empty()
    } else {
        match id_end(s, p) {
            Some(e) => seq![(p, e)] + id_spans_from(s, e),
            None => id_spans_from(s, p + 1),
        }
    }
}

#[via_fn]
proof fn id_spans_decreases(s: Seq<char>, p: int) {
    if 0 <= p < s.len() {
        lemma_id_end(s, p);
    }
}

/// The requirement identifiers written in `s`, left to right.
pub open spec fn req_ids(s: Seq<char>) -> Seq<Seq<char>> {
    id_spans_from(s, 0).map_values(|sp: (int, int)| s.subrange(sp.0, sp.1))
}

fn id_char(c: char) -> (r: bool)
    ensures
        r == is_id_char(c),
{
    ('A' <= c && c <= 'Z') || ('0' <= c && c <= '9')
}

fn run_char(c: char, digits: bool) -> (r: bool)
    ensures
        r == if digits {
            is_digit(c)
        } else {
            is_id_char(c)
        },
{
    if digits {
        '0' <= c && c <= '9'
    } else {
        id_char(c)
    }
}

fn run_end_exec(s: &Vec<char>, p: usize, digits: bool) -> (r: usize)
    requires
        p <= s.len(),
    ensures
        r == run_end(s@, p as int, digits),
        p <= r <= s.len(),
{
    let mut i = p;
    while i < s.len() && run_char(s[i], digits)
        invariant
            p <= i <= s.len(),
            run_end(s@, p as int, digits) == run_end(s@, i as int, digits),
        decreases s.len() - i,
    {
        i += 1;
    }
    i
}

fn id_end_exec(s: &Vec<char>, i: usize) -> (r: Option<usize>)
    requires
        i <= s.len(),
    ensures
        r matches Some(e) ==> id_end(s@, i as int) == Some(e as int),
        r is None ==> id_end(s@, i as int) is None,
{
    proof {
        reveal_strlit("REQ-");
    }
    if !(s.len() - i > 4 && s[i] == 'R' && s[i + 1] == 'E' && s[i + 2] == 'Q' && s[i + 3] == '-'
        && id_char(s[i + 4])) {
        proof {
            if occurs_at(s@, "REQ-"@, i as int) {
                assert(s@.subrange(i as int, i + 4)[0] == 'R');
                assert(s@.subrange(i as int, i + 4)[1] == 'E');
                assert(s@.subrange(i as int, i + 4)[2] == 'Q');
                assert(s@.subrange(i as int, i + 4)[3] == '-');
            }
        }
        return None;
    }
    assert(s@.subrange(i as int, i + 4) =~= "REQ-"@);
    let mut e = run_end_exec(s, i + 4, false);
    while s.len() - e > 1 && s[e] == '-' && id_char(s[e + 1])
        invariant
            i + 4 <= e <= s.len(),
            segments_end(s@, run_end(s@, i + 4, false)) == segments_end(s@, e as int),
        decreases s.len() - e,
    {
        e = run_end_exec(s, e + 1, false);
    }
    if s.len() - e > 1 && s[e] == '.' && '0' <= s[e + 1] && s[e + 1] <= '9' {
        Some(run_end_exec(s, e + 1, true))
    } else {
        Some(e)
    }
}

/// Start and end of each requirement identifier in `s`, left to right.
pub fn id_spans(s: &Vec<char>) -> (r: Vec<(usize, usize)>)
    ensures
        r@.len() == id_spans_from(s@, 0).len(),
        forall|k: int|
            0 <= k < r.len() ==> (#[trigger] r@[k]).0 as int == id_spans_from(s@, 0)[k].0
                && r@[k].1 as int == id_spans_from(s@, 0)[k].1 && r@[k].0 <= r@[k].1 <= s.len(),
{
    let mut out: Vec<(usize, usize)> = Vec::new();
    let mut p: usize = 0;
    while p < s.len()
        invariant
            p <= s.len(),
            out@.map_values(|sp: (usize, usize)| (sp.0 as int, sp.1 as int)) + id_spans_from(
                s@,
                p as int,
            ) == id_spans_from(s@, 0),
            forall|k: int| 0 <= k < out.len() ==> (#[trigger] out@[k]).0 <= out@[k].1 <= s.len(),
        decreases s.len() - p,
    {
        let ghost old_out = out@;
        match id_end_exec(s, p) {
            Some(e) => {
                proof {
                    lemma_id_end(s@, p as int);
                }
                out.push((p, e));
                assert(out@.map_values(|sp: (usize, usize)| (sp.0 as int, sp.1 as int))
                    =~= old_out.map_values(|sp: (usize, usize)| (sp.0 as int, sp.1 as int))
                    + seq![(p as int, e as int)]);
                p = e;
            },
            None => {
                p += 1;
            },
        }
    }
    assert(id_spans_from(s@, p as int) == Seq::<(int, int)>::empty());
    assert(out@.map_values(|sp: (usize, usize)| (sp.0 as int, sp.1 as int)) =~= id_spans_from(
        s@,
        0,
    ));
    proof {
        assert forall|k: int| 0 <= k < out.len() implies (#[trigger] out@[k]).0 as int
            == id_spans_from(s@, 0)[k].0 && out@[k].1 as int == id_spans_from(s@, 0)[k].1 by {
            assert(out@.map_values(|sp: (usize, usize)| (sp.0 as int, sp.1 as int))[k] == (
            out@[k].0 as int, out@[k].1 as int));
        }
    }
    out
}

} // verus!

verus! {

/// `id` is one whole requirement identifier.
pub open spec fn is_requirement_id(id: Seq<char>) -> bool {
    id_end(id, 0) == Some(id.len() as int)
}

proof fn lemma_run_end_shift(p: Seq<char>, t: Seq<char>, j: int, digits: bool)
    requires
        0 <= j <= t.len(),
    ensures
        run_end(p + t, p.len() + j, digits) == p.len() + run_end(t, j, digits),
    decreases t.len() - j,
{
    let s = p + t;
    if j < t.len() {
        assert(s[p.len() + j] == t[j]);
        lemma_run_end_shift(p, t, j + 1, digits);
    }
}

proof fn lemma_segments_end_shift(p: Seq<char>, t: Seq<char>, j: int)
    requires
        0 <= j <= t.len(),
    ensures
        segments_end(p + t, p.len() + j) == p.len() + segments_end(t, j),
    decreases t.len() - j,
{
    let s = p + t;
    if j + 1 < t.len() {
        assert(s[p.len() + j] == t[j]);
        assert(s[p.len() + j + 1] == t[j + 1]);
        if t[j] == '-' && is_id_char(t[j + 1]) {
            lemma_run_end_shift(p, t, j + 1, false);
            lemma_run_end(t, j + 1, false);
            lemma_segments_end_shift(p, t, run_end(t, j + 1, false));
        }
    }
}

proof fn lemma_id_end_shift(p: Seq<char>, t: Seq<char>, j: int)
    requires
        0 <= j <= t.len(),
    ensures
        id_end(p + t, p.len() + j) == match id_end(t, j) {
            Some(e) => Some(p.len() + e),
            None => None::<int>,
        },
{
    reveal_strlit("REQ-");
    let s = p + t;
    let i = p.len() + j;
    assert(occurs_at(s, "REQ-"@, i) == occurs_at(t, "REQ-"@, j)) by {
        if j + 4 <= t.len() {
            assert(s.subrange(i, i + 4) =~= t.subrange(j, j + 4));
        }
    }
    if occurs_at(t, "REQ-"@, j) && j + 4 < t.len() && is_id_char(t[j + 4]) {
        assert(s[i + 4] == t[j + 4]);
        lemma_run_end_shift(p, t, j + 4, false);
        lemma_run_end(t, j + 4, false);
        let e0 = run_end(t, j + 4, false);
        lemma_segments_end_shift(p, t, e0);
        lemma_segments_end(t, e0);
        let e = segments_end(t, e0);
        if e + 1 < t.len() {
            assert(s[p.len() + e] == t[e]);
            assert(s[p.len() + e + 1] == t[e + 1]);
            if t[e] == '.' && is_digit(t[e + 1]) {
                lemma_run_end_shift(p, t, e + 1, true);
            }
        }
    } else if occurs_at(t, "REQ-"@, j) && j + 4 < t.len() {
        assert(s[i + 4] == t[j + 4]);
    }
}

proof fn lemma_spans_shift(p: Seq<char>, t: Seq<char>, j: int)
    requires
        0 <= j <= t.len(),
    ensures
        id_spans_from(p + t, p.len() + j) == id_spans_from(t, j).map_values(
            |sp: (int, int)| (sp.0 + p.len(), sp.1 + p.len()),
        ),
    decreases t.len() + 1 - j,
{
    let s = p + t;
    if j < t.len() {
        lemma_id_end_shift(p, t, j);
        lemma_id_end(t, j);
        match id_end(t, j) {
            Some(e) => {
                lemma_spans_shift(p, t, e);
            },
            None => {
                lemma_spans_shift(p, t, j + 1);
            },
        }
        assert(id_spans_from(p + t, p.len() + j) =~= id_spans_from(t, j).map_values(
            |sp: (int, int)| (sp.0 + p.len(), sp.1 + p.len()),
        ));
    } else {
        assert(id_spans_from(t, j).map_values(|sp: (int, int)| (sp.0 + p.len(), sp.1 + p.len()))
            =~= Seq::<(int, int)>::empty());
    }
}

/// A comment line that holds one requirement identifier, `// ` and the
/// identifier, yields exactly that identifier.
pub proof fn law_comment_line_yields_its_id(id: Seq<char>)
    requires
        is_requirement_id(id),
    ensures
        req_ids(seq!['/', '/', ' '] + id) == seq![id],
{
    let p = seq!['/', '/', ' '];
    let s = p + id;
    lemma_id_end(id, 0);
    assert(id_spans_from(id, id.len() as int) == Seq::<(int, int)>::empty());
    assert(id_spans_from(id, 0) == seq![(0int, id.len() as int)]);
    lemma_spans_shift(p, id, 0);
    reveal_strlit("REQ-");
    assert forall|i: int| 0 <= i < 3 implies id_end(s, i) is None by {
        assert(s[i] != 'R');
        if occurs_at(s, "REQ-"@, i) {
            assert(s.subrange(i, i + 4)[0] == s[i]);
        }
    }
    assert(id_spans_from(s, 0) == id_spans_from(s, 1));
    assert(id_spans_from(s, 1) == id_spans_from(s, 2));
    assert(id_spans_from(s, 2) == id_spans_from(s, 3));
    assert(id_spans_from(s, 3) =~= seq![(3int, 3 + id.len() as int)]);
    assert(s.subrange(3, 3 + id.len() as int) =~= id);
    assert(req_ids(s) =~= seq![id]);
}

} // verus!

verus! {

/// The characters a requirement identifier is written with.
pub open spec fn id_text_char(c: char) -> bool {
    c == '-' || c == '.' || is_id_char(c)
}

proof fn lemma_run_chars(s: Seq<char>, p: int, digits: bool)
    requires
        0 <= p <= s.len(),
    ensures
        forall|k: int| p <= k < run_end(s, p, digits) ==> id_text_char(#[trigger] s[k]),
    decreases s.len() - p,
{
    if p < s.len() && (if digits { is_digit(s[p]) } else { is_id_char(s[p]) }) {
        lemma_run_chars(s, p + 1, digits);
    }
}

proof fn lemma_segment_chars(s: Seq<char>, p: int)
    requires
        0 <= p <= s.len(),
    ensures
        forall|k: int| p <= k < segments_end(s, p) ==> id_text_char(#[trigger] s[k]),
    decreases s.len() - p,
{
    if 0 <= p && p + 1 < s.len() && s[p] == '-' && is_id_char(s[p + 1]) {
        lemma_run_end(s, p + 1, false);
        lemma_run_chars(s, p + 1, false);
        lemma_segment_chars(s, run_end(s, p + 1, false));
    }
}

/// A requirement identifier is written with capital letters, digits, `-`
/// and `.` only.
pub proof fn lemma_id_chars(id: Seq<char>)
    requires
        is_requirement_id(id),
    ensures
        forall|k: int| 0 <= k < id.len() ==> id_text_char(#[trigger] id[k]),
        id.len() > 0,
{
    reveal_strlit("REQ-");
    lemma_id_end(id, 0);
    assert(id.subrange(0, 4) == "REQ-"@);
    assert forall|k: int| 0 <= k < 4 implies id_text_char(#[trigger] id[k]) by {
        assert(id[k] == id.subrange(0, 4)[k]);
    }
    lemma_run_end(id, 4, false);
    lemma_run_chars(id, 4, false);
    let e0 = run_end(id, 4, false);
    lemma_segments_end(id, e0);
    lemma_segment_chars(id, e0);
    let e = segments_end(id, e0);
    if e + 1 < id.len() && id[e] == '.' && is_digit(id[e + 1]) {
        lemma_run_chars(id, e + 1, true);
    }
}

} // verus!
