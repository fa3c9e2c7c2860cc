//! Requirement traceability: annotation links between requirement identifiers
//! and source or test locations, and the matrix that indexes them.
use vstd::prelude::*;

use crate::annotation::{id_spans, id_spans_from, req_ids};
use crate::text::{
    lemma_views_push, views,
    chars_of, copy_string, lemma_less_irreflexive, lemma_less_total, lemma_less_transitive,
    seq_less, str_eq, str_less, find_from, line_spans, lines_of, occurs_at, slice_string, span_texts, sub_chars,
    lemma_lines_len,
};
use crate::time::{now_utc, Timestamp};

verus! {

/// What a link records: code that implements a requirement, a test that
/// verifies it, or a derived requirement.
#[derive(Debug, Clone, Copy, PartialEq, Eq, Structural)]
pub enum LinkType {
    Implementation,
    Test,
    Derived,
}

/// One recorded association between a requirement and a source location.
#[derive(Debug, PartialEq, Eq)]
pub struct TraceabilityLink {
    pub requirement_id: String,
    pub source_file: String,
    pub line_number: u32,
    pub link_type: LinkType,
    pub created_at: Timestamp,
}

/// What a link says, apart from when it was made.
pub struct LinkView {
    pub requirement_id: Seq<char>,
    pub source_file: Seq<char>,
    pub line_number: int,
    pub link_type: LinkType,
}

impl View for TraceabilityLink {
    type V = LinkView;

    open spec fn view(&self) -> LinkView {
        LinkView {
            requirement_id: self.requirement_id@,
            source_file: self.source_file@,
            line_number: self.line_number as int,
            link_type: self.link_type,
        }
    }
}

impl TraceabilityLink {
    /// A link made now.
    pub fn new(requirement_id: String, source_file: String, line_number: u32, link_type: LinkType) -> (r: Self)
        ensures
            r.requirement_id == requirement_id,
            r.source_file == source_file,
            r.line_number == line_number,
            r.link_type == link_type,
    {
        TraceabilityLink {
            requirement_id,
            source_file,
            line_number,
            link_type,
            created_at: now_utc(),
        }
    }

    /// A copy of this link.
    pub fn duplicate(&self) -> (r: Self)
        ensures
            r@ == self@,
            r.created_at == self.created_at,
    {
        TraceabilityLink {
            requirement_id: String::from_str(self.requirement_id.as_str()),
            source_file: String::from_str(self.source_file.as_str()),
            line_number: self.line_number,
            link_type: self.link_type,
            created_at: self.created_at,
        }
    }
}

/// The views of a sequence of links.
pub open spec fn link_views(ls: Seq<TraceabilityLink>) -> Seq<LinkView> {
    ls.map_values(|l: TraceabilityLink| l@)
}

/// Links of the given type, one per identifier in `ids`, all at `line`.
pub open spec fn links_at(ids: Seq<Seq<char>>, file: Seq<char>, line: int, kind: LinkType) -> Seq<LinkView> {
    ids.map_values(|id: Seq<char>| LinkView { requirement_id: id, source_file: file, line_number: line, link_type: kind })
}

/// Implementation links of a file's lines: every identifier on every line, at
/// that line's 1-based number, in reading order.
pub open spec fn implementation_links(ls: Seq<Seq<char>>, file: Seq<char>) -> Seq<LinkView>
    decreases ls.len(),
{
    if ls.len() == 0 {
        Seq::empty()
    } else {
        implementation_links(ls.drop_last(), file) + links_at(req_ids(ls.last()), file, ls.len() as int, LinkType::Implementation)
    }
}

/// `i` is the first position of `t` in `s`.
pub open spec fn first_occurrence(s: Seq<char>, t: Seq<char>, i: int) -> bool {
    occurs_at(s, t, i) && forall|j: int| 0 <= j < i ==> !occurs_at(s, t, j)
}

/// Identifiers named by a test annotation: those in the text after the first
/// `TEST:` of the line; none where the line has no such marker.
pub open spec fn test_ids(l: Seq<char>) -> Seq<Seq<char>> {
    if exists|i: int| occurs_at(l, "TEST:"@, i) {
        let i = choose|i: int| first_occurrence(l, "TEST:"@, i);
        req_ids(l.subrange(i + 5, l.len() as int))
    } else {
        Seq::empty()
    }
}

/// Test links of a file's lines, in reading order.
pub open spec fn test_links(ls: Seq<Seq<char>>, file: Seq<char>) -> Seq<LinkView>
    decreases ls.len(),
{
    if ls.len() == 0 {
        Seq::empty()
    } else {
        test_links(ls.drop_last(), file) + links_at(test_ids(ls.last()), file, ls.len() as int, LinkType::Test)
    }
}


pub open spec fn span_subranges(l: Seq<char>, sp: Seq<(int, int)>) -> Seq<Seq<char>> {
    sp.map_values(|p: (int, int)| l.subrange(p.0, p.1))
}


/// The identifiers in the characters `a..b` of `content`, as strings.
fn ids_in(content: &str, cs: &Vec<char>, a: usize, b: usize) -> (r: Vec<String>)
    requires
        cs@ == content@,
        a <= b <= cs.len(),
    ensures
        views(r@) == req_ids(cs@.subrange(a as int, b as int)),
{
    let l = sub_chars(cs, a, b);
    let spans = id_spans(&l);
    let ghost sp = id_spans_from(l@, 0);
    let mut out: Vec<String> = Vec::new();
    let mut k: usize = 0;
    while k < spans.len()
        invariant
            cs@ == content@,
            a <= b <= cs.len(),
            l@ == cs@.subrange(a as int, b as int),
            sp == id_spans_from(l@, 0),
            spans@.len() == sp.len(),
            forall|j: int|
                0 <= j < spans.len() ==> (#[trigger] spans@[j]).0 as int == sp[j].0
                    && spans@[j].1 as int == sp[j].1 && spans@[j].0 <= spans@[j].1 <= l.len(),
            k <= spans.len(),
            views(out@) == span_subranges(l@, sp.subrange(0, k as int)),
        decreases spans.len() - k,
    {
        let (x, y) = spans[k];
        let ghost before = out@;
        assert(views(before).len() == before.len());
        assert(span_subranges(l@, sp.subrange(0, k as int)).len() == k);
        let id = slice_string(content, a + x, a + y);
        assert(id@ =~= l@.subrange(x as int, y as int));
        out.push(id);
        k += 1;
        proof {
            assert(sp[k - 1] == (x as int, y as int));
            assert(before.len() == k - 1);
            assert forall|j: int| 0 <= j < k implies views(out@)[j] == span_subranges(
                l@,
                sp.subrange(0, k as int),
            )[j] by {
                if j < k - 1 {
                    assert(out@[j] == before[j]);
                    assert(views(before)[j] == span_subranges(l@, sp.subrange(0, k - 1))[j]);
                }
            }
            assert(views(out@) =~= span_subranges(l@, sp.subrange(0, k as int)));
        }
    }
    assert(sp.subrange(0, k as int) =~= sp);
    assert(span_subranges(l@, sp) == req_ids(l@));
    out
}

/// Every requirement identifier in `content`, the text of `file_path`, as an
/// implementation link at its 1-based line number, in reading order.
pub fn parse_requirement_annotations(file_path: &str, content: &str) -> (r: Vec<TraceabilityLink>)
    requires
        content@.len() < u32::MAX,
    ensures
        link_views(r@) == implementation_links(lines_of(content@), file_path@),
{
    annotation_links(file_path, content, false)
}

/// Every requirement identifier after the first `TEST:` of each line of
/// `content`, the text of `file_path`, as a test link at that line's 1-based
/// number; several identifiers on one line give several links, left to right.
pub fn parse_test_annotations(file_path: &str, content: &str) -> (r: Vec<TraceabilityLink>)
    requires
        content@.len() < u32::MAX,
    ensures
        link_views(r@) == test_links(lines_of(content@), file_path@),
{
    annotation_links(file_path, content, true)
}

fn annotation_links(file_path: &str, content: &str, tests: bool) -> (r: Vec<TraceabilityLink>)
    requires
        content@.len() < u32::MAX,
    ensures
        tests ==> link_views(r@) == test_links(lines_of(content@), file_path@),
        !tests ==> link_views(r@) == implementation_links(lines_of(content@), file_path@),
{
    let cs = chars_of(content);
    let spans = line_spans(&cs);
    let ghost ls = lines_of(cs@);
    proof {
        lemma_lines_len(cs@);
    }
    let marker = chars_of("TEST:");
    let when = now_utc();
    let kind = if tests {
        LinkType::Test
    } else {
        LinkType::Implementation
    };
    let mut links: Vec<TraceabilityLink> = Vec::new();
    let mut i: usize = 0;
    while i < spans.len()
        invariant
            cs@ == content@,
            content@.len() < u32::MAX,
            marker@ == "TEST:"@,
            kind == (if tests { LinkType::Test } else { LinkType::Implementation }),
            ls == lines_of(cs@),
            ls.len() <= cs.len(),
            span_texts(cs@, spans@) == ls,
            forall|k: int| 0 <= k < spans.len() ==> #[trigger] spans@[k].0 <= spans@[k].1 <= cs.len(),
            i <= spans.len(),
            tests ==> link_views(links@) == test_links(ls.subrange(0, i as int), file_path@),
            !tests ==> link_views(links@) == implementation_links(ls.subrange(0, i as int), file_path@),
        decreases spans.len() - i,
    {
        let (a, b) = spans[i];
        assert(cs@.subrange(a as int, b as int) == ls[i as int]);
        let ghost l = ls[i as int];
        let ids = if tests {
            let lc = sub_chars(&cs, a, b);
            match find_from(&lc, &marker, 0) {
                Some(t) => {
                    proof {
                        reveal_strlit("TEST:");
                        assert(first_occurrence(l, "TEST:"@, t as int));
                        let c = choose|j: int| first_occurrence(l, "TEST:"@, j);
                        assert(c == t) by {
                            if c < t {
                                assert(!occurs_at(l, "TEST:"@, c));
                            } else if c > t {
                                assert(!occurs_at(l, "TEST:"@, t as int));
                            }
                        }
                        assert(cs@.subrange(a + t + 5, b as int) =~= l.subrange(t + 5, l.len() as int));
                    }
                    ids_in(content, &cs, a + t + 5, b)
                },
                None => {
                    assert(!exists|j: int| occurs_at(l, "TEST:"@, j));
                    Vec::new()
                },
            }
        } else {
            ids_in(content, &cs, a, b)
        };
        let ghost line_ids = if tests { test_ids(l) } else { req_ids(l) };
        assert(views(ids@) == line_ids);
        let line_no = (i + 1) as u32;
        let ghost before = links@;
        let mut k: usize = 0;
        while k < ids.len()
            invariant
                k <= ids.len(),
                views(ids@) == line_ids,
                link_views(links@) == link_views(before) + links_at(line_ids.subrange(0, k as int), file_path@, i + 1, kind),
                line_no == i + 1,
            decreases ids.len() - k,
        {
            let ghost mid = links@;
            assert(views(ids@)[k as int] == ids@[k as int]@);
            links.push(TraceabilityLink {
                requirement_id: String::from_str(ids[k].as_str()),
                source_file: String::from_str(file_path),
                line_number: line_no,
                link_type: kind,
                created_at: when,
            });
            k += 1;
            assert(link_views(links@) =~= link_views(mid) + seq![links@.last()@]);
            assert(links_at(line_ids.subrange(0, k as int), file_path@, i + 1, kind) =~= links_at(line_ids.subrange(0, k - 1), file_path@, i + 1, kind) + seq![links@.last()@]);
        }
        proof {
            assert(line_ids.subrange(0, k as int) =~= line_ids);
            let pre = ls.subrange(0, i + 1);
            assert(pre.drop_last() =~= ls.subrange(0, i as int));
            assert(pre.last() == l);
            assert(pre.len() == i + 1);
        }
        i += 1;
    }
    assert(ls.subrange(0, i as int) =~= ls);
    links
}

} // verus!

verus! {

/// The key a link is indexed under: its requirement, or its source file.
pub open spec fn key_of(l: LinkView, by_file: bool) -> Seq<char> {
    if by_file {
        l.source_file
    } else {
        l.requirement_id
    }
}

/// Positions, in increasing order, of the links indexed under `key`.
pub open spec fn positions_of(ls: Seq<LinkView>, key: Seq<char>, by_file: bool) -> Seq<usize>
    decreases ls.len(),
{
    if ls.len() == 0 {
        Seq::empty()
    } else {
        positions_of(ls.drop_last(), key, by_file) + if key_of(ls.last(), by_file) == key {
            seq![(ls.len() - 1) as usize]
        } else {
            Seq::empty()
        }
    }
}

/// The links indexed under `key`, in the order they were added.
pub open spec fn links_with_key(ls: Seq<LinkView>, key: Seq<char>, by_file: bool) -> Seq<LinkView>
    decreases ls.len(),
{
    if ls.len() == 0 {
        Seq::empty()
    } else {
        links_with_key(ls.drop_last(), key, by_file) + if key_of(ls.last(), by_file) == key {
            seq![ls.last()]
        } else {
            Seq::empty()
        }
    }
}

/// Some link is indexed under `key`.
pub open spec fn has_key(ls: Seq<LinkView>, key: Seq<char>, by_file: bool) -> bool {
    exists|p: int| 0 <= p < ls.len() && key_of(#[trigger] ls[p], by_file) == key
}

/// Each key comes strictly before the next, in the order of `String`.
pub open spec fn strictly_sorted(s: Seq<Seq<char>>) -> bool {
    forall|i: int, j: int| 0 <= i < j < s.len() ==> seq_less(#[trigger] s[i], #[trigger] s[j])
}

/// `r` lists every key of the links once, in increasing order.
pub open spec fn sorted_keys(r: Seq<Seq<char>>, ls: Seq<LinkView>, by_file: bool) -> bool {
    strictly_sorted(r) && forall|k: Seq<char>| r.contains(k) <==> has_key(ls, k, by_file)
}

/// One key of an index and the positions of the links indexed under it.
#[derive(Debug)]
pub struct IndexEntry {
    pub key: String,
    pub positions: Vec<usize>,
}

pub open spec fn keys_of(index: Seq<IndexEntry>) -> Seq<Seq<char>> {
    index.map_values(|e: IndexEntry| e.key@)
}

/// The index lists each key once, in increasing order, with the positions of
/// exactly the links indexed under it.
pub open spec fn index_wf(index: Seq<IndexEntry>, ls: Seq<LinkView>, by_file: bool) -> bool {
    &&& strictly_sorted(keys_of(index))
    &&& forall|i: int|
        0 <= i < index.len() ==> (#[trigger] index[i]).positions@ == positions_of(
            ls,
            index[i].key@,
            by_file,
        ) && index[i].positions@.len() > 0
    &&& forall|p: int|
        0 <= p < ls.len() ==> exists|i: int|
            0 <= i < index.len() && (#[trigger] index[i]).key@ == key_of(#[trigger] ls[p], by_file)
}

proof fn lemma_positions_absent(ls: Seq<LinkView>, key: Seq<char>, by_file: bool)
    requires
        forall|p: int| 0 <= p < ls.len() ==> key_of(#[trigger] ls[p], by_file) != key,
    ensures
        positions_of(ls, key, by_file) == Seq::<usize>::empty(),
        links_with_key(ls, key, by_file) == Seq::<LinkView>::empty(),
    decreases ls.len(),
{
    if ls.len() > 0 {
        let d = ls.drop_last();
        assert forall|p: int| 0 <= p < d.len() implies key_of(#[trigger] d[p], by_file) != key by {
            assert(d[p] == ls[p]);
        }
        lemma_positions_absent(d, key, by_file);
        assert(key_of(ls[ls.len() - 1], by_file) != key);
    }
}

proof fn lemma_positions_in_range(ls: Seq<LinkView>, key: Seq<char>, by_file: bool)
    requires
        ls.len() <= usize::MAX,
    ensures
        forall|j: int|
            0 <= j < positions_of(ls, key, by_file).len() ==> (#[trigger] positions_of(
                ls,
                key,
                by_file,
            )[j]) < ls.len() && key_of(ls[positions_of(ls, key, by_file)[j] as int], by_file)
                == key,
        positions_of(ls, key, by_file).len() == links_with_key(ls, key, by_file).len(),
        forall|j: int|
            0 <= j < positions_of(ls, key, by_file).len() ==> ls[#[trigger] positions_of(
                ls,
                key,
                by_file,
            )[j] as int] == links_with_key(ls, key, by_file)[j],
    decreases ls.len(),
{
    if ls.len() > 0 {
        let d = ls.drop_last();
        lemma_positions_in_range(d, key, by_file);
        let pd = positions_of(d, key, by_file);
        let p = positions_of(ls, key, by_file);
        let wd = links_with_key(d, key, by_file);
        let w = links_with_key(ls, key, by_file);
        assert forall|j: int| 0 <= j < p.len() implies p[j] < ls.len() && key_of(
            ls[p[j] as int],
            by_file,
        ) == key && ls[p[j] as int] == w[j] by {
            if j < pd.len() {
                assert(p[j] == pd[j]);
                assert(w[j] == wd[j]);
                assert(ls[pd[j] as int] == d[pd[j] as int]);
            } else {
                assert(p[j] == ls.len() - 1);
                assert(w[j] == ls.last());
            }
        }
    }
}

/// Three-way lookup of `key` among the sorted keys of an index.
fn find_key(index: &Vec<IndexEntry>, key: &str) -> (r: Result<usize, usize>)
    requires
        strictly_sorted(keys_of(index@)),
    ensures
        match r {
            Ok(i) => i < index.len() && index@[i as int].key@ == key@,
            Err(i) => i <= index.len() && (forall|j: int|
                0 <= j < i ==> seq_less(#[trigger] index@[j].key@, key@)) && (forall|j: int|
                i <= j < index.len() ==> seq_less(key@, #[trigger] index@[j].key@)),
        },
{
    let mut lo: usize = 0;
    let mut hi: usize = index.len();
    while lo < hi
        invariant
            lo <= hi <= index.len(),
            strictly_sorted(keys_of(index@)),
            forall|j: int| 0 <= j < lo ==> seq_less(#[trigger] index@[j].key@, key@),
            forall|j: int| hi <= j < index.len() ==> seq_less(key@, #[trigger] index@[j].key@),
        decreases hi - lo,
    {
        let mid = lo + (hi - lo) / 2;
        let k = index[mid].key.as_str();
        if str_eq(k, key) {
            return Ok(mid);
        }
        proof {
            lemma_less_total(index@[mid as int].key@, key@);
        }
        if str_less(k, key) {
            proof {
                assert forall|j: int| 0 <= j <= mid implies seq_less(
                    #[trigger] index@[j].key@,
                    key@,
                ) by {
                    if j < mid {
                        assert(keys_of(index@)[j] == index@[j].key@);
                        assert(keys_of(index@)[mid as int] == index@[mid as int].key@);
                        lemma_less_transitive(index@[j].key@, index@[mid as int].key@, key@);
                    }
                }
            }
            lo = mid + 1;
        } else {
            proof {
                assert forall|j: int| mid <= j < index.len() implies seq_less(
                    key@,
                    #[trigger] index@[j].key@,
                ) by {
                    if j > mid {
                        assert(keys_of(index@)[j] == index@[j].key@);
                        assert(keys_of(index@)[mid as int] == index@[mid as int].key@);
                        lemma_less_transitive(key@, index@[mid as int].key@, index@[j].key@);
                    }
                }
            }
            hi = mid;
        }
    }
    Err(lo)
}

/// Records position `n`, the position of a new link `l`, under `key`.
fn index_add(
    index: &mut Vec<IndexEntry>,
    key: &String,
    n: usize,
    Ghost(ls): Ghost<Seq<LinkView>>,
    Ghost(l): Ghost<LinkView>,
    Ghost(by_file): Ghost<bool>,
)
    requires
        index_wf(old(index)@, ls, by_file),
        n == ls.len(),
        key@ == key_of(l, by_file),
    ensures
        index_wf(final(index)@, ls.push(l), by_file),
{
    let ghost ls2 = ls.push(l);
    assert(ls2.drop_last() =~= ls);
    assert forall|k: Seq<char>| #[trigger] positions_of(ls2, k, by_file) == positions_of(ls, k, by_file)
        + if k == key@ {
        seq![n]
    } else {
        Seq::empty()
    } by {
        assert(ls2.last() == l);
    }
    match find_key(index, key.as_str()) {
        Ok(i) => {
            let mut e = index.remove(i);
            e.positions.push(n);
            index.insert(i, e);
            proof {
                let old_index = old(index)@;
                assert forall|j: int| 0 <= j < index.len() implies (#[trigger] index@[j]).key@
                    == old_index[j].key@ && (j != i ==> index@[j] == old_index[j]) by {
                }
                assert(keys_of(index@) =~= keys_of(old_index));
                assert forall|j: int| 0 <= j < index.len() implies (#[trigger] index@[j]).positions@
                    == positions_of(ls2, index@[j].key@, by_file) && index@[j].positions@.len()
                    > 0 by {
                    if j != i {
                        lemma_less_total(index@[j].key@, key@);
                        assert(keys_of(old_index)[j] == old_index[j].key@);
                        assert(keys_of(old_index)[i as int] == old_index[i as int].key@);
                        lemma_less_irreflexive(key@);
                    }
                }
                assert forall|p: int| 0 <= p < ls2.len() implies exists|j: int|
                    0 <= j < index.len() && (#[trigger] index@[j]).key@ == key_of(
                        #[trigger] ls2[p],
                        by_file,
                    ) by {
                    if p < ls.len() {
                        assert(ls2[p] == ls[p]);
                        let j = choose|j: int|
                            0 <= j < old_index.len() && (#[trigger] old_index[j]).key@ == key_of(
                                ls[p],
                                by_file,
                            );
                        assert(index@[j].key@ == old_index[j].key@);
                    } else {
                        assert(index@[i as int].key@ == key_of(ls2[p], by_file));
                    }
                }
            }
        },
        Err(i) => {
            let ghost old_index = old(index)@;
            proof {
                assert forall|p: int| 0 <= p < ls.len() implies key_of(#[trigger] ls[p], by_file)
                    != key@ by {
                    let j = choose|j: int|
                        0 <= j < old_index.len() && (#[trigger] old_index[j]).key@ == key_of(
                            ls[p],
                            by_file,
                        );
                    lemma_less_irreflexive(key@);
                    if j < i {
                        assert(seq_less(old_index[j].key@, key@));
                    } else {
                        assert(seq_less(key@, old_index[j].key@));
                    }
                }
                lemma_positions_absent(ls, key@, by_file);
            }
            let mut positions: Vec<usize> = Vec::new();
            positions.push(n);
            index.insert(i, IndexEntry { key: copy_string(key), positions });
            proof {
                assert(index@ =~= old_index.insert(i as int, index@[i as int]));
                assert forall|j: int| 0 <= j < index.len() implies (#[trigger] index@[j]) == if j
                    < i {
                    old_index[j]
                } else if j == i {
                    index@[i as int]
                } else {
                    old_index[j - 1]
                } by {
                }
                assert forall|a: int, b: int|
                    0 <= a < b < index.len() implies seq_less(
                    #[trigger] keys_of(index@)[a],
                    #[trigger] keys_of(index@)[b],
                ) by {
                    assert(keys_of(index@)[a] == index@[a].key@);
                    assert(keys_of(index@)[b] == index@[b].key@);
                    if b < i {
                        assert(keys_of(old_index)[a] == old_index[a].key@);
                        assert(keys_of(old_index)[b] == old_index[b].key@);
                    } else if b == i {
                    } else if a < i {
                        lemma_less_transitive(old_index[a].key@, key@, old_index[b - 1].key@);
                    } else if a == i {
                    } else {
                        assert(keys_of(old_index)[a - 1] == old_index[a - 1].key@);
                        assert(keys_of(old_index)[b - 1] == old_index[b - 1].key@);
                    }
                }
                assert forall|j: int| 0 <= j < index.len() implies (#[trigger] index@[j]).positions@
                    == positions_of(ls2, index@[j].key@, by_file) && index@[j].positions@.len()
                    > 0 by {
                    if j != i {
                        let o = if j < i { j } else { j - 1 };
                        assert(index@[j] == old_index[o]);
                        lemma_less_irreflexive(key@);
                        if o < i {
                            assert(seq_less(old_index[o].key@, key@));
                        } else {
                            assert(seq_less(key@, old_index[o].key@));
                        }
                    } else {
                        assert(index@[j].positions@ =~= seq![n]);
                        assert(positions_of(ls2, key@, by_file) =~= seq![n]);
                    }
                }
                assert forall|p: int| 0 <= p < ls2.len() implies exists|j: int|
                    0 <= j < index.len() && (#[trigger] index@[j]).key@ == key_of(
                        #[trigger] ls2[p],
                        by_file,
                    ) by {
                    if p < ls.len() {
                        assert(ls2[p] == ls[p]);
                        let j = choose|j: int|
                            0 <= j < old_index.len() && (#[trigger] old_index[j]).key@ == key_of(
                                ls[p],
                                by_file,
                            );
                        let w = if j < i { j } else { j + 1 };
                        assert(index@[w] == old_index[j]);
                    } else {
                        assert(index@[i as int].key@ == key_of(ls2[p], by_file));
                    }
                }
            }
        },
    }
}

} // verus!

verus! {

proof fn lemma_positions_complete(ls: Seq<LinkView>, key: Seq<char>, by_file: bool, p: int)
    requires
        ls.len() <= usize::MAX,
        0 <= p < ls.len(),
        key_of(ls[p], by_file) == key,
    ensures
        positions_of(ls, key, by_file).contains(p as usize),
    decreases ls.len(),
{
    let d = ls.drop_last();
    if p < ls.len() - 1 {
        assert(d[p] == ls[p]);
        lemma_positions_complete(d, key, by_file, p);
        let pd = positions_of(d, key, by_file);
        let j = choose|j: int| 0 <= j < pd.len() && pd[j] == p as usize;
        assert(positions_of(ls, key, by_file)[j] == p as usize);
    } else {
        let ps = positions_of(ls, key, by_file);
        assert(ps[ps.len() - 1] == p as usize);
    }
}

/// Some link of type `kind` names requirement `id`.
pub open spec fn has_link_of_type(ls: Seq<LinkView>, id: Seq<char>, kind: LinkType) -> bool {
    exists|p: int|
        0 <= p < ls.len() && (#[trigger] ls[p]).requirement_id == id && ls[p].link_type == kind
}

/// A requirement that is implemented and never tested.
pub open spec fn is_untested(ls: Seq<LinkView>, id: Seq<char>) -> bool {
    has_link_of_type(ls, id, LinkType::Implementation) && !has_link_of_type(ls, id, LinkType::Test)
}

/// The links, indexed by requirement and by source file. Links are only ever
/// appended; both indices always agree with the list of links.
#[derive(Debug)]
pub struct TraceabilityMatrix {
    links: Vec<TraceabilityLink>,
    requirement_index: Vec<IndexEntry>,
    file_index: Vec<IndexEntry>,
    generated_at: Timestamp,
}

impl TraceabilityMatrix {
    /// The links, in the order they were added.
    pub closed spec fn link_seq(&self) -> Seq<TraceabilityLink> {
        self.links@
    }

    /// The links, in the order they were added.
    pub fn links(&self) -> (r: &Vec<TraceabilityLink>)
        ensures
            r@ == self.link_seq(),
    {
        &self.links
    }

    /// When the matrix was made.
    pub closed spec fn generated_at_spec(&self) -> Timestamp {
        self.generated_at
    }

    /// When the matrix was made.
    pub fn generated_at(&self) -> (r: Timestamp)
        ensures
            r == self.generated_at_spec(),
    {
        self.generated_at
    }

    /// Both indices agree with the links.
    pub closed spec fn wf(&self) -> bool {
        &&& index_wf(self.requirement_index@, link_views(self.links@), false)
        &&& index_wf(self.file_index@, link_views(self.links@), true)
    }

    /// An empty matrix, generated now.
    pub fn new() -> (r: Self)
        ensures
            r.wf(),
            r.link_seq().len() == 0,
    {
        let r = TraceabilityMatrix {
            links: Vec::new(),
            requirement_index: Vec::new(),
            file_index: Vec::new(),
            generated_at: now_utc(),
        };
        assert(keys_of(r.requirement_index@) =~= Seq::<Seq<char>>::empty());
        assert(keys_of(r.file_index@) =~= Seq::<Seq<char>>::empty());
        r
    }

    /// Appends `link` and records its position under its requirement and under
    /// its file.
    pub fn add_link(&mut self, link: TraceabilityLink)
        requires
            old(self).wf(),
        ensures
            final(self).wf(),
            final(self).link_seq() == old(self).link_seq().push(link),
    {
        let n = self.links.len();
        let ghost ls = link_views(self.links@);
        index_add(&mut self.requirement_index, &link.requirement_id, n, Ghost(ls), Ghost(link@), Ghost(false));
        index_add(&mut self.file_index, &link.source_file, n, Ghost(ls), Ghost(link@), Ghost(true));
        self.links.push(link);
        assert(link_views(self.links@) =~= ls.push(link@));
    }

    fn lookup(&self, by_file: bool, key: &str) -> (r: Vec<TraceabilityLink>)
        requires
            self.wf(),
        ensures
            link_views(r@) == links_with_key(link_views(self.links@), key@, by_file),
    {
        let ghost ls = link_views(self.links@);
        let index = if by_file {
            &self.file_index
        } else {
            &self.requirement_index
        };
        assert(index_wf(index@, ls, by_file));
        proof {
            assert(ls.len() == self.links.len());
            lemma_positions_in_range(ls, key@, by_file);
        }
        let mut out: Vec<TraceabilityLink> = Vec::new();
        match find_key(index, key) {
            Ok(i) => {
                let ps = &index[i].positions;
                assert(ps@ == positions_of(ls, key@, by_file));
                let mut j: usize = 0;
                while j < ps.len()
                    invariant
                        ls == link_views(self.links@),
                        ps@ == positions_of(ls, key@, by_file),
                        ps@.len() == links_with_key(ls, key@, by_file).len(),
                        forall|q: int|
                            0 <= q < ps@.len() ==> (#[trigger] ps@[q]) < ls.len() && ls[ps@[q] as int]
                                == links_with_key(ls, key@, by_file)[q],
                        j <= ps.len(),
                        link_views(out@) == links_with_key(ls, key@, by_file).subrange(0, j as int),
                    decreases ps.len() - j,
                {
                    let p = ps[j];
                    let ghost before = out@;
                    out.push(self.links[p].duplicate());
                    j += 1;
                    assert(link_views(out@) =~= links_with_key(ls, key@, by_file).subrange(0, j as int)) by {
                        assert(link_views(before) == links_with_key(ls, key@, by_file).subrange(0, j - 1));
                        assert(ls[p as int] == self.links@[p as int]@);
                    }
                }
                assert(links_with_key(ls, key@, by_file).subrange(0, j as int) =~= links_with_key(ls, key@, by_file));
            },
            Err(i) => {
                proof {
                    assert forall|p: int| 0 <= p < ls.len() implies key_of(#[trigger] ls[p], by_file)
                        != key@ by {
                        let j = choose|j: int|
                            0 <= j < index@.len() && (#[trigger] index@[j]).key@ == key_of(
                                ls[p],
                                by_file,
                            );
                        lemma_less_irreflexive(key@);
                        if j < i {
                            assert(seq_less(index@[j].key@, key@));
                        } else {
                            assert(seq_less(key@, index@[j].key@));
                        }
                    }
                    lemma_positions_absent(ls, key@, by_file);
                }
                assert(link_views(out@) =~= Seq::<LinkView>::empty());
            },
        }
        out
    }

    /// The links that name `requirement_id`, in the order they were added.
    pub fn get_links_for_requirement(&self, requirement_id: &str) -> (r: Vec<TraceabilityLink>)
        requires
            self.wf(),
        ensures
            link_views(r@) == links_with_key(link_views(self.link_seq()), requirement_id@, false),
    {
        self.lookup(false, requirement_id)
    }

    /// The links located in `file`, in the order they were added.
    pub fn get_links_in_file(&self, file: &str) -> (r: Vec<TraceabilityLink>)
        requires
            self.wf(),
        ensures
            link_views(r@) == links_with_key(link_views(self.link_seq()), file@, true),
    {
        self.lookup(true, file)
    }

    fn keys(&self, by_file: bool) -> (r: Vec<String>)
        requires
            self.wf(),
        ensures
            sorted_keys(views(r@), link_views(self.links@), by_file),
    {
        let ghost ls = link_views(self.links@);
        let index = if by_file {
            &self.file_index
        } else {
            &self.requirement_index
        };
        assert(index_wf(index@, ls, by_file));
        let mut out: Vec<String> = Vec::new();
        let mut i: usize = 0;
        while i < index.len()
            invariant
                ls == link_views(self.links@),
                index_wf(index@, ls, by_file),
                i <= index.len(),
                views(out@) == keys_of(index@).subrange(0, i as int),
            decreases index.len() - i,
        {
            let ghost before = out@;
            out.push(copy_string(&index[i].key));
            i += 1;
            proof {
                lemma_views_push(before, out@.last());
                assert(out@ == before.push(out@.last()));
                assert(keys_of(index@).subrange(0, i as int) =~= keys_of(index@).subrange(0, i - 1).push(index@[i - 1].key@));
            }
        }
        let ghost r = views(out@);
        assert(r =~= keys_of(index@));
        proof {
            assert forall|k: Seq<char>| r.contains(k) <==> has_key(ls, k, by_file) by {
                if r.contains(k) {
                    let j = choose|j: int| 0 <= j < r.len() && r[j] == k;
                    assert(r[j] == index@[j].key@);
                    assert(ls.len() == self.links.len());
                    lemma_positions_in_range(ls, k, by_file);
                    let p = index@[j].positions@[0];
                    assert(key_of(ls[p as int], by_file) == k);
                }
                if has_key(ls, k, by_file) {
                    let p = choose|p: int| 0 <= p < ls.len() && key_of(#[trigger] ls[p], by_file) == k;
                    let j = choose|j: int|
                        0 <= j < index@.len() && (#[trigger] index@[j]).key@ == key_of(ls[p], by_file);
                    assert(r[j] == k);
                }
            }
        }
        out
    }

    /// Every requirement named by some link, once each, in increasing order.
    pub fn get_all_requirements(&self) -> (r: Vec<String>)
        requires
            self.wf(),
        ensures
            sorted_keys(views(r@), link_views(self.link_seq()), false),
    {
        self.keys(false)
    }

    /// Every file that holds some link, once each, in increasing order.
    pub fn get_all_files(&self) -> (r: Vec<String>)
        requires
            self.wf(),
        ensures
            sorted_keys(views(r@), link_views(self.link_seq()), true),
    {
        self.keys(true)
    }
}

} // verus!

verus! {

/// Whether the links at positions `ps` include one of type `kind`.
fn any_of_type(links: &Vec<TraceabilityLink>, ps: &Vec<usize>, kind: LinkType) -> (r: bool)
    requires
        forall|q: int| 0 <= q < ps@.len() ==> (#[trigger] ps@[q]) < links.len(),
    ensures
        r == exists|q: int| 0 <= q < ps@.len() && links@[#[trigger] ps@[q] as int].link_type == kind,
{
    let mut j: usize = 0;
    while j < ps.len()
        invariant
            forall|q: int| 0 <= q < ps@.len() ==> (#[trigger] ps@[q]) < links.len(),
            j <= ps.len(),
            forall|q: int| 0 <= q < j ==> links@[#[trigger] ps@[q] as int].link_type != kind,
        decreases ps.len() - j,
    {
        if links[ps[j]].link_type == kind {
            return true;
        }
        j += 1;
    }
    false
}

/// The requirements that have an implementation link and no test link, once
/// each, in increasing order.
pub fn find_untested_requirements(matrix: &TraceabilityMatrix) -> (r: Vec<String>)
    requires
        matrix.wf(),
    ensures
        strictly_sorted(views(r@)),
        forall|k: Seq<char>| views(r@).contains(k) <==> is_untested(link_views(matrix.link_seq()), k),
{
    let ghost ls = link_views(matrix.links@);
    let index = &matrix.requirement_index;
    assert(ls.len() == matrix.links.len());
    let mut out: Vec<String> = Vec::new();
    let mut i: usize = 0;
    while i < index.len()
        invariant
            ls == link_views(matrix.links@),
            ls.len() == matrix.links.len(),
            index == &matrix.requirement_index,
            index_wf(index@, ls, false),
            i <= index.len(),
            strictly_sorted(views(out@)),
            forall|m: int| 0 <= m < out.len() ==> exists|j: int| 0 <= j < i && (#[trigger] out@[m])@ == index@[j].key@,
            forall|k: Seq<char>| views(out@).contains(k) <==> (exists|j: int| 0 <= j < i && (#[trigger] index@[j]).key@ == k) && is_untested(ls, k),
        decreases index.len() - i,
    {
        let ghost key = index@[i as int].key@;
        let ps = &index[i].positions;
        proof {
            lemma_positions_in_range(ls, key, false);
            assert forall|q: int| 0 <= q < ps@.len() implies (#[trigger] ps@[q]) < matrix.links.len() by {}
        }
        let has_impl = any_of_type(&matrix.links, ps, LinkType::Implementation);
        let has_test = any_of_type(&matrix.links, ps, LinkType::Test);
        proof {
            assert forall|kind: LinkType| (exists|q: int| 0 <= q < ps@.len() && matrix.links@[#[trigger] ps@[q] as int].link_type == kind) <==> has_link_of_type(ls, key, kind) by {
                if exists|q: int| 0 <= q < ps@.len() && matrix.links@[#[trigger] ps@[q] as int].link_type == kind {
                    let q = choose|q: int| 0 <= q < ps@.len() && matrix.links@[#[trigger] ps@[q] as int].link_type == kind;
                    let p = ps@[q] as int;
                    assert(ls[p] == matrix.links@[p]@);
                    assert(ls[p].requirement_id == key);
                }
                if has_link_of_type(ls, key, kind) {
                    let p = choose|p: int| 0 <= p < ls.len() && (#[trigger] ls[p]).requirement_id == key && ls[p].link_type == kind;
                    lemma_positions_complete(ls, key, false, p);
                    let q = choose|q: int| 0 <= q < ps@.len() && ps@[q] == p as usize;
                    assert(matrix.links@[ps@[q] as int].link_type == kind);
                }
            }
        }
        let ghost before = out@;
        if has_impl && !has_test {
            out.push(copy_string(&index[i].key));
            proof {
                lemma_views_push(before, out@.last());
                assert(out@ == before.push(out@.last()));
                let sv = views(out@);
                assert forall|a: int, b: int| 0 <= a < b < sv.len() implies seq_less(#[trigger] sv[a], #[trigger] sv[b]) by {
                    if b == sv.len() - 1 {
                        let j = choose|j: int| 0 <= j < i && (#[trigger] out@[a])@ == index@[j].key@;
                        assert(keys_of(index@)[j] == index@[j].key@);
                        assert(keys_of(index@)[i as int] == index@[i as int].key@);
                    } else {
                        assert(sv[a] == views(before)[a]);
                        assert(sv[b] == views(before)[b]);
                    }
                }
            }
        }
        proof {
            let sv = views(out@);
            assert forall|m: int| 0 <= m < out.len() implies exists|j: int| 0 <= j < i + 1 && (#[trigger] out@[m])@ == index@[j].key@ by {
                if m < before.len() {
                    assert(out@[m] == before[m]);
                    let j = choose|j: int| 0 <= j < i && (#[trigger] before[m])@ == index@[j].key@;
                    assert(out@[m]@ == index@[j].key@);
                } else {
                    assert(out@[m]@ == index@[i as int].key@);
                }
            }
            assert forall|k: Seq<char>| sv.contains(k) <==> (exists|j: int| 0 <= j < i + 1 && (#[trigger] index@[j]).key@ == k) && is_untested(ls, k) by {
                if sv.contains(k) {
                    let m = choose|m: int| 0 <= m < sv.len() && sv[m] == k;
                    if m < before.len() {
                        assert(views(before)[m] == k);
                        assert(views(before).contains(k));
                        let j = choose|j: int| 0 <= j < i && (#[trigger] index@[j]).key@ == k;
                        assert(index@[j].key@ == k);
                    } else {
                        assert(index@[i as int].key@ == k);
                    }
                }
                if (exists|j: int| 0 <= j < i + 1 && (#[trigger] index@[j]).key@ == k) && is_untested(ls, k) {
                    let j = choose|j: int| 0 <= j < i + 1 && (#[trigger] index@[j]).key@ == k;
                    if j < i {
                        assert(views(before).contains(k));
                        let m = choose|m: int| 0 <= m < views(before).len() && views(before)[m] == k;
                        assert(sv[m] == k);
                    } else {
                        assert(sv[sv.len() - 1] == k);
                    }
                }
            }
        }
        i += 1;
    }
    proof {
        assert forall|k: Seq<char>| views(out@).contains(k) <==> is_untested(ls, k) by {
            if is_untested(ls, k) {
                let p = choose|p: int| 0 <= p < ls.len() && (#[trigger] ls[p]).requirement_id == k && ls[p].link_type == LinkType::Implementation;
                let j = choose|j: int| 0 <= j < index@.len() && (#[trigger] index@[j]).key@ == key_of(ls[p], false);
                assert(index@[j].key@ == k);
            }
        }
    }
    out
}

} // verus!

verus! {

/// The requirement of each link, in order.
pub open spec fn requirement_ids(ls: Seq<LinkView>) -> Seq<Seq<char>> {
    ls.map_values(|l: LinkView| l.requirement_id)
}

/// Whatever links were added: the requirement list holds as many entries as
/// there are distinct requirements among the links, and every link is found
/// both under its requirement and under its file.
pub proof fn law_index_counts_and_finds(m: TraceabilityMatrix, reqs: Seq<Seq<char>>)
    requires
        m.wf(),
        sorted_keys(reqs, link_views(m.link_seq()), false),
    ensures
        reqs.len() == requirement_ids(link_views(m.link_seq())).to_set().len(),
        forall|p: int|
            0 <= p < m.link_seq().len() ==> links_with_key(
                link_views(m.link_seq()),
                m.link_seq()[p]@.requirement_id,
                false,
            ).contains(m.link_seq()[p]@) && links_with_key(
                link_views(m.link_seq()),
                m.link_seq()[p]@.source_file,
                true,
            ).contains(m.link_seq()[p]@),
{
    let ls = link_views(m.links@);
    let ids = requirement_ids(ls);
    assert(reqs.no_duplicates()) by {
        assert forall|i: int, j: int| 0 <= i < reqs.len() && 0 <= j < reqs.len() && i != j implies reqs[i] != reqs[j] by {
            lemma_less_irreflexive(reqs[i]);
            if i < j {
                assert(seq_less(reqs[i], reqs[j]));
            } else {
                assert(seq_less(reqs[j], reqs[i]));
            }
        }
    }
    reqs.unique_seq_to_set();
    assert(reqs.to_set() =~= ids.to_set()) by {
        assert forall|k: Seq<char>| reqs.to_set().contains(k) <==> ids.to_set().contains(k) by {
            if ids.contains(k) {
                let p = choose|p: int| 0 <= p < ids.len() && ids[p] == k;
                assert(key_of(ls[p], false) == k);
            }
            if reqs.contains(k) {
                assert(has_key(ls, k, false));
                let p = choose|p: int| 0 <= p < ls.len() && key_of(#[trigger] ls[p], false) == k;
                assert(ids[p] == k);
            }
        }
    }
    assert(ls.len() == m.links.len());
    assert forall|p: int| 0 <= p < m.links.len() implies links_with_key(ls, m.links@[p]@.requirement_id, false).contains(m.links@[p]@)
        && links_with_key(ls, m.links@[p]@.source_file, true).contains(m.links@[p]@) by {
        assert(ls[p] == m.links@[p]@);
        lemma_positions_complete(ls, ls[p].requirement_id, false, p);
        lemma_positions_in_range(ls, ls[p].requirement_id, false);
        let ps = positions_of(ls, ls[p].requirement_id, false);
        let q = choose|q: int| 0 <= q < ps.len() && ps[q] == p as usize;
        assert(links_with_key(ls, ls[p].requirement_id, false)[q] == ls[p]);
        lemma_positions_complete(ls, ls[p].source_file, true, p);
        lemma_positions_in_range(ls, ls[p].source_file, true);
        let fs = positions_of(ls, ls[p].source_file, true);
        let w = choose|w: int| 0 <= w < fs.len() && fs[w] == p as usize;
        assert(links_with_key(ls, ls[p].source_file, true)[w] == ls[p]);
    }
}

/// A requirement is untested exactly while it has an implementation link and
/// no test link; once a test link for it is added it is untested no more.
pub proof fn law_test_link_clears_untested(ls: Seq<LinkView>, id: Seq<char>, test: LinkView)
    requires
        test.requirement_id == id,
        test.link_type == LinkType::Test,
    ensures
        !is_untested(ls.push(test), id),
        is_untested(ls, id) ==> has_link_of_type(ls.push(test), id, LinkType::Implementation),
{
    let ls2 = ls.push(test);
    assert(ls2[ls.len() as int] == test);
    if is_untested(ls, id) {
        let p = choose|p: int| 0 <= p < ls.len() && (#[trigger] ls[p]).requirement_id == id && ls[p].link_type == LinkType::Implementation;
        assert(ls2[p] == ls[p]);
    }
}

} // verus!

verus! {

pub open spec fn link_type_text(t: LinkType) -> Seq<char> {
    match t {
        LinkType::Implementation => "Implementation"@,
        LinkType::Test => "Test"@,
        LinkType::Derived => "Derived"@,
    }
}

impl LinkType {
    /// The name of the link type as the matrix export writes it.
    pub fn label(&self) -> (r: &'static str)
        ensures
            r@ == link_type_text(*self),
    {
        match self {
            LinkType::Implementation => "Implementation",
            LinkType::Test => "Test",
            LinkType::Derived => "Derived",
        }
    }
}

/// The header row of the matrix export.
pub open spec fn csv_header() -> Seq<Seq<char>> {
    seq!["Requirement ID"@, "Source File"@, "Line Number"@, "Link Type"@, "Created At"@]
}

/// The export row of a link; the time is empty where it has no RFC 3339 form.
pub open spec fn csv_row(l: TraceabilityLink) -> Seq<Seq<char>> {
    seq![
        l.requirement_id@,
        l.source_file@,
        crate::text::decimal_text(l.line_number as nat),
        link_type_text(l.link_type),
        match crate::time::rfc3339_of(l.created_at.secs, l.created_at.nanos) {
            Some(t) => t,
            None => Seq::empty(),
        },
    ]
}


/// The rows of the matrix export: the header, then one row per link in the
/// order the links were added.
pub fn matrix_csv_rows(matrix: &TraceabilityMatrix) -> (r: Vec<Vec<String>>)
    ensures
        r@.len() == matrix.link_seq().len() + 1,
        crate::text::views(r@[0]@) == csv_header(),
        forall|i: int| 0 <= i < matrix.link_seq().len() ==> crate::text::views(#[trigger] r@[i + 1]@) == csv_row(matrix.link_seq()[i]),
{
    let mut header: Vec<String> = Vec::new();
    header.push(String::from_str("Requirement ID"));
    header.push(String::from_str("Source File"));
    header.push(String::from_str("Line Number"));
    header.push(String::from_str("Link Type"));
    header.push(String::from_str("Created At"));
    assert(crate::text::views(header@) =~= csv_header());
    let mut rows: Vec<Vec<String>> = Vec::new();
    rows.push(header);
    let mut i: usize = 0;
    while i < matrix.links.len()
        invariant
            i <= matrix.links.len(),
            rows@.len() == i + 1,
            crate::text::views(rows@[0]@) == csv_header(),
            forall|k: int| 0 <= k < i ==> crate::text::views(#[trigger] rows@[k + 1]@) == csv_row(matrix.links@[k]),
        decreases matrix.links.len() - i,
    {
        let l = &matrix.links[i];
        let mut row: Vec<String> = Vec::new();
        row.push(copy_string(&l.requirement_id));
        row.push(copy_string(&l.source_file));
        row.push(crate::text::number_text(l.line_number as u64));
        row.push(String::from_str(l.link_type.label()));
        row.push(match l.created_at.to_rfc3339() {
            Some(t) => t,
            None => String::new(),
        });
        assert(crate::text::views(row@) =~= csv_row(*l));
        let ghost before = rows@;
        rows.push(row);
        assert forall|k: int| 0 <= k < i + 1 implies crate::text::views(#[trigger] rows@[k + 1]@) == csv_row(matrix.links@[k]) by {
            if k < i {
                assert(rows@[k + 1] == before[k + 1]);
            }
        }
        i += 1;
    }
    rows
}

} // verus!

verus! {

/// The comment lines that embed `ids`, one identifier per line.
pub open spec fn comment_lines(ids: Seq<Seq<char>>) -> Seq<Seq<char>> {
    ids.map_values(|id: Seq<char>| seq!['/', '/', ' '] + id)
}

/// One implementation link per embedded identifier, at its 1-based line.
pub open spec fn embedded_links(ids: Seq<Seq<char>>, file: Seq<char>) -> Seq<LinkView> {
    Seq::new(ids.len(), |k: int| LinkView { requirement_id: ids[k], source_file: file, line_number: k + 1, link_type: LinkType::Implementation })
}

/// Requirement identifiers embedded one per comment line are found exactly:
/// one implementation link per identifier, at the identifier's 1-based line,
/// so the requirements of the links are exactly the embedded ones.
pub proof fn law_embedded_ids_found_exactly(ids: Seq<Seq<char>>, file: Seq<char>)
    requires
        forall|k: int| 0 <= k < ids.len() ==> crate::annotation::is_requirement_id(#[trigger] ids[k]),
    ensures
        implementation_links(comment_lines(ids), file) == embedded_links(ids, file),
        requirement_ids(implementation_links(comment_lines(ids), file)) == ids,
    decreases ids.len(),
{
    let ls = comment_lines(ids);
    if ids.len() > 0 {
        let d = ids.drop_last();
        assert forall|k: int| 0 <= k < d.len() implies crate::annotation::is_requirement_id(#[trigger] d[k]) by {
            assert(d[k] == ids[k]);
        }
        law_embedded_ids_found_exactly(d, file);
        assert(ls.drop_last() =~= comment_lines(d));
        let last = ids[ids.len() - 1];
        crate::annotation::law_comment_line_yields_its_id(last);
        assert(ls.last() == seq!['/', '/', ' '] + last);
        assert(links_at(req_ids(ls.last()), file, ls.len() as int, LinkType::Implementation) =~= seq![
            LinkView { requirement_id: last, source_file: file, line_number: ids.len() as int, link_type: LinkType::Implementation },
        ]);
        assert(implementation_links(ls, file) =~= embedded_links(ids, file));
    } else {
        assert(implementation_links(ls, file) =~= embedded_links(ids, file));
    }
    assert(requirement_ids(implementation_links(ls, file)) =~= ids);
}

} // verus!

verus! {

proof fn lemma_comment_line_is_record(id: Seq<char>)
    requires
        crate::annotation::is_requirement_id(id),
    ensures
        crate::tool_qualification::is_record_text(seq!['/', '/', ' '] + id),
{
    let l = seq!['/', '/', ' '] + id;
    crate::annotation::lemma_id_chars(id);
    assert(!l.contains('\n')) by {
        if l.contains('\n') {
            let k = choose|k: int| 0 <= k < l.len() && l[k] == '\n';
            if k >= 3 {
                assert(l[k] == id[k - 3]);
                assert(crate::annotation::id_text_char(id[k - 3]));
            }
        }
    }
    assert(l.last() == id.last());
    assert(crate::annotation::id_text_char(id[id.len() - 1]));
    assert(crate::text::skip_space(l, 0) == 0);
    assert(!crate::text::is_space(l[l.len() - 1]));
    assert(crate::text::drop_space_back(l, 0, l.len() as int) == l.len());
}

/// The text of a file whose lines are comments that each embed one
/// requirement identifier gives exactly those identifiers, each at its
/// 1-based line.
pub proof fn law_embedded_ids_in_text(ids: Seq<Seq<char>>, file: Seq<char>)
    requires
        forall|k: int| 0 <= k < ids.len() ==> crate::annotation::is_requirement_id(#[trigger] ids[k]),
    ensures
        implementation_links(lines_of(crate::tool_qualification::framed(comment_lines(ids))), file)
            == embedded_links(ids, file),
        requirement_ids(implementation_links(lines_of(crate::tool_qualification::framed(comment_lines(ids))), file)) == ids,
{
    let ls = comment_lines(ids);
    assert forall|k: int| 0 <= k < ls.len() implies crate::tool_qualification::is_record_text(#[trigger] ls[k]) by {
        lemma_comment_line_is_record(ids[k]);
    }
    crate::tool_qualification::lemma_framed_lines(ls);
    law_embedded_ids_found_exactly(ids, file);
}

} // verus!
