//! Small maps and sets kept in vectors: key-value entries looked up by their
//! first occurrence, and string sets without repeats.
use vstd::prelude::*;

use crate::text::{copy_string, str_eq, views};

verus! {

/// The views of key-value entries.
pub open spec fn entry_views(v: Seq<(String, String)>) -> Seq<(Seq<char>, Seq<char>)> {
    v.map_values(|e: (String, String)| (e.0@, e.1@))
}


/// The value of the first entry of `m` with key `k`.
pub open spec fn lookup(m: Seq<(Seq<char>, Seq<char>)>, k: Seq<char>) -> Option<Seq<char>>
    decreases m.len(),
{
    if m.len() == 0 {
        None
    } else if m[0].0 == k {
        Some(m[0].1)
    } else {
        lookup(m.drop_first(), k)
    }
}

/// The value of the first entry of `m` with key `k`.
pub fn find_entry(m: &Vec<(String, String)>, k: &str) -> (r: Option<String>)
    ensures
        match r {
            Some(c) => lookup(entry_views(m@), k@) == Some(c@),
            None => lookup(entry_views(m@), k@) is None,
        },
{
    let mut i: usize = 0;
    assert(entry_views(m@).subrange(0, m.len() as int) =~= entry_views(m@));
    while i < m.len()
        invariant
            i <= m.len(),
            lookup(entry_views(m@), k@) == lookup(entry_views(m@).subrange(i as int, m.len() as int), k@),
        decreases m.len() - i,
    {
        let ghost rest = entry_views(m@).subrange(i as int, m.len() as int);
        assert(rest.drop_first() =~= entry_views(m@).subrange(i + 1, m.len() as int));
        assert(rest[0] == (m@[i as int].0@, m@[i as int].1@));
        if str_eq(m[i].0.as_str(), k) {
            return Some(copy_string(&m[i].1));
        }
        i += 1;
    }
    None
}

/// Sets the value of key `k` in `m`: the first entry with that key gets `v`,
/// or a new entry is appended.
pub fn set_entry(m: &mut Vec<(String, String)>, k: String, v: String)
    ensures
        lookup(entry_views(final(m)@), k@) == Some(v@),
        forall|q: Seq<char>| q != k@ ==> lookup(entry_views(final(m)@), q) == lookup(entry_views(old(m)@), q),
{
    let mut i: usize = 0;
    while i < m.len()
        invariant
            i <= m.len(),
            m@ == old(m)@,
            forall|j: int| 0 <= j < i ==> (#[trigger] m@[j]).0@ != k@,
        decreases m.len() - i,
    {
        if str_eq(m[i].0.as_str(), k.as_str()) {
            let ghost before = entry_views(m@);
            let (key, _) = m.remove(i);
            m.insert(i, (key, v));
            proof {
                let after = entry_views(m@);
                assert forall|j: int| 0 <= j < after.len() implies after[j] == if j == i { (k@, v@) } else { before[j] } by {}
                lemma_lookup_update(before, after, i as int, k@, v@);
            }
            return;
        }
        i += 1;
    }
    let ghost before = entry_views(m@);
    m.push((k, v));
    proof {
        let after = entry_views(m@);
        assert(after =~= before.push((k@, v@)));
        lemma_lookup_push(before, k@, v@);
    }
}

proof fn lemma_lookup_update(
    before: Seq<(Seq<char>, Seq<char>)>,
    after: Seq<(Seq<char>, Seq<char>)>,
    i: int,
    k: Seq<char>,
    v: Seq<char>,
)
    requires
        0 <= i < before.len(),
        after.len() == before.len(),
        before[i].0 == k,
        forall|j: int| 0 <= j < i ==> (#[trigger] before[j]).0 != k,
        forall|j: int| 0 <= j < after.len() ==> #[trigger] after[j] == if j == i { (k, v) } else { before[j] },
    ensures
        lookup(after, k) == Some(v),
        forall|q: Seq<char>| q != k ==> lookup(after, q) == lookup(before, q),
    decreases before.len(),
{
    if i > 0 {
        assert(after[0] == before[0]);
        let b1 = before.drop_first();
        let a1 = after.drop_first();
        assert forall|j: int| 0 <= j < a1.len() implies #[trigger] a1[j] == if j == i - 1 { (k, v) } else { b1[j] } by {
            assert(a1[j] == after[j + 1]);
            assert(b1[j] == before[j + 1]);
        }
        assert forall|j: int| 0 <= j < i - 1 implies (#[trigger] b1[j]).0 != k by {
            assert(b1[j] == before[j + 1]);
        }
        lemma_lookup_update(b1, a1, i - 1, k, v);
        assert(before[0].0 != k);
        assert forall|q: Seq<char>| q != k implies lookup(after, q) == lookup(before, q) by {
            if before[0].0 != q {
                assert(lookup(a1, q) == lookup(b1, q));
            }
        }
    } else {
        assert(after[0] == (k, v));
        assert forall|q: Seq<char>| q != k implies lookup(after, q) == lookup(before, q) by {
            assert(after.drop_first() =~= before.drop_first());
        }
    }
}

proof fn lemma_lookup_push(m: Seq<(Seq<char>, Seq<char>)>, k: Seq<char>, v: Seq<char>)
    requires
        forall|j: int| 0 <= j < m.len() ==> (#[trigger] m[j]).0 != k,
    ensures
        lookup(m.push((k, v)), k) == Some(v),
        forall|q: Seq<char>| q != k ==> lookup(m.push((k, v)), q) == lookup(m, q),
    decreases m.len(),
{
    if m.len() > 0 {
        let d = m.drop_first();
        assert(m.push((k, v)).drop_first() =~= d.push((k, v)));
        assert forall|j: int| 0 <= j < d.len() implies (#[trigger] d[j]).0 != k by {
            assert(d[j] == m[j + 1]);
        }
        lemma_lookup_push(d, k, v);
        assert(m.push((k, v))[0] == m[0]);
        assert(m[0].0 != k);
        assert forall|q: Seq<char>| q != k implies lookup(m.push((k, v)), q) == lookup(m, q) by {
            if m[0].0 != q {
                assert(lookup(d.push((k, v)), q) == lookup(d, q));
            }
        }
    } else {
        assert(m.push((k, v))[0] == (k, v));
        assert forall|q: Seq<char>| q != k implies lookup(m.push((k, v)), q) == lookup(m, q) by {
            assert(m.push((k, v)).drop_first().len() == 0);
            assert(lookup(m.push((k, v)).drop_first(), q) is None);
        }
    }
}

/// Whether `v` holds a string equal to `k`.
pub fn has_member(v: &Vec<String>, k: &str) -> (r: bool)
    ensures
        r == views(v@).contains(k@),
{
    let mut i: usize = 0;
    while i < v.len()
        invariant
            i <= v.len(),
            forall|j: int| 0 <= j < i ==> (#[trigger] v@[j])@ != k@,
        decreases v.len() - i,
    {
        if str_eq(v[i].as_str(), k) {
            assert(views(v@)[i as int] == k@);
            return true;
        }
        i += 1;
    }
    assert forall|j: int| 0 <= j < views(v@).len() implies views(v@)[j] != k@ by {
        assert(views(v@)[j] == v@[j]@);
    }
    false
}

pub fn add_member(v: &mut Vec<String>, k: String)
    ensures
        forall|q: Seq<char>| views(final(v)@).contains(q) <==> (views(old(v)@).contains(q) || q == k@),
{
    if !has_member(v, k.as_str()) {
        let ghost before = v@;
        v.push(k);
        proof {
            assert(views(v@) =~= views(before).push(v@.last()@));
            assert forall|q: Seq<char>| views(v@).contains(q) <==> (views(before).contains(q) || q == v@.last()@) by {
                if views(v@).contains(q) {
                    let j = choose|j: int| 0 <= j < views(v@).len() && views(v@)[j] == q;
                    if j < before.len() {
                        assert(views(before)[j] == q);
                    }
                }
                if views(before).contains(q) {
                    let j = choose|j: int| 0 <= j < views(before).len() && views(before)[j] == q;
                    assert(views(v@)[j] == q);
                }
                if q == v@.last()@ {
                    assert(views(v@)[before.len() as int] == q);
                }
            }
        }
    }
}

} // verus!
