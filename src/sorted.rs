//! Sorted vectors of byte-string keys, the maps and sets of the data model.

use crate::bytes::{
    bytes_lt, compare_bytes, lemma_bytes_lt_asymmetric, lemma_bytes_lt_irreflexive,
    lemma_bytes_lt_transitive,
};
use crate::types::{keys_of, strictly_sorted};
use core::cmp::Ordering;
use vstd::prelude::*;

verus! {

/// The map `m` with `k` bound to `w`: the value of an existing key is replaced,
/// a new key goes where the ascending order puts it.
pub open spec fn map_insert<W>(m: Seq<(Seq<u8>, W)>, k: Seq<u8>, w: W) -> Seq<(Seq<u8>, W)>
    decreases m.len(),
{
    if m.len() == 0 {
        seq![(k, w)]
    } else if m[0].0 == k {
        m.update(0, (k, w))
    } else if bytes_lt(k, m[0].0) {
        seq![(k, w)] + m
    } else {
        seq![m[0]] + map_insert(m.drop_first(), k, w)
    }
}

/// The set `s` with `k` added where the ascending order puts it.
pub open spec fn set_insert(s: Seq<Seq<u8>>, k: Seq<u8>) -> Seq<Seq<u8>>
    decreases s.len(),
{
    if s.len() == 0 {
        seq![k]
    } else if s[0] == k {
        s
    } else if bytes_lt(k, s[0]) {
        seq![k] + s
    } else {
        seq![s[0]] + set_insert(s.drop_first(), k)
    }
}

/// The map that binding each entry in turn gives: a later entry for a key
/// replaces an earlier one.
pub open spec fn build_map<W>(entries: Seq<(Seq<u8>, W)>) -> Seq<(Seq<u8>, W)>
    decreases entries.len(),
{
    if entries.len() == 0 {
        Seq::empty()
    } else {
        map_insert(build_map(entries.drop_last()), entries.last().0, entries.last().1)
    }
}

/// The set of the given byte strings, in ascending order.
pub open spec fn build_set(items: Seq<Seq<u8>>) -> Seq<Seq<u8>>
    decreases items.len(),
{
    if items.len() == 0 {
        Seq::empty()
    } else {
        set_insert(build_set(items.drop_last()), items.last())
    }
}

/// Where key `k` stands, or would stand, in the ascending keys `ks`.
pub open spec fn is_slot(ks: Seq<Seq<u8>>, k: Seq<u8>, i: int, found: bool) -> bool {
    &&& 0 <= i <= ks.len()
    &&& forall|j: int| 0 <= j < i ==> bytes_lt(#[trigger] ks[j], k)
    &&& found ==> i < ks.len() && ks[i] == k
    &&& !found ==> forall|j: int| i <= j < ks.len() ==> bytes_lt(k, #[trigger] ks[j])
}

pub proof fn lemma_map_insert_at<W>(m: Seq<(Seq<u8>, W)>, k: Seq<u8>, w: W, i: int, found: bool)
    requires
        is_slot(keys_of(m), k, i, found),
    ensures
        map_insert(m, k, w) == if found {
            m.update(i, (k, w))
        } else {
            m.insert(i, (k, w))
        },
    decreases m.len(),
{
    if m.len() > 0 {
        if i > 0 {
            assert(bytes_lt(keys_of(m)[0], k));
            lemma_bytes_lt_irreflexive(k);
            lemma_bytes_lt_asymmetric(k, m[0].0);
            let t = m.drop_first();
            assert(keys_of(t) =~= keys_of(m).drop_first());
            lemma_map_insert_at(t, k, w, i - 1, found);
            if found {
                assert(m.update(i, (k, w)) =~= seq![m[0]] + t.update(i - 1, (k, w)));
            } else {
                assert(m.insert(i, (k, w)) =~= seq![m[0]] + t.insert(i - 1, (k, w)));
            }
        } else if found {
            assert(keys_of(m)[0] == k);
        } else {
            assert(bytes_lt(k, keys_of(m)[0]));
            lemma_bytes_lt_irreflexive(k);
            assert(m.insert(0, (k, w)) =~= seq![(k, w)] + m);
        }
    } else {
        assert(m.insert(0, (k, w)) =~= seq![(k, w)]);
    }
}

pub proof fn lemma_set_insert_at(s: Seq<Seq<u8>>, k: Seq<u8>, i: int, found: bool)
    requires
        is_slot(s, k, i, found),
    ensures
        set_insert(s, k) == if found {
            s
        } else {
            s.insert(i, k)
        },
    decreases s.len(),
{
    if s.len() > 0 {
        if i > 0 {
            assert(bytes_lt(s[0], k));
            lemma_bytes_lt_irreflexive(k);
            lemma_bytes_lt_asymmetric(k, s[0]);
            let t = s.drop_first();
            lemma_set_insert_at(t, k, i - 1, found);
            if found {
                assert(s =~= seq![s[0]] + t);
            } else {
                assert(s.insert(i, k) =~= seq![s[0]] + t.insert(i - 1, k));
            }
        } else if !found {
            assert(bytes_lt(k, s[0]));
            lemma_bytes_lt_irreflexive(k);
            assert(s.insert(0, k) =~= seq![k] + s);
        }
    } else {
        assert(s.insert(0, k) =~= seq![k]);
    }
}

/// Inserting at the slot of a new key keeps the keys ascending.
pub proof fn lemma_insert_sorted(ks: Seq<Seq<u8>>, k: Seq<u8>, i: int)
    requires
        strictly_sorted(ks),
        is_slot(ks, k, i, false),
    ensures
        strictly_sorted(ks.insert(i, k)),
{
    let r = ks.insert(i, k);
    assert forall|a: int, b: int| 0 <= a < b < r.len() implies bytes_lt(#[trigger] r[a], #[trigger] r[b]) by {
        if b < i {
        } else if b == i {
        } else if a < i {
            assert(bytes_lt(ks[a], k));
            assert(bytes_lt(k, ks[b - 1]));
            lemma_bytes_lt_transitive(ks[a], k, ks[b - 1]);
        } else if a == i {
        } else {
            assert(bytes_lt(ks[a - 1], ks[b - 1]));
        }
    }
}

/// The slot of `k` among the ascending keys of `m`.
pub(crate) fn find_key<V>(m: &Vec<(Vec<u8>, V)>, k: &[u8]) -> (r: (usize, bool))
    requires
        strictly_sorted(m@.map_values(|e: (Vec<u8>, V)| e.0@)),
    ensures
        is_slot(m@.map_values(|e: (Vec<u8>, V)| e.0@), k@, r.0 as int, r.1),
{
    let ghost ks = m@.map_values(|e: (Vec<u8>, V)| e.0@);
    let n = m.len();
    if n == 0 {
        return (0, false);
    }
    if matches!(compare_bytes(m[n - 1].0.as_slice(), k), Ordering::Less) {
        assert forall|j: int| 0 <= j < n implies bytes_lt(#[trigger] ks[j], k@) by {
            if j < n - 1 {
                lemma_bytes_lt_transitive(ks[j], ks[n - 1], k@);
            }
        }
        return (n, false);
    }
    let mut i: usize = 0;
    while i < n
        invariant
            n == m@.len(),
            ks == m@.map_values(|e: (Vec<u8>, V)| e.0@),
            strictly_sorted(ks),
            i <= n,
            forall|j: int| 0 <= j < i ==> bytes_lt(#[trigger] ks[j], k@),
        decreases n - i,
    {
        let c = compare_bytes(m[i].0.as_slice(), k);
        if matches!(c, Ordering::Equal) {
            return (i, true);
        }
        if matches!(c, Ordering::Greater) {
            assert forall|j: int| i <= j < n implies bytes_lt(k@, #[trigger] ks[j]) by {
                if j > i {
                    lemma_bytes_lt_transitive(k@, ks[i as int], ks[j]);
                }
            }
            return (i, false);
        }
        i = i + 1;
    }
    (n, false)
}

/// The slot of `k` in the ascending set `s`.
pub(crate) fn find_member(s: &Vec<Vec<u8>>, k: &[u8]) -> (r: (usize, bool))
    requires
        strictly_sorted(s@.map_values(|e: Vec<u8>| e@)),
    ensures
        is_slot(s@.map_values(|e: Vec<u8>| e@), k@, r.0 as int, r.1),
{
    let ghost ks = s@.map_values(|e: Vec<u8>| e@);
    let n = s.len();
    if n == 0 {
        return (0, false);
    }
    if matches!(compare_bytes(s[n - 1].as_slice(), k), Ordering::Less) {
        assert forall|j: int| 0 <= j < n implies bytes_lt(#[trigger] ks[j], k@) by {
            if j < n - 1 {
                lemma_bytes_lt_transitive(ks[j], ks[n - 1], k@);
            }
        }
        return (n, false);
    }
    let mut i: usize = 0;
    while i < n
        invariant
            n == s@.len(),
            ks == s@.map_values(|e: Vec<u8>| e@),
            strictly_sorted(ks),
            i <= n,
            forall|j: int| 0 <= j < i ==> bytes_lt(#[trigger] ks[j], k@),
        decreases n - i,
    {
        let c = compare_bytes(s[i].as_slice(), k);
        if matches!(c, Ordering::Equal) {
            return (i, true);
        }
        if matches!(c, Ordering::Greater) {
            assert forall|j: int| i <= j < n implies bytes_lt(k@, #[trigger] ks[j]) by {
                if j > i {
                    lemma_bytes_lt_transitive(k@, ks[i as int], ks[j]);
                }
            }
            return (i, false);
        }
        i = i + 1;
    }
    (n, false)
}

/// Binds `k` to `v` in the map `m`, whose values are seen through `vf`.
pub(crate) fn insert_entry<V, W>(m: &mut Vec<(Vec<u8>, V)>, k: Vec<u8>, v: V, Ghost(vf): Ghost<spec_fn(V) -> W>)
    requires
        strictly_sorted(old(m)@.map_values(|e: (Vec<u8>, V)| e.0@)),
    ensures
        final(m)@.map_values(|e: (Vec<u8>, V)| (e.0@, vf(e.1))) == map_insert(
            old(m)@.map_values(|e: (Vec<u8>, V)| (e.0@, vf(e.1))),
            k@,
            vf(v),
        ),
        strictly_sorted(final(m)@.map_values(|e: (Vec<u8>, V)| e.0@)),
{
    let ghost old_m = m@;
    let ghost mv = old_m.map_values(|e: (Vec<u8>, V)| (e.0@, vf(e.1)));
    let ghost ks = old_m.map_values(|e: (Vec<u8>, V)| e.0@);
    let (i, found) = find_key(m, k.as_slice());
    proof {
        assert(keys_of(mv) =~= ks);
        lemma_map_insert_at(mv, k@, vf(v), i as int, found);
    }
    let ghost kv = k@;
    let ghost w = vf(v);
    if found {
        m.set(i, (k, v));
        assert(m@.map_values(|e: (Vec<u8>, V)| (e.0@, vf(e.1))) =~= mv.update(i as int, (kv, w)));
        assert(m@.map_values(|e: (Vec<u8>, V)| e.0@) =~= ks);
    } else {
        m.insert(i, (k, v));
        assert(m@.map_values(|e: (Vec<u8>, V)| (e.0@, vf(e.1))) =~= mv.insert(i as int, (kv, w)));
        assert(m@.map_values(|e: (Vec<u8>, V)| e.0@) =~= ks.insert(i as int, kv));
        proof {
            lemma_insert_sorted(ks, kv, i as int);
        }
    }
}

/// Adds `k` to the set `s`.
pub(crate) fn insert_member(s: &mut Vec<Vec<u8>>, k: Vec<u8>)
    requires
        strictly_sorted(old(s)@.map_values(|e: Vec<u8>| e@)),
    ensures
        final(s)@.map_values(|e: Vec<u8>| e@) == set_insert(old(s)@.map_values(|e: Vec<u8>| e@), k@),
        strictly_sorted(final(s)@.map_values(|e: Vec<u8>| e@)),
{
    let ghost ks = s@.map_values(|e: Vec<u8>| e@);
    let (i, found) = find_member(s, k.as_slice());
    proof {
        lemma_set_insert_at(ks, k@, i as int, found);
    }
    if !found {
        let ghost kv = k@;
        s.insert(i, k);
        assert(s@.map_values(|e: Vec<u8>| e@) =~= ks.insert(i as int, kv));
        proof {
            lemma_insert_sorted(ks, kv, i as int);
        }
    }
}

} // verus!
