//! The contents of files, by path: what the diff engine reads referenced
//! sources and input derivations from. A path that is not in the store is not
//! available.

use crate::bytes::lemma_bytes_lt_irreflexive;
use crate::sorted::{find_key, insert_entry, is_slot, map_insert};
use crate::types::{env_view, keys_of, strictly_sorted};
use vstd::prelude::*;
use vstd::seq_lib::seq_to_set_is_finite;

verus! {

/// The value bound to `k` in the map `m`: that of its first entry with key `k`.
pub open spec fn lookup<W>(m: Seq<(Seq<u8>, W)>, k: Seq<u8>) -> Option<W>
    decreases m.len(),
{
    if m.len() == 0 {
        None
    } else if m[0].0 == k {
        Some(m[0].1)
    } else {
        lookup(m.drop_first(), k)
    }
}

pub proof fn lemma_lookup_slot<W>(m: Seq<(Seq<u8>, W)>, k: Seq<u8>, at: int, found: bool)
    requires
        is_slot(keys_of(m), k, at, found),
    ensures
        lookup(m, k) == if found {
            Some(m[at].1)
        } else {
            None
        },
    decreases m.len(),
{
    lemma_bytes_lt_irreflexive(k);
    if m.len() > 0 {
        let t = m.drop_first();
        assert(keys_of(t) =~= keys_of(m).drop_first());
        if at > 0 {
            assert(crate::bytes::bytes_lt(keys_of(m)[0], k));
            lemma_lookup_slot(t, k, at - 1, found);
        } else if !found {
            assert(crate::bytes::bytes_lt(k, keys_of(m)[0]));
            lemma_lookup_slot(t, k, 0, false);
        } else {
            assert(keys_of(m)[0] == k);
        }
    }
}

proof fn lemma_lookup_in_keys<W>(m: Seq<(Seq<u8>, W)>, k: Seq<u8>)
    ensures
        keys_of(m).to_set().finite(),
        lookup(m, k) is Some ==> keys_of(m).contains(k),
    decreases m.len(),
{
    broadcast use seq_to_set_is_finite;
    if m.len() > 0 && m[0].0 != k {
        lemma_lookup_in_keys(m.drop_first(), k);
        assert(keys_of(m.drop_first()) =~= keys_of(m).drop_first());
        if lookup(m, k) is Some {
            let i = choose|i: int| 0 <= i < keys_of(m).drop_first().len() && keys_of(m).drop_first()[i] == k;
            assert(keys_of(m)[i + 1] == k);
        }
    } else if m.len() > 0 {
        assert(keys_of(m)[0] == k);
    }
}

/// File contents by path, in ascending order of path.
pub struct FileStore {
    entries: Vec<(Vec<u8>, Vec<u8>)>,
}

impl View for FileStore {
    type V = Seq<(Seq<u8>, Seq<u8>)>;

    closed spec fn view(&self) -> Seq<(Seq<u8>, Seq<u8>)> {
        env_view(self.entries@)
    }
}

impl FileStore {
    /// The paths are unique and ascending.
    #[verifier::type_invariant]
    closed spec fn inv(&self) -> bool {
        strictly_sorted(keys_of(self@))
    }


    /// The paths that hold contents.
    pub closed spec fn paths(&self) -> Set<Seq<u8>> {
        keys_of(self@).to_set()
    }

    pub proof fn lemma_paths(&self, p: Seq<u8>)
        ensures
            self.paths().finite(),
            self.contents(p) is Some ==> self.paths().contains(p),
    {
        lemma_lookup_in_keys(self@, p);
    }

    /// The contents stored under `path`.
    pub open spec fn contents(&self, path: Seq<u8>) -> Option<Seq<u8>> {
        lookup(self@, path)
    }

    /// An empty store: no file is available.
    pub fn new() -> (r: FileStore)
        ensures
            r@ == Seq::<(Seq<u8>, Seq<u8>)>::empty(),
    {
        let r = FileStore { entries: Vec::new() };
        assert(r@ =~= Seq::<(Seq<u8>, Seq<u8>)>::empty());
        assert(keys_of(r@) =~= Seq::<Seq<u8>>::empty());
        r
    }

    /// Stores `contents` under `path`, replacing what was there.
    pub fn insert(&mut self, path: Vec<u8>, contents: Vec<u8>)
        ensures
            final(self)@ == map_insert(old(self)@, path@, contents@),
    {
        let mut taken = FileStore::new();
        core::mem::swap(self, &mut taken);
        proof {
            use_type_invariant(&taken);
        }
        let ghost before = taken@;
        let FileStore { mut entries } = taken;
        let ghost vf: spec_fn(Vec<u8>) -> Seq<u8> = |x: Vec<u8>| x@;
        assert(entries@.map_values(|e: (Vec<u8>, Vec<u8>)| e.0@) =~= keys_of(before));
        assert(entries@.map_values(|e: (Vec<u8>, Vec<u8>)| (e.0@, vf(e.1))) =~= before);
        insert_entry::<Vec<u8>, Seq<u8>>(&mut entries, path, contents, Ghost(vf));
        assert(entries@.map_values(|e: (Vec<u8>, Vec<u8>)| e.0@) =~= keys_of(env_view(entries@)));
        assert(entries@.map_values(|e: (Vec<u8>, Vec<u8>)| (e.0@, vf(e.1))) =~= env_view(entries@));
        *self = FileStore { entries };
    }

    /// The contents stored under `path`, if any.
    pub fn get(&self, path: &[u8]) -> (r: Option<&Vec<u8>>)
        ensures
            match r {
                Some(c) => self.contents(path@) == Some(c@),
                None => self.contents(path@) is None,
            },
    {
        proof {
            use_type_invariant(self);
        }
        assert(self.entries@.map_values(|e: (Vec<u8>, Vec<u8>)| e.0@) =~= keys_of(self@));
        let (i, found) = find_key(&self.entries, path);
        proof {
            lemma_lookup_slot(self@, path@, i as int, found);
        }
        if found {
            Some(&self.entries[i].1)
        } else {
            None
        }
    }
}

} // verus!
