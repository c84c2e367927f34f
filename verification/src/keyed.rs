//! A map from 64-bit keys to copyable values, held in a std `HashMap`.

use std::collections::HashMap;

use vstd::prelude::*;
use vstd::std_specs::hash::spec_hash_map_iter;
use vstd::std_specs::iter::IteratorSpec;

verus! {

broadcast use vstd::std_specs::hash::group_hash_axioms;

/// Map from `u64` keys to copyable values.
pub struct KeyedMap<V> {
    map: HashMap<u64, V>,
}

impl<V: Copy> KeyedMap<V> {
    /// The map holds finitely many keys.
    pub closed spec fn wf(&self) -> bool {
        self.map@.dom().finite()
    }

    /// The entries as a map.
    pub closed spec fn view(&self) -> Map<u64, V> {
        self.map@
    }

    /// An empty map.
    pub fn new() -> (m: Self)
        ensures
            m.wf(),
            m.view() == Map::<u64, V>::empty(),
    {
        KeyedMap { map: HashMap::new() }
    }

    /// The value stored under `k`, if any.
    pub fn get(&self, k: u64) -> (v: Option<V>)
        requires
            self.wf(),
        ensures
            v == (if self.view().contains_key(k) { Some(self.view()[k]) } else { None::<V> }),
    {
        match self.map.get(&k) {
            Some(v) => Some(*v),
            None => None,
        }
    }

    /// Store `v` under `k`, replacing any earlier value.
    pub fn insert(&mut self, k: u64, v: V)
        requires
            old(self).wf(),
        ensures
            final(self).wf(),
            final(self).view() == old(self).view().insert(k, v),
    {
        self.map.insert(k, v);
    }

    /// Remove the entry under `k`, returning its value.
    pub fn remove(&mut self, k: u64) -> (v: Option<V>)
        requires
            old(self).wf(),
        ensures
            final(self).wf(),
            v == (if old(self).view().contains_key(k) { Some(old(self).view()[k]) } else { None::<V> }),
            final(self).view() == old(self).view().remove(k),
    {
        self.map.remove(&k)
    }

    /// Remove every entry.
    pub fn clear(&mut self)
        ensures
            final(self).wf(),
            final(self).view() == Map::<u64, V>::empty(),
    {
        self.map.clear();
    }

    /// Every entry, once, in the map's iteration order.
    pub fn entries(&self) -> (all: Vec<(u64, V)>)
        requires
            self.wf(),
        ensures
            forall|i: int| 0 <= i < all@.len() ==> #[trigger] self.view().contains_key(all@[i].0)
                && self.view()[all@[i].0] == all@[i].1,
            forall|k: u64| #[trigger] self.view().contains_key(k) ==> exists|i: int| 0 <= i < all@.len() && #[trigger] all@[i].0 == k,
            forall|i: int, j: int| 0 <= i < j < all@.len() ==> all@[i].0 != all@[j].0,
    {
        let m = &self.map;
        let ghost pairs = spec_hash_map_iter(m).remaining();
        let mut all: Vec<(u64, V)> = Vec::new();
        for (k, v) in it: m.iter()
            invariant
                it.seq() == pairs,
                all@.len() == it.index(),
                forall|i: int| 0 <= i < all@.len() ==> #[trigger] all@[i] == (*pairs[i].0, *pairs[i].1),
        {
            all.push((*k, *v));
        }
        proof {
            assert(all@.len() == pairs.len());
            assert forall|i: int| 0 <= i < all@.len() implies #[trigger] self.view().contains_key(all@[i].0)
                && self.view()[all@[i].0] == all@[i].1 by {
                assert(m@.contains_key(*pairs[i].0));
            }
            assert forall|k: u64| #[trigger] self.view().contains_key(k) implies exists|i: int| 0 <= i < all@.len() && #[trigger] all@[i].0 == k by {
                assert(pairs.contains((&k, &m@[k])));
                let i = choose|i: int| 0 <= i < pairs.len() && pairs[i] == (&k, &m@[k]);
                assert(all@[i].0 == k);
            }
            assert forall|i: int, j: int| 0 <= i < j < all@.len() implies all@[i].0 != all@[j].0 by {
                assert(m@.contains_key(*pairs[i].0));
                assert(m@.contains_key(*pairs[j].0));
                if all@[i].0 == all@[j].0 {
                    assert(pairs[i] == pairs[j]);
                }
            }
        }
        all
    }

    /// The number of entries.
    pub fn len(&self) -> (n: usize)
        requires
            self.wf(),
        ensures
            n == self.view().len(),
    {
        self.map.len()
    }
}

} // verus!
