//! A relation between keys and values that can be read from either side,
//! with the operations that the protocol layer needs: no single pair is ever
//! taken out, only all pairs of a key or of a value.

use crate::set_map::{clones_exactly, without_all_of, without_key, BidirectionalSetMap};
use std::collections::HashSet;
use std::hash::Hash;
use vstd::prelude::*;
use vstd::std_specs::hash::*;

verus! {

/// Maps of K to sets of V and V to sets of K simultaneously.
pub struct DoubleSetMap<K, V> where K: Hash + Eq + Clone, V: Hash + Eq + Clone {
    pairs: BidirectionalSetMap<K, V>,
}

impl<K: Hash + Eq + Clone, V: Hash + Eq + Clone> View for DoubleSetMap<K, V> {
    type V = Set<(K, V)>;

    /// The pairs that the relation holds.
    closed spec fn view(&self) -> Set<(K, V)> {
        self.pairs@
    }
}

impl<K: Hash + Eq + Clone, V: Hash + Eq + Clone> DoubleSetMap<K, V> {
    /// The two directions hold the same pairs, and neither keeps an empty set.
    pub closed spec fn wf(&self) -> bool {
        self.pairs.wf()
    }

    /// The values related to `k`.
    pub open spec fn values_of(&self, k: K) -> Set<V> {
        Set::new(|v: V| self@.contains((k, v)))
    }

    /// The keys related to `v`.
    pub open spec fn keys_of(&self, v: V) -> Set<K> {
        Set::new(|k: K| self@.contains((k, v)))
    }

    /// Relates `k` and `v`.
    pub fn insert(&mut self, k: K, v: V)
        requires
            old(self).wf(),
            clones_exactly::<K>(),
            clones_exactly::<V>(),
        ensures
            final(self).wf(),
            final(self)@ == old(self)@.insert((k, v)),
    {
        self.pairs.insert(k, v);
    }

    /// The values related to `k`, if there is any.
    pub fn get_by_key(&self, k: &K) -> (r: Option<&HashSet<V>>)
        requires
            self.wf(),
        ensures
            r is Some <==> exists|v: V| self@.contains((*k, v)),
            r is Some ==> r.unwrap()@ == self.values_of(*k),
    {
        let r = self.pairs.get_by_key(k);
        proof {
            if r is Some {
                assert(r.unwrap()@ =~= self.values_of(*k));
            }
        }
        r
    }

    /// The keys related to `v`, if there is any.
    pub fn get_by_value(&self, v: &V) -> (r: Option<&HashSet<K>>)
        requires
            self.wf(),
        ensures
            r is Some <==> exists|k: K| self@.contains((k, *v)),
            r is Some ==> r.unwrap()@ == self.keys_of(*v),
    {
        let r = self.pairs.get_by_value(v);
        proof {
            if r is Some {
                assert(r.unwrap()@ =~= self.keys_of(*v));
            }
        }
        r
    }

    /// Unrelates `k` from every value.
    pub fn remove_by_key(&mut self, k: &K)
        requires
            old(self).wf(),
        ensures
            final(self).wf(),
            final(self)@ == without_key(old(self)@, *k),
    {
        self.pairs.remove_by_key(k);
    }

    /// Unrelates `v` from every key.
    pub fn remove_by_value(&mut self, v: &V)
        requires
            old(self).wf(),
        ensures
            final(self).wf(),
            final(self)@ == without_all_of(old(self)@, *v),
    {
        self.pairs.remove_by_value(v);
    }
}

impl<K: Hash + Eq + Clone, V: Hash + Eq + Clone> Default for DoubleSetMap<K, V> {
    fn default() -> (m: Self)
        ensures
            obeys_key_model::<K>() && obeys_key_model::<V>() ==> m.wf(),
            m@ == Set::<(K, V)>::empty(),
    {
        DoubleSetMap { pairs: BidirectionalSetMap::default() }
    }
}

} // verus!
