//! Maps from keys to sets of values, one-directional and bidirectional.

use std::collections::{HashMap, HashSet};
use std::hash::Hash;
use vstd::prelude::*;
use vstd::std_specs::hash::*;
use vstd::std_specs::iter::IteratorSpec;

verus! {

broadcast use vstd::std_specs::hash::group_hash_axioms;

/// `HashMap::get_mut`: a mutable borrow of the value stored under `k`, if
/// there is one. Whatever the borrower leaves behind it is what the map holds
/// under `k` afterwards; no other entry changes.
#[verifier::external_body]
fn slot_mut<'a, K: Hash + Eq, V>(m: &'a mut HashMap<K, V>, k: &K) -> (r: Option<&'a mut V>)
    ensures
        obeys_key_model::<K>() ==> match r {
            Some(slot) => old(m)@.contains_key(*k) && *slot == old(m)@[*k] && final(m)@ == old(
                m,
            )@.insert(*k, *final(slot)),
            None => !old(m)@.contains_key(*k) && final(m)@ == old(m)@,
        },
{
    m.get_mut(k)
}

/// `HashMap::drain`, its pairs collected: the map is left empty and every
/// entry that it held comes out, once.
#[verifier::external_body]
fn drain_entries<K: Hash + Eq, V>(m: &mut HashMap<K, V>) -> (r: Vec<(K, V)>)
    ensures
        final(m)@ == (Map::<K, V>::empty()),
        obeys_key_model::<K>() ==> r@.len() == old(m)@.dom().len(),
        obeys_key_model::<K>() ==> r@.to_set() == old(m)@.kv_pairs(),
{
    m.drain().collect()
}

/// A map from keys to sets of values.
#[derive(Debug, Clone)]
pub struct SetMap<K, V>(HashMap<K, HashSet<V>>) where K: Hash + Eq, V: Hash + Eq;

impl<K: Hash + Eq, V: Hash + Eq> View for SetMap<K, V> {
    type V = Map<K, Set<V>>;

    closed spec fn view(&self) -> Map<K, Set<V>> {
        Map::new(|k: K| self.0@.contains_key(k), |k: K| self.0@[k]@)
    }
}

/// Every value that some key of the map holds.
pub open spec fn all_values<K, V>(m: Map<K, Set<V>>) -> Set<V> {
    Set::new(|v: V| exists|k: K| m.contains_key(k) && #[trigger] m[k].contains(v))
}

/// Whether `v` stands in the set stored under `k`.
pub open spec fn holds<K, V>(m: Map<K, Set<V>>, k: K, v: V) -> bool {
    m.contains_key(k) && m[k].contains(v)
}

/// Whether every key of the map has at least one value.
pub open spec fn no_empty_sets<K, V>(m: Map<K, Set<V>>) -> bool {
    forall|k: K| #[trigger] m.contains_key(k) ==> exists|v: V| m[k].contains(v)
}

/// Whether a clone of a `T` is always the value that was cloned.
pub open spec fn clones_exactly<T: Clone>() -> bool {
    forall|a: T, b: T| #[trigger] cloned(a, b) ==> a == b
}

/// The keys under which `v` stands.
pub open spec fn holders<K, V>(m: Map<K, Set<V>>, v: V) -> Set<K> {
    Set::new(|k: K| holds(m, k, v))
}

/// How often `v` occurs in `r`.
pub open spec fn occurrences<V>(r: Seq<&V>, v: V) -> nat
    decreases r.len(),
{
    if r.len() == 0 {
        0
    } else {
        occurrences(r.drop_last(), v) + if *r.last() == v {
            1nat
        } else {
            0nat
        }
    }
}

/// Under how many of the first `n` of `keys` the value `v` stands.
spec fn hits<K, V>(m: Map<K, Set<V>>, keys: Seq<&K>, n: int, v: V) -> nat
    decreases n,
{
    if n <= 0 {
        0
    } else {
        hits(m, keys, n - 1, v) + if holds(m, *keys[n - 1], v) {
            1nat
        } else {
            0nat
        }
    }
}

/// Those of the first `n` of `keys` under which the value `v` stands.
spec fn found<K, V>(m: Map<K, Set<V>>, keys: Seq<&K>, n: int, v: V) -> Set<K> {
    Set::new(|k: K| holds(m, k, v) && exists|i: int| 0 <= i < n && *(#[trigger] keys[i]) == k)
}

/// What two runs hold together, each holds of it its share.
proof fn lemma_occurrences_add<V>(a: Seq<&V>, b: Seq<&V>, v: V)
    ensures
        occurrences(a + b, v) == occurrences(a, v) + occurrences(b, v),
    decreases b.len(),
{
    if b.len() == 0 {
        assert(a + b =~= a);
    } else {
        lemma_occurrences_add(a, b.drop_last(), v);
        assert((a + b).drop_last() =~= a + b.drop_last());
        assert((a + b).last() == b.last());
    }
}

/// A run without doubles holds a value once or not at all.
proof fn lemma_occurrences_distinct<V>(r: Seq<&V>, v: V)
    requires
        r.no_duplicates(),
    ensures
        occurrences(r, v) == if r.contains(&v) {
            1nat
        } else {
            0nat
        },
    decreases r.len(),
{
    if r.len() > 0 {
        let front = r.drop_last();
        assert forall|i: int, j: int|
            0 <= i < front.len() && 0 <= j < front.len() && i != j implies front[i] != front[j] by {
            assert(front[i] == r[i] && front[j] == r[j]);
        }
        lemma_occurrences_distinct(front, v);
        if front.contains(&v) {
            let i = choose|i: int| 0 <= i < front.len() && front[i] == &v;
            assert(r[i] == &v);
            assert(r[i] != r[r.len() - 1]);
        }
        if r.contains(&v) {
            let i = choose|i: int| 0 <= i < r.len() && r[i] == &v;
            if i < front.len() {
                assert(front[i] == &v);
            }
        }
        if *r.last() == v {
            assert(r[r.len() - 1] == &v);
        }
    }
}

/// A run holds a value if and only if it holds it at least once.
proof fn lemma_occurrences_contains<V>(r: Seq<&V>, v: V)
    ensures
        r.contains(&v) <==> occurrences(r, v) > 0,
    decreases r.len(),
{
    if r.len() > 0 {
        let front = r.drop_last();
        lemma_occurrences_contains(front, v);
        if front.contains(&v) {
            let i = choose|i: int| 0 <= i < front.len() && front[i] == &v;
            assert(r[i] == &v);
        }
        if r.contains(&v) {
            let i = choose|i: int| 0 <= i < r.len() && r[i] == &v;
            if i < front.len() {
                assert(front[i] == &v);
            }
        }
        if *r.last() == v {
            assert(r[r.len() - 1] == &v);
        }
    }
}

/// Among keys without doubles, as many are found as there are hits.
proof fn lemma_hits_count<K, V>(m: Map<K, Set<V>>, keys: Seq<&K>, n: int, v: V)
    requires
        keys.no_duplicates(),
        0 <= n <= keys.len(),
    ensures
        found(m, keys, n, v).finite(),
        found(m, keys, n, v).len() == hits(m, keys, n, v),
    decreases n,
{
    if n == 0 {
        assert(found(m, keys, n, v) =~= Set::<K>::empty());
    } else {
        lemma_hits_count(m, keys, n - 1, v);
        let before = found(m, keys, n - 1, v);
        let key = *keys[n - 1];
        if holds(m, key, v) {
            assert(!before.contains(key)) by {
                if before.contains(key) {
                    let i = choose|i: int| 0 <= i < n - 1 && *(#[trigger] keys[i]) == key;
                    assert(keys[i] == keys[n - 1]);
                }
            }
            assert(found(m, keys, n, v) =~= before.insert(key)) by {
                assert forall|k: K|
                    found(m, keys, n, v).contains(k) <==> before.insert(key).contains(k) by {
                    if found(m, keys, n, v).contains(k) {
                        let i = choose|i: int| 0 <= i < n && *(#[trigger] keys[i]) == k;
                        if i < n - 1 {
                            assert(before.contains(k));
                        }
                    }
                    if before.contains(k) {
                        let i = choose|i: int| 0 <= i < n - 1 && *(#[trigger] keys[i]) == k;
                        assert(0 <= i < n && *keys[i] == k);
                    }
                    if k == key {
                        assert(*keys[n - 1] == k);
                    }
                }
            }
        } else {
            assert(found(m, keys, n, v) =~= before) by {
                assert forall|k: K| found(m, keys, n, v).contains(k) <==> before.contains(k) by {
                    if found(m, keys, n, v).contains(k) {
                        let i = choose|i: int| 0 <= i < n && *(#[trigger] keys[i]) == k;
                        if i < n - 1 {
                            assert(before.contains(k));
                        }
                    }
                    if before.contains(k) {
                        let i = choose|i: int| 0 <= i < n - 1 && *(#[trigger] keys[i]) == k;
                        assert(0 <= i < n && *keys[i] == k);
                    }
                }
            }
        }
    }
}

/// Among all keys of a map, the keys found are all under which the value
/// stands.
proof fn lemma_found_all<K, V>(m: Map<K, Set<V>>, keys: Seq<&K>, v: V)
    requires
        forall|k: K| m.contains_key(k) <==> #[trigger] keys.contains(&k),
    ensures
        found(m, keys, keys.len() as int, v) == holders(m, v),
{
    assert forall|k: K|
        found(m, keys, keys.len() as int, v).contains(k) <==> holders(m, v).contains(k) by {
        if holds(m, k, v) {
            assert(keys.contains(&k));
            let i = choose|i: int| 0 <= i < keys.len() && keys[i] == &k;
            assert(*keys[i] == k);
        }
    }
    assert(found(m, keys, keys.len() as int, v) =~= holders(m, v));
}

/// The set stored under `k` once `v` has been added to it.
pub open spec fn with_value<K, V>(m: Map<K, Set<V>>, k: K, v: V) -> Set<V> {
    if m.contains_key(k) {
        m[k].insert(v)
    } else {
        set![v]
    }
}

/// The map once `v` has been taken out of the set under `k`; a set that this
/// empties leaves the map together with its key.
pub open spec fn without_value<K, V>(m: Map<K, Set<V>>, k: K, v: V) -> Map<K, Set<V>> {
    if !m.contains_key(k) {
        m
    } else if m[k].remove(v).is_empty() {
        m.remove(k)
    } else {
        m.insert(k, m[k].remove(v))
    }
}

/// Adding `v` under `k` adds the pair `(k, v)` to what the map holds and
/// nothing else, and leaves no empty set behind.
pub proof fn lemma_with_value<K, V>(m: Map<K, Set<V>>, k: K, v: V)
    ensures
        forall|k2: K, v2: V| #[trigger]
            holds(m.insert(k, with_value(m, k, v)), k2, v2) <==> holds(m, k2, v2) || (k2 == k
                && v2 == v),
        no_empty_sets(m) ==> no_empty_sets(m.insert(k, with_value(m, k, v))),
{
    let after = m.insert(k, with_value(m, k, v));
    assert(after[k].contains(v));
    if no_empty_sets(m) {
        assert forall|k2: K| #[trigger] after.contains_key(k2) implies exists|v2: V|
            after[k2].contains(v2) by {
            if k2 == k {
                assert(after[k2].contains(v));
            } else {
                assert(m.contains_key(k2));
                let v2 = choose|v2: V| m[k2].contains(v2);
                assert(after[k2].contains(v2));
            }
        }
    }
}

/// Taking `v` out from under `k` takes the pair `(k, v)` out of what the map
/// holds and nothing else, and leaves no empty set behind.
pub proof fn lemma_without_value<K, V>(m: Map<K, Set<V>>, k: K, v: V)
    ensures
        forall|k2: K, v2: V| #[trigger]
            holds(without_value(m, k, v), k2, v2) <==> holds(m, k2, v2) && !(k2 == k && v2
                == v),
        no_empty_sets(m) ==> no_empty_sets(without_value(m, k, v)),
{
    let after = without_value(m, k, v);
    assert forall|k2: K, v2: V| holds(after, k2, v2) <==> holds(m, k2, v2) && !(k2 == k && v2
        == v) by {
        if m.contains_key(k) && m[k].remove(v).is_empty() && k2 == k && m[k].contains(v2) && v2
            != v {
            assert(m[k].remove(v).contains(v2));
        }
    }
    if no_empty_sets(m) {
        assert forall|k2: K| #[trigger] after.contains_key(k2) implies exists|v2: V|
            after[k2].contains(v2) by {
            assert(m.contains_key(k2));
            if k2 == k {
                assert(!m[k].remove(v).is_empty());
                let v2 = choose|v2: V| m[k].remove(v).contains(v2);
                assert(after[k2].contains(v2));
            } else {
                let v2 = choose|v2: V| m[k2].contains(v2);
                assert(after[k2].contains(v2));
            }
        }
    }
}

impl<K: Hash + Eq, V: Hash + Eq> SetMap<K, V> {
    /// An empty map.
    pub fn new() -> (m: Self)
        ensures
            m@ == (Map::<K, Set<V>>::empty()),
    {
        let m = SetMap(HashMap::new());
        assert(m@ =~= Map::<K, Set<V>>::empty());
        m
    }

    /// Adds `v` to the set stored under `k`, creating the set if needed.
    pub fn insert(&mut self, k: K, v: V)
        requires
            obeys_key_model::<K>(),
            obeys_key_model::<V>(),
        ensures
            final(self)@ == old(self)@.insert(k, with_value(old(self)@, k, v)),
    {
        let set = self.0.entry(k).or_insert(HashSet::new());
        set.insert(v);
        assert(self@ =~= old(self)@.insert(k, with_value(old(self)@, k, v)));
    }

    /// Takes `v` out of the set stored under `k` and drops the set if that
    /// empties it. Returns whether `v` was there.
    pub fn remove(&mut self, k: &K, v: &V) -> (removed: bool)
        requires
            obeys_key_model::<K>(),
            obeys_key_model::<V>(),
        ensures
            final(self)@ == without_value(old(self)@, *k, *v),
            removed == (old(self)@.contains_key(*k) && old(self)@[*k].contains(*v)),
    {
        let mut removed = false;
        let mut emptied = false;
        if let Some(set) = slot_mut(&mut self.0, k) {
            removed = set.remove(v);
            emptied = set.is_empty();
        }
        if emptied {
            self.0.remove(k);
        }
        assert(self@ =~= without_value(old(self)@, *k, *v));
        removed
    }

    /// The set stored under `k`, if any.
    pub fn get(&self, k: &K) -> (r: Option<&HashSet<V>>)
        requires
            obeys_key_model::<K>(),
        ensures
            r is Some <==> self@.contains_key(*k),
            r is Some ==> r.unwrap()@ == self@[*k],
    {
        self.0.get(k)
    }

    /// A mutable borrow of the set stored under `k`, if any. What the borrower
    /// leaves in the set is what the map holds under `k` afterwards, an empty
    /// set included.
    pub fn get_mut(&mut self, k: &K) -> (r: Option<&mut HashSet<V>>)
        requires
            obeys_key_model::<K>(),
        ensures
            r is Some <==> old(self)@.contains_key(*k),
            r is Some ==> r.unwrap()@ == old(self)@[*k] && final(self)@ =~= old(self)@.insert(
                *k,
                final(r.unwrap())@,
            ),
            r is None ==> final(self)@ =~= old(self)@,
    {
        slot_mut(&mut self.0, k)
    }

    /// The keys, each once, in the order in which the table yields them.
    pub fn keys(&self) -> (r: Vec<&K>)
        requires
            obeys_key_model::<K>(),
        ensures
            r@.no_duplicates(),
            r@.len() == self@.dom().len(),
            forall|k: K| self@.contains_key(k) <==> #[trigger] r@.contains(&k),
    {
        let mut r: Vec<&K> = Vec::new();
        let ghost all = self.0.keys().remaining();
        for k in iter: self.0.keys()
            invariant
                iter.seq() == all,
                r@ == all.subrange(0, iter.index()),
        {
            r.push(k);
        }
        assert(r@ == all);
        assert(self@.dom() =~= self.0@.dom());
        assert forall|k: K| self@.contains_key(k) <==> #[trigger] r@.contains(&k) by {
            if self@.contains_key(k) {
                assert(all.unref().to_set().contains(k));
                let i = choose|i: int| 0 <= i < all.unref().len() && all.unref()[i] == k;
                assert(r@[i] == &k);
            }
            if r@.contains(&k) {
                let i = choose|i: int| 0 <= i < r@.len() && r@[i] == &k;
                assert(all.unref()[i] == k);
                assert(all.unref().to_set().contains(k));
            }
        }
        r
    }

    /// Every value of every set, in the order in which the tables yield them.
    /// A value that stands under several keys comes out once for each.
    pub fn values(&self) -> (r: Vec<&V>)
        requires
            obeys_key_model::<K>(),
            obeys_key_model::<V>(),
        ensures
            forall|v: V| #[trigger] occurrences(r@, v) == holders(self@, v).len(),
            forall|v: V| all_values(self@).contains(v) <==> #[trigger] r@.contains(&v),
    {
        let mut r: Vec<&V> = Vec::new();
        let keys = self.keys();
        let mut n: usize = 0;
        while n < keys.len()
            invariant
                n <= keys.len(),
                obeys_key_model::<K>(),
                obeys_key_model::<V>(),
                forall|k: K| self@.contains_key(k) <==> #[trigger] keys@.contains(&k),
                forall|v: V| #[trigger] occurrences(r@, v) == hits(self@, keys@, n as int, v),
            decreases keys.len() - n,
        {
            let key = keys[n];
            assert(keys@.contains(&*key));
            let ghost before = r@;
            match self.0.get(key) {
                Some(set) => {
                    let ghost items = set.iter().remaining();
                    for v in inner: set.iter()
                        invariant
                            inner.seq() == items,
                            r@ == before + items.subrange(0, inner.index()),
                    {
                        r.push(v);
                    }
                    proof {
                        assert(r@ == before + items);
                        assert(items.unref().to_set() == set@);
                        assert(items.no_duplicates());
                        assert forall|v: V| #[trigger]
                            occurrences(r@, v) == hits(self@, keys@, n + 1, v) by {
                            lemma_occurrences_add(before, items, v);
                            lemma_occurrences_distinct(items, v);
                            assert(occurrences(before, v) == hits(self@, keys@, n as int, v));
                            if items.contains(&v) {
                                let i = choose|i: int| 0 <= i < items.len() && items[i] == &v;
                                assert(items.unref()[i] == v);
                                assert(items.unref().to_set().contains(v));
                            }
                            if set@.contains(v) {
                                assert(items.unref().to_set().contains(v));
                                let i = choose|i: int|
                                    0 <= i < items.unref().len() && items.unref()[i] == v;
                                assert(items[i] == &v);
                            }
                        }
                    }
                },
                None => {},
            }
            n = n + 1;
        }
        proof {
            assert forall|v: V| #[trigger] occurrences(r@, v) == holders(self@, v).len() by {
                assert(occurrences(r@, v) == hits(self@, keys@, keys@.len() as int, v));
                lemma_hits_count(self@, keys@, keys@.len() as int, v);
                lemma_found_all(self@, keys@, v);
            }
            assert forall|v: V| all_values(self@).contains(v) <==> #[trigger] r@.contains(&v) by {
                lemma_occurrences_contains(r@, v);
                assert(occurrences(r@, v) == holders(self@, v).len());
                lemma_hits_count(self@, keys@, keys@.len() as int, v);
                lemma_found_all(self@, keys@, v);
                if all_values(self@).contains(v) {
                    let k = choose|k: K| self@.contains_key(k) && #[trigger] self@[k].contains(v);
                    assert(holders(self@, v).contains(k));
                }
                if holders(self@, v).len() > 0 {
                    let k = holders(self@, v).choose();
                    assert(holders(self@, v).contains(k));
                    assert(holds(self@, k, v));
                }
            }
        }
        r
    }

    /// Empties the map and hands out what it held: every key once, with its
    /// set.
    pub fn drain(&mut self) -> (r: Vec<(K, HashSet<V>)>)
        requires
            obeys_key_model::<K>(),
        ensures
            final(self)@ == (Map::<K, Set<V>>::empty()),
            r@.len() == old(self)@.dom().len(),
            forall|i: int|
                0 <= i < r@.len() ==> old(self)@.contains_key((#[trigger] r@[i]).0) && old(
                    self,
                )@[r@[i].0] == r@[i].1@,
            forall|k: K|
                old(self)@.contains_key(k) ==> exists|i: int|
                    0 <= i < r@.len() && (#[trigger] r@[i]).0 == k,
    {
        let r = drain_entries(&mut self.0);
        proof {
            assert(self@ =~= Map::<K, Set<V>>::empty());
            assert(old(self)@.dom() =~= old(self).0@.dom());
            assert forall|i: int| 0 <= i < r@.len() implies old(self)@.contains_key(
                (#[trigger] r@[i]).0,
            ) && old(self)@[r@[i].0] == r@[i].1@ by {
                assert(r@.to_set().contains(r@[i]));
                assert(old(self).0@.kv_pairs().contains(r@[i]));
            }
            assert forall|k: K| old(self)@.contains_key(k) implies exists|i: int|
                0 <= i < r@.len() && (#[trigger] r@[i]).0 == k by {
                let pair = (k, old(self).0@[k]);
                assert(old(self).0@.kv_pairs().contains(pair));
                assert(r@.to_set().contains(pair));
                let i = choose|i: int| 0 <= i < r@.len() && r@[i] == pair;
                assert(r@[i].0 == k);
            }
        }
        r
    }

    /// Whether the map holds no key at all.
    pub fn is_empty(&self) -> (b: bool)
        ensures
            b == self@.dom().is_empty(),
    {
        let b = self.0.is_empty();
        assert(self@.dom() =~= self.0@.dom());
        b
    }

    /// Drops every key.
    pub fn clear(&mut self)
        ensures
            final(self)@ == (Map::<K, Set<V>>::empty()),
    {
        self.0.clear();
        assert(self@ =~= Map::<K, Set<V>>::empty());
    }
}

impl<K: Hash + Eq, V: Hash + Eq> Default for SetMap<K, V> {
    fn default() -> (m: Self)
        ensures
            m@ == (Map::<K, Set<V>>::empty()),
    {
        SetMap::new()
    }
}

/// The pairs of a relation whose key is not `k`.
pub open spec fn without_key<K, V>(pairs: Set<(K, V)>, k: K) -> Set<(K, V)> {
    Set::new(|p: (K, V)| pairs.contains(p) && p.0 != k)
}

/// The pairs of a relation whose value is not `v`.
pub open spec fn without_all_of<K, V>(pairs: Set<(K, V)>, v: V) -> Set<(K, V)> {
    Set::new(|p: (K, V)| pairs.contains(p) && p.1 != v)
}

/// A relation between keys and values that can be read from either side.
#[derive(Debug)]
pub struct BidirectionalSetMap<K, V> where K: Hash + Eq + Clone, V: Hash + Eq + Clone {
    by_key: SetMap<K, V>,
    by_value: SetMap<V, K>,
}

impl<K: Hash + Eq + Clone, V: Hash + Eq + Clone> View for BidirectionalSetMap<K, V> {
    type V = Set<(K, V)>;

    /// The pairs that the relation holds.
    closed spec fn view(&self) -> Set<(K, V)> {
        Set::new(|p: (K, V)| holds(self.by_key@, p.0, p.1))
    }
}

impl<K: Hash + Eq + Clone, V: Hash + Eq + Clone> BidirectionalSetMap<K, V> {
    /// The two directions hold the same pairs, and neither keeps an empty set.
    pub closed spec fn wf(&self) -> bool {
        &&& obeys_key_model::<K>()
        &&& obeys_key_model::<V>()
        &&& no_empty_sets(self.by_key@)
        &&& no_empty_sets(self.by_value@)
        &&& forall|k: K, v: V|
            #![trigger holds(self.by_key@, k, v)]
            #![trigger holds(self.by_value@, v, k)]
            holds(self.by_key@, k, v) <==> holds(self.by_value@, v, k)
    }

    /// The pairs that the relation holds, as the side of the values has
    /// them: each with its value first.
    pub closed spec fn inverse(&self) -> Set<(V, K)> {
        Set::new(|p: (V, K)| holds(self.by_value@, p.0, p.1))
    }

    /// Both sides of a consistent relation hold the same pairs.
    pub proof fn lemma_sides_agree(&self)
        requires
            self.wf(),
        ensures
            forall|k: K, v: V|
                #![trigger self@.contains((k, v))]
                #![trigger self.inverse().contains((v, k))]
                self@.contains((k, v)) <==> self.inverse().contains((v, k)),
    {
        assert forall|k: K, v: V|
            #![trigger self@.contains((k, v))]
            #![trigger self.inverse().contains((v, k))]
            self@.contains((k, v)) <==> self.inverse().contains((v, k)) by {
            assert(holds(self.by_key@, k, v) <==> holds(self.by_value@, v, k));
        }
    }

    /// The values related to `k`.
    pub open spec fn values_of(&self, k: K) -> Set<V> {
        Set::new(|v: V| self@.contains((k, v)))
    }

    /// The keys related to `v`.
    pub open spec fn keys_of(&self, v: V) -> Set<K> {
        Set::new(|k: K| self@.contains((k, v)))
    }

    /// An empty relation.
    pub fn new() -> (m: Self)
        requires
            obeys_key_model::<K>(),
            obeys_key_model::<V>(),
        ensures
            m.wf(),
            m@ == Set::<(K, V)>::empty(),
    {
        let m = BidirectionalSetMap { by_key: SetMap::new(), by_value: SetMap::new() };
        assert(m@ =~= Set::<(K, V)>::empty());
        m
    }

    /// Relates `k` and `v`.
    pub fn insert(&mut self, k: K, v: V)
        requires
            old(self).wf(),
            clones_exactly::<K>(),
            clones_exactly::<V>(),
        ensures
            final(self).wf(),
            final(self)@ == old(self)@.insert((k, v)),
    {
        let k2 = k.clone();
        let v2 = v.clone();
        assert(cloned(k, k2) && cloned(v, v2));
        self.by_key.insert(k2, v2);
        self.by_value.insert(v, k);
        proof {
            lemma_with_value(old(self).by_key@, k, v);
            lemma_with_value(old(self).by_value@, v, k);
            assert(self@ =~= old(self)@.insert((k, v)));
        }
    }

    /// The values related to `k`, if there is any.
    pub fn get_by_key(&self, k: &K) -> (r: Option<&HashSet<V>>)
        requires
            self.wf(),
        ensures
            r is Some <==> exists|v: V| self@.contains((*k, v)),
            r is Some ==> r.unwrap()@ == self.values_of(*k),
    {
        let r = self.by_key.get(k);
        proof {
            if r is Some {
                assert(r.unwrap()@ =~= self.values_of(*k));
                let v = choose|v: V| self.by_key@[*k].contains(v);
                assert(self@.contains((*k, v)));
            }
        }
        r
    }

    /// The keys related to `v`, if there is any.
    pub fn get_by_value(&self, v: &V) -> (r: Option<&HashSet<K>>)
        requires
            self.wf(),
        ensures
            r is Some <==> exists|k: K| self@.contains((k, *v)),
            r is Some ==> r.unwrap()@ == self.keys_of(*v),
    {
        let r = self.by_value.get(v);
        proof {
            if r is Some {
                assert(r.unwrap()@ =~= self.keys_of(*v));
                let k = choose|k: K| self.by_value@[*v].contains(k);
                assert(holds(self.by_value@, *v, k));
                assert(self@.contains((k, *v)));
            }
            if exists|k: K| self@.contains((k, *v)) {
                let k = choose|k: K| self@.contains((k, *v));
                assert(holds(self.by_value@, *v, k));
            }
        }
        r
    }

    /// Unrelates `k` from every value.
    pub fn remove_by_key(&mut self, k: &K)
        requires
            old(self).wf(),
        ensures
            final(self).wf(),
            final(self)@ == without_key(old(self)@, *k),
    {
        let ghost by_key0 = self.by_key@;
        let ghost by_value0 = self.by_value@;
        if let Some(set) = self.by_key.0.remove(k) {
            let ghost vs = set.iter().remaining();
            for v in iter: set.iter()
                invariant
                    obeys_key_model::<K>(),
                    obeys_key_model::<V>(),
                    iter.seq() == vs,
                    no_empty_sets(self.by_value@),
                    self.by_key@ == by_key0.remove(*k),
                    forall|v2: V, k2: K| #[trigger]
                        holds(self.by_value@, v2, k2) <==> holds(by_value0, v2, k2) && !(k2 == *k
                            && exists|i: int| 0 <= i < iter.index() && *(#[trigger] vs[i]) == v2),
            {
                proof {
                    lemma_without_value(self.by_value@, *v, *k);
                }
                self.by_value.remove(v, k);
            }
            proof {
                assert(vs.unref().to_set() == set@);
                assert(set@ == by_key0[*k]);
                assert forall|k2: K, v2: V|
                    holds(self.by_key@, k2, v2) <==> holds(self.by_value@, v2, k2) by {
                    if k2 == *k && holds(by_value0, v2, k2) {
                        assert(holds(by_key0, k2, v2));
                        assert(vs.unref().to_set().contains(v2));
                        let i = choose|i: int| 0 <= i < vs.unref().len() && vs.unref()[i] == v2;
                        assert(*vs[i] == v2);
                    }
                    assert(holds(by_key0, k2, v2) <==> holds(by_value0, v2, k2));
                }
            }
        }
        proof {
            assert(self.by_key@ =~= by_key0.remove(*k));
            assert forall|k2: K| #[trigger] self.by_key@.contains_key(k2) implies exists|v2: V|
                self.by_key@[k2].contains(v2) by {
                assert(by_key0.contains_key(k2));
                let v2 = choose|v2: V| by_key0[k2].contains(v2);
                assert(self.by_key@[k2].contains(v2));
            }
            assert(self@ =~= without_key(old(self)@, *k));
        }
    }

    /// Unrelates `v` from every key.
    pub fn remove_by_value(&mut self, v: &V)
        requires
            old(self).wf(),
        ensures
            final(self).wf(),
            final(self)@ == without_all_of(old(self)@, *v),
    {
        let ghost by_key0 = self.by_key@;
        let ghost by_value0 = self.by_value@;
        if let Some(set) = self.by_value.0.remove(v) {
            let ghost ks = set.iter().remaining();
            for k in iter: set.iter()
                invariant
                    obeys_key_model::<K>(),
                    obeys_key_model::<V>(),
                    iter.seq() == ks,
                    no_empty_sets(self.by_key@),
                    self.by_value@ == by_value0.remove(*v),
                    forall|k2: K, v2: V| #[trigger]
                        holds(self.by_key@, k2, v2) <==> holds(by_key0, k2, v2) && !(v2 == *v
                            && exists|i: int| 0 <= i < iter.index() && *(#[trigger] ks[i]) == k2),
            {
                proof {
                    lemma_without_value(self.by_key@, *k, *v);
                }
                self.by_key.remove(k, v);
            }
            proof {
                assert(ks.unref().to_set() == set@);
                assert(set@ == by_value0[*v]);
                assert forall|k2: K, v2: V|
                    holds(self.by_key@, k2, v2) <==> holds(self.by_value@, v2, k2) by {
                    if v2 == *v && holds(by_key0, k2, v2) {
                        assert(holds(by_value0, v2, k2));
                        assert(ks.unref().to_set().contains(k2));
                        let i = choose|i: int| 0 <= i < ks.unref().len() && ks.unref()[i] == k2;
                        assert(*ks[i] == k2);
                    }
                    assert(holds(by_key0, k2, v2) <==> holds(by_value0, v2, k2));
                }
            }
        }
        proof {
            assert(self.by_value@ =~= by_value0.remove(*v));
            assert forall|v2: V| #[trigger] self.by_value@.contains_key(v2) implies exists|k2: K|
                self.by_value@[v2].contains(k2) by {
                assert(by_value0.contains_key(v2));
                let k2 = choose|k2: K| by_value0[v2].contains(k2);
                assert(self.by_value@[v2].contains(k2));
            }
            assert(self@ =~= without_all_of(old(self)@, *v));
        }
    }

    /// Unrelates `k` and `v`.
    pub fn remove_by_key_value(&mut self, k: &K, v: &V)
        requires
            old(self).wf(),
        ensures
            final(self).wf(),
            final(self)@ == old(self)@.remove((*k, *v)),
    {
        if self.by_key.remove(k, v) {
            self.by_value.remove(v, k);
        }
        proof {
            lemma_without_value(old(self).by_key@, *k, *v);
            lemma_without_value(old(self).by_value@, *v, *k);
            assert(self@ =~= old(self)@.remove((*k, *v)));
        }
    }
}

impl<K: Hash + Eq + Clone, V: Hash + Eq + Clone> Default for BidirectionalSetMap<K, V> {
    fn default() -> (m: Self)
        ensures
            obeys_key_model::<K>() && obeys_key_model::<V>() ==> m.wf(),
            m@ == Set::<(K, V)>::empty(),
    {
        let m = BidirectionalSetMap { by_key: SetMap::new(), by_value: SetMap::new() };
        assert(m@ =~= Set::<(K, V)>::empty());
        m
    }
}

} // verus!
