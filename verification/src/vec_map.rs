//! A small association list with unique keys that keeps insertion order.

use vstd::prelude::*;

verus! {

/// Keys whose equality can be decided at run time.
pub trait Key: Sized {
    fn same(&self, other: &Self) -> (b: bool)
        ensures
            b == (*self == *other),
    ;
}

impl Key for usize {
    fn same(&self, other: &usize) -> (b: bool) {
        *self == *other
    }
}

impl Key for (usize, usize) {
    fn same(&self, other: &(usize, usize)) -> (b: bool) {
        self.0 == other.0 && self.1 == other.1
    }
}

impl Key for (usize, usize, usize) {
    fn same(&self, other: &(usize, usize, usize)) -> (b: bool) {
        self.0 == other.0 && self.1 == other.1 && self.2 == other.2
    }
}

/// A map from `K` to `V`, held as a list of entries in the order in which
/// their keys were first inserted.
pub struct VecMap<K, V> {
    entries: Vec<(K, V)>,
}

impl<K: Key + Copy, V> VecMap<K, V> {
    /// The keys in insertion order.
    pub closed spec fn keys(&self) -> Seq<K> {
        Seq::new(self.entries@.len(), |i: int| self.entries@[i].0)
    }

    /// The values, each at the position of its key.
    pub closed spec fn vals(&self) -> Seq<V> {
        Seq::new(self.entries@.len(), |i: int| self.entries@[i].1)
    }

    /// No key occurs twice.
    pub closed spec fn wf(&self) -> bool {
        self.keys().no_duplicates()
    }

    /// The map that the entries stand for.
    pub closed spec fn map(&self) -> Map<K, V> {
        Map::new(|k: K| self.keys().contains(k), |k: K| self.vals()[self.keys().index_of(k)])
    }

    /// How the ordered entries and the map relate.
    pub proof fn lemma_entries(&self)
        requires
            self.wf(),
        ensures
            self.keys().len() == self.vals().len(),
            self.keys().no_duplicates(),
            self.map().dom() == self.keys().to_set(),
            self.map().dom().finite(),
            forall|i: int|
                0 <= i < self.keys().len() ==> self.map().dom().contains(#[trigger] self.keys()[i])
                    && self.map()[self.keys()[i]] == self.vals()[i],
            forall|k: K| #[trigger]
                self.map().dom().contains(k) ==> self.keys().contains(k) && 0
                    <= self.keys().index_of(k) < self.keys().len() && self.keys()[self.keys().index_of(
                    k,
                )] == k,
    {
        let keys = self.keys();
        assert(self.map().dom() =~= keys.to_set());
        vstd::seq_lib::seq_to_set_is_finite(keys);
        assert forall|i: int| 0 <= i < keys.len() implies self.map().dom().contains(
            #[trigger] keys[i],
        ) && self.map()[keys[i]] == self.vals()[i] by {
            assert(keys.contains(keys[i]));
            let j = keys.index_of(keys[i]);
            assert(0 <= j < keys.len() && keys[j] == keys[i]);
        }
    }

    pub fn new() -> (m: VecMap<K, V>)
        ensures
            m.wf(),
            m.keys() == Seq::<K>::empty(),
            m.map() == Map::<K, V>::empty(),
    {
        let m = VecMap { entries: Vec::new() };
        assert(m.keys() =~= Seq::<K>::empty());
        assert(m.map() =~= Map::<K, V>::empty());
        m
    }

    pub fn len(&self) -> (n: usize)
        ensures
            n == self.keys().len(),
            n == self.vals().len(),
    {
        self.entries.len()
    }

    pub fn key_at(&self, i: usize) -> (k: K)
        requires
            i < self.keys().len(),
        ensures
            k == self.keys()[i as int],
    {
        self.entries[i].0
    }

    pub fn value_at(&self, i: usize) -> (v: &V)
        requires
            i < self.keys().len(),
        ensures
            *v == self.vals()[i as int],
    {
        &self.entries[i].1
    }

    /// The position of `key`, if it is present.
    pub fn position(&self, key: &K) -> (r: Option<usize>)
        ensures
            match r {
                Some(i) => i < self.keys().len() && self.keys()[i as int] == *key,
                None => !self.keys().contains(*key),
            },
    {
        let mut i: usize = 0;
        while i < self.entries.len()
            invariant
                i <= self.entries.len(),
                forall|j: int| 0 <= j < i ==> self.keys()[j] != *key,
            decreases self.entries.len() - i,
        {
            if self.entries[i].0.same(key) {
                return Some(i);
            }
            i += 1;
        }
        None
    }

    pub fn contains_key(&self, key: &K) -> (b: bool)
        ensures
            b == self.map().dom().contains(*key),
    {
        self.position(key).is_some()
    }

    pub fn get(&self, key: &K) -> (r: Option<&V>)
        requires
            self.wf(),
        ensures
            match r {
                Some(v) => self.map().dom().contains(*key) && *v == self.map()[*key],
                None => !self.map().dom().contains(*key),
            },
    {
        match self.position(key) {
            Some(i) => {
                proof {
                    self.lemma_entries();
                }
                Some(&self.entries[i].1)
            },
            None => None,
        }
    }

    /// Binds `key` to `value`. A key that is present keeps its position.
    pub fn insert(&mut self, key: K, value: V)
        requires
            old(self).wf(),
        ensures
            final(self).wf(),
            final(self).map() == old(self).map().insert(key, value),
            old(self).map().dom().contains(key) ==> final(self).keys() == old(self).keys(),
            !old(self).map().dom().contains(key) ==> final(self).keys() == old(self).keys().push(
                key,
            ),
    {
        let ghost before = *self;
        proof {
            before.lemma_entries();
        }
        match self.position(&key) {
            Some(i) => {
                self.entries.remove(i);
                self.entries.insert(i, (key, value));
                proof {
                    assert(self.keys() =~= before.keys());
                    assert(self.vals() =~= before.vals().update(i as int, value));
                    self.lemma_entries();
                    assert forall|k: K| self.map().dom().contains(k) implies #[trigger] self.map()[k]
                        == before.map().insert(key, value)[k] by {
                        let j = self.keys().index_of(k);
                        assert(self.keys()[j] == k);
                        if j != i {
                            assert(before.keys()[j] == k);
                        }
                    }
                    assert(self.map() =~= before.map().insert(key, value));
                }
            },
            None => {
                self.entries.push((key, value));
                proof {
                    assert(self.keys() =~= before.keys().push(key));
                    assert(self.vals() =~= before.vals().push(value));
                    crate::seq_facts::lemma_push_fresh(before.keys(), key);
                    self.lemma_entries();
                    assert forall|k: K| self.map().dom().contains(k) implies #[trigger] self.map()[k]
                        == before.map().insert(key, value)[k] by {
                        let j = self.keys().index_of(k);
                        assert(self.keys()[j] == k);
                        if j < before.keys().len() {
                            assert(before.keys()[j] == k);
                        }
                    }
                    assert(self.map() =~= before.map().insert(key, value));
                }
            },
        }
    }

    /// Removes `key` and its value. The other keys keep their order.
    pub fn remove(&mut self, key: &K)
        requires
            old(self).wf(),
        ensures
            final(self).wf(),
            final(self).map() == old(self).map().remove(*key),
            !old(self).map().dom().contains(*key) ==> final(self).keys() == old(self).keys(),
            old(self).map().dom().contains(*key) ==> final(self).keys() == old(self).keys().remove(
                old(self).keys().index_of(*key),
            ),
    {
        let ghost before = *self;
        proof {
            before.lemma_entries();
        }
        match self.position(key) {
            Some(i) => {
                self.entries.remove(i);
                proof {
                    assert(before.keys().index_of(*key) == i) by {
                        let j = before.keys().index_of(*key);
                        assert(before.keys()[j] == *key);
                    }
                    assert(self.keys() =~= before.keys().remove(i as int));
                    assert(self.vals() =~= before.vals().remove(i as int));
                    crate::seq_facts::lemma_remove_at(before.keys(), i as int);
                    self.lemma_entries();
                    assert forall|k: K| self.map().dom().contains(k) implies #[trigger] self.map()[k]
                        == before.map().remove(*key)[k] by {
                        let j = self.keys().index_of(k);
                        assert(self.keys()[j] == k);
                        let bj = if j < i { j } else { j + 1 };
                        assert(before.keys()[bj] == k);
                        assert(self.vals()[j] == before.vals()[bj]);
                    }
                    assert(self.map() =~= before.map().remove(*key));
                }
            },
            None => {
                assert(self.map() =~= before.map().remove(*key));
            },
        }
    }

    /// Replaces the value at position `i`.
    pub fn set_value(&mut self, i: usize, value: V)
        requires
            old(self).wf(),
            i < old(self).keys().len(),
        ensures
            final(self).wf(),
            final(self).keys() == old(self).keys(),
            final(self).vals() == old(self).vals().update(i as int, value),
            final(self).map() == old(self).map().insert(old(self).keys()[i as int], value),
    {
        let _ = self.swap_value(i, value);
    }

    /// Puts `value` at position `i` and hands back what stood there.
    pub fn swap_value(&mut self, i: usize, value: V) -> (previous: V)
        requires
            old(self).wf(),
            i < old(self).keys().len(),
        ensures
            final(self).wf(),
            previous == old(self).vals()[i as int],
            final(self).keys() == old(self).keys(),
            final(self).vals() == old(self).vals().update(i as int, value),
            final(self).map() == old(self).map().insert(old(self).keys()[i as int], value),
    {
        let ghost before = *self;
        proof {
            before.lemma_entries();
        }
        let (k, previous) = self.entries.remove(i);
        self.entries.insert(i, (k, value));
        proof {
            assert(k == before.entries@[i as int].0);
            assert(k == before.keys()[i as int]);
            assert(self.keys() =~= before.keys());
            assert(self.vals() =~= before.vals().update(i as int, value));
            self.lemma_entries();
            assert forall|x: K| self.map().dom().contains(x) implies #[trigger] self.map()[x]
                == before.map().insert(k, value)[x] by {
                let j = self.keys().index_of(x);
                assert(self.keys()[j] == x);
                assert(self.map()[x] == self.vals()[j]);
                if j != i {
                    assert(before.keys()[j] == x);
                    assert(before.map()[x] == before.vals()[j]);
                } else {
                    assert(x == k);
                }
            }
            assert(self.map().dom() =~= before.map().insert(k, value).dom());
            assert(self.map() =~= before.map().insert(k, value));
        }
        previous
    }

    pub fn clear(&mut self)
        ensures
            final(self).wf(),
            final(self).keys() == Seq::<K>::empty(),
            final(self).map() == Map::<K, V>::empty(),
    {
        self.entries.clear();
        assert(self.keys() =~= Seq::<K>::empty());
        assert(self.map() =~= Map::<K, V>::empty());
    }
}

} // verus!
