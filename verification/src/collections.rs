//! A small map kept in two vectors, for the tables of the ledger. Keys are
//! compared one by one, which is enough for a model that is held in memory.

use crate::crypto::keys::{Digest, PublicKey};
use vstd::prelude::*;

verus! {

/// A key of a table: a value that can be compared and copied.
pub trait Key: Sized {
    /// Tells whether two keys are the same.
    fn same(&self, other: &Self) -> (same: bool)
        ensures
            same == (*self == *other),
    ;

    /// Copies the key.
    fn duplicate(&self) -> (copy: Self)
        ensures
            copy == *self,
    ;
}

impl Key for u64 {
    fn same(&self, other: &Self) -> (same: bool) {
        *self == *other
    }

    fn duplicate(&self) -> (copy: Self) {
        *self
    }
}

impl Key for Digest {
    fn same(&self, other: &Self) -> (same: bool) {
        *self == *other
    }

    fn duplicate(&self) -> (copy: Self) {
        *self
    }
}

impl Key for PublicKey {
    fn same(&self, other: &Self) -> (same: bool) {
        *self == *other
    }

    fn duplicate(&self) -> (copy: Self) {
        *self
    }
}

/// The map that a list of distinct keys and the list of their values stand
/// for.
pub open spec fn keyed<K, V>(keys: Seq<K>, values: Seq<V>) -> Map<K, V> {
    Map::new(|key: K| keys.contains(key), |key: K| values[keys.index_of(key)])
}

/// A map from keys to values in which no key occurs twice. Entries keep the
/// order in which their keys were first inserted.
pub struct VecMap<K: Key, V: View> {
    keys: Vec<K>,
    values: Vec<V>,
}

impl<K: Key, V: View> View for VecMap<K, V> {
    type V = Map<K, V::V>;

    closed spec fn view(&self) -> Map<K, V::V> {
        Map::new(
            |key: K| self.keys@.contains(key),
            |key: K| self.values@[self.keys@.index_of(key)]@,
        )
    }
}

impl<K: Key, V: View> VecMap<K, V> {
    /// Number of entries, in contracts.
    pub closed spec fn spec_len(&self) -> nat {
        self.keys@.len()
    }

    /// The key of the entry at a position.
    pub closed spec fn spec_key(&self, i: int) -> K {
        self.keys@[i]
    }

    /// The value of the entry at a position.
    pub closed spec fn spec_value(&self, i: int) -> V {
        self.values@[i]
    }

    /// The keys in the order of their insertion.
    pub closed spec fn spec_keys(&self) -> Seq<K> {
        self.keys@
    }

    /// What the values hold, in the order of their insertion.
    pub closed spec fn spec_views(&self) -> Seq<V::V> {
        Seq::new(self.values@.len(), |i: int| self.values@[i]@)
    }

    /// The map is the one that its keys and the views of its values stand
    /// for.
    pub proof fn lemma_keyed(&self)
        requires
            self.sound(),
        ensures
            self@ == keyed(self.spec_keys(), self.spec_views()),
            self.spec_views().len() == self.spec_len(),
            forall|i: int|
                0 <= i < self.spec_len() ==> #[trigger] self.spec_views()[i] == self.spec_value(i)@,
    {
        assert forall|key: K| self@.contains_key(key) implies #[trigger] self@[key] == keyed(
            self.spec_keys(),
            self.spec_views(),
        )[key] by {
            let i = self.keys@.index_of(key);
            assert(self.keys@[i] == key);
        }
        assert(self@ =~= keyed(self.spec_keys(), self.spec_views()));
    }

    /// Whether the representation is sound: every key has its value, and no
    /// key occurs twice. `new` establishes this and every method keeps it.
    pub closed spec fn sound(&self) -> bool {
        &&& self.keys@.len() == self.values@.len()
        &&& self.keys@.no_duplicates()
    }

    /// How the entries and the map relate.
    pub proof fn lemma_entries(&self)
        requires
            self.sound(),
        ensures
            self.spec_keys().len() == self.spec_len(),
            self.spec_keys().no_duplicates(),
            forall|i: int|
                0 <= i < self.spec_len() ==> #[trigger] self.spec_keys()[i] == self.spec_key(i),
            forall|i: int|
                0 <= i < self.spec_len() ==> self@.contains_key(#[trigger] self.spec_key(i))
                    && self@[self.spec_key(i)] == self.spec_value(i)@,
            forall|key: K| #[trigger]
                self@.contains_key(key) <==> self.spec_keys().contains(key),
            forall|i: int, j: int|
                0 <= i < self.spec_len() && 0 <= j < self.spec_len() && i != j
                    ==> self.spec_key(i) != self.spec_key(j),
    {
        assert forall|i: int| 0 <= i < self.spec_len() implies self@.contains_key(
            #[trigger] self.spec_key(i),
        ) && self@[self.spec_key(i)] == self.spec_value(i)@ by {
            assert(self.keys@[i] == self.spec_key(i));
            assert(self.keys@.contains(self.spec_key(i)));
            let j = self.keys@.index_of(self.spec_key(i));
            assert(self.keys@[j] == self.keys@[i]);
            assert(j == i);
        }
    }

    /// Creates an empty map.
    pub fn new() -> (map: Self)
        ensures
            map@ == Map::<K, V::V>::empty(),
            map.spec_len() == 0,
            map.spec_keys() == Seq::<K>::empty(),
            map.sound(),
    {
        let map = VecMap { keys: Vec::new(), values: Vec::new() };
        assert(map@ =~= Map::<K, V::V>::empty());
        map
    }

    /// Number of entries.
    pub fn len(&self) -> (len: usize)
        ensures
            len == self.spec_len(),
    {
        self.keys.len()
    }

    /// Position of the entry with the given key.
    pub fn index_of(&self, key: &K) -> (position: Option<usize>)
        requires
            self.sound(),
        ensures
            position is Some <==> self@.contains_key(*key),
            position is Some ==> position->0 < self.spec_len() && self.spec_key(position->0 as int)
                == *key,
    {
        let mut i: usize = 0;
        while i < self.keys.len()
            invariant
                i <= self.keys@.len(),
                forall|j: int| 0 <= j < i ==> self.keys@[j] != *key,
            decreases self.keys@.len() - i,
        {
            if self.keys[i].same(key) {
                assert(self.keys@.contains(*key));
                return Some(i);
            }
            i += 1;
        }
        None
    }

    /// The key of the entry at a position.
    pub fn key_at(&self, i: usize) -> (key: K)
        requires
            i < self.spec_len(),
        ensures
            key == self.spec_key(i as int),
    {
        self.keys[i].duplicate()
    }

    /// The value of the entry at a position.
    pub fn value_at(&self, i: usize) -> (value: &V)
        requires
            self.sound(),
            i < self.spec_len(),
        ensures
            *value == self.spec_value(i as int),
            self@.contains_key(self.spec_key(i as int)),
            self@[self.spec_key(i as int)] == value@,
    {
        proof {
            self.lemma_entries();
        }
        &self.values[i]
    }

    /// The value of the entry at a position, to be changed in place.
    pub fn value_mut(&mut self, i: usize) -> (value: &mut V)
        requires
            old(self).sound(),
            i < old(self).spec_len(),
        ensures
            *value == old(self).spec_value(i as int),
            final(self).sound(),
            final(self).spec_keys() == old(self).spec_keys(),
            final(self).spec_len() == old(self).spec_len(),
            final(self).spec_value(i as int) == *final(value),
            forall|j: int|
                0 <= j < old(self).spec_len() && j != i ==> final(self).spec_value(j) == old(
                    self,
                ).spec_value(j),
    {
        &mut self.values[i]
    }

    /// A map whose entry at one position was changed in place is the old map
    /// with the new value under that entry's key.
    pub proof fn lemma_changed_in_place(before: Self, after: Self, i: int)
        requires
            before.sound(),
            after.sound(),
            0 <= i < before.spec_len(),
            after.spec_keys() == before.spec_keys(),
            forall|j: int|
                0 <= j < before.spec_len() && j != i ==> after.spec_value(j) == before.spec_value(
                    j,
                ),
        ensures
            after@ == before@.insert(before.spec_key(i), after.spec_value(i)@),
    {
        let key = before.spec_key(i);
        assert(before.keys@.contains(key));
        assert(before.keys@.index_of(key) == i) by {
            let j = before.keys@.index_of(key);
            assert(before.keys@[j] == before.keys@[i]);
        }
        assert forall|k: K| after@.contains_key(k) implies #[trigger] after@[k] == before@.insert(
            key,
            after.spec_value(i)@,
        )[k] by {
            assert(after.keys@ == before.keys@);
            assert(before.keys@.contains(k));
            let j = before.keys@.index_of(k);
            assert(0 <= j < before.keys@.len() && before.keys@[j] == k);
            if k != key {
                assert(j != i);
                assert(after.spec_value(j) == before.spec_value(j));
                assert(after@[k] == after.values@[j]@);
                assert(before@[k] == before.values@[j]@);
            } else {
                assert(j == i);
                assert(after@[k] == after.values@[i]@);
            }
        }
        assert(after@ =~= before@.insert(key, after.spec_value(i)@));
    }

    /// Adds an entry under a key that the map does not hold yet.
    pub fn push_new(&mut self, key: K, value: V)
        requires
            old(self).sound(),
            !old(self)@.contains_key(key),
        ensures
            final(self).sound(),
            final(self)@ == old(self)@.insert(key, value@),
            final(self).spec_len() == old(self).spec_len() + 1,
            final(self).spec_keys() == old(self).spec_keys().push(key),
            final(self).spec_value(old(self).spec_len() as int) == value,
            forall|j: int|
                0 <= j < old(self).spec_len() ==> final(self).spec_value(j) == old(
                    self,
                ).spec_value(j),
    {
        let ghost before = *self;
        self.keys.push(key);
        self.values.push(value);
        proof {
            assert forall|k: K| #[trigger] self.keys@.contains(k) <==> (before.keys@.contains(k)
                || k == key) by {
                if before.keys@.contains(k) {
                    let j = before.keys@.index_of(k);
                    assert(self.keys@[j] == k);
                }
                if k == key {
                    assert(self.keys@[before.keys@.len() as int] == k);
                }
            }
            assert forall|k: K| before.keys@.contains(k) implies self.keys@.index_of(k)
                == before.keys@.index_of(k) by {
                let j = before.keys@.index_of(k);
                assert(self.keys@[j] == k);
                let j2 = self.keys@.index_of(k);
                assert(self.keys@.contains(k));
                assert(self.keys@[j2] == k);
            }
            assert(self.keys@.index_of(key) == before.keys@.len()) by {
                assert(self.keys@.contains(key));
                let j2 = self.keys@.index_of(key);
                assert(self.keys@[j2] == key);
                if j2 < before.keys@.len() {
                    assert(before.keys@[j2] == key);
                    assert(before.keys@.contains(key));
                }
            }
            assert(self@ =~= before@.insert(key, value@));
        }
    }
}

} // verus!
