//! Maps keyed by a `u64`.

use std::collections::BTreeMap;

use vstd::prelude::*;

verus! {

broadcast use {vstd::std_specs::btree::group_btree_axioms, vstd::laws_cmp::group_laws_cmp};

/// An ordered map from numbers to values.
#[verifier::reject_recursive_types(V)]
pub struct Table<V> {
    map: BTreeMap<u64, V>,
}

impl<T> View for Table<T> {
    type V = Map<u64, T>;

    closed spec fn view(&self) -> Map<u64, T> {
        self.map@
    }
}

impl<V> Table<V> {
    pub fn new() -> (table: Self)
        ensures
            table@ == Map::<u64, V>::empty(),
    {
        Table { map: BTreeMap::new() }
    }

    pub fn is_empty(&self) -> (result: bool)
        ensures
            result == (self@ == Map::<u64, V>::empty()),
    {
        let result = self.map.is_empty();
        assert(self.map@.len() == 0 ==> self.map@ =~= Map::<u64, V>::empty());
        result
    }

    pub fn contains(&self, key: u64) -> (result: bool)
        ensures
            result == self@.contains_key(key),
    {
        self.map.contains_key(&key)
    }

    pub fn get(&self, key: u64) -> (result: Option<&V>)
        ensures
            match result {
                Some(value) => self@.contains_key(key) && *value == self@[key],
                None => !self@.contains_key(key),
            },
    {
        self.map.get(&key)
    }

    /// Maps `key` to `value`, in place of what it was mapped to before.
    pub fn insert(&mut self, key: u64, value: V)
        ensures
            final(self)@ == old(self)@.insert(key, value),
    {
        self.map.insert(key, value);
    }

    pub fn remove(&mut self, key: u64) -> (result: Option<V>)
        ensures
            final(self)@ == old(self)@.remove(key),
            match result {
                Some(value) => old(self)@.contains_key(key) && value == old(self)@[key],
                None => !old(self)@.contains_key(key),
            },
    {
        self.map.remove(&key)
    }

    pub fn clear(&mut self)
        ensures
            final(self)@ == Map::<u64, V>::empty(),
    {
        self.map.clear();
    }
}

} // verus!
