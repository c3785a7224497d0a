//! The cache store: what was fetched, by the key that the index knows it by.

use std::collections::HashMap;
use vstd::prelude::*;

use crate::geometry::Point;

verus! {

/// One cached result. It is made when a fetch succeeds and never changed
/// afterwards: a stale entry is removed, not edited.
pub struct CacheEntry<P, M> {
    /// The grid point that the result was fetched for.
    pub point: Point,
    /// The result itself.
    pub payload: P,
    /// What else was resolved with it, such as the name of the place.
    pub metadata: M,
    /// The time, in seconds since the Unix epoch, from which the entry is stale.
    pub expiry: i64,
}

/// A mapping from index key to cache entry.
pub struct CacheStore<P, M> {
    entries: HashMap<u64, CacheEntry<P, M>>,
}

impl<P, M> View for CacheStore<P, M> {
    type V = Map<u64, CacheEntry<P, M>>;

    closed spec fn view(&self) -> Map<u64, CacheEntry<P, M>> {
        self.entries@
    }
}

impl<P, M> CacheStore<P, M> {
    /// A store that holds nothing.
    pub fn new() -> (store: Self)
        ensures
            store@ == Map::<u64, CacheEntry<P, M>>::empty(),
    {
        CacheStore { entries: HashMap::new() }
    }

    /// The number of entries.
    pub fn len(&self) -> (n: usize)
        ensures
            n == self@.len(),
            self@.dom().finite(),
    {
        broadcast use vstd::std_specs::hash::group_hash_axioms;

        self.entries.len()
    }

    /// The entry stored under `key`, if there is one. Whether it is stale is
    /// not looked at here.
    pub fn get(&self, key: u64) -> (found: Option<&CacheEntry<P, M>>)
        ensures
            found == (if self@.contains_key(key) {
                Some(&self@[key])
            } else {
                None
            }),
    {
        broadcast use vstd::std_specs::hash::group_hash_axioms;

        self.entries.get(&key)
    }

    /// Stores `entry` under `key`, in place of any entry that was there.
    pub fn insert(&mut self, key: u64, entry: CacheEntry<P, M>)
        ensures
            final(self)@ == old(self)@.insert(key, entry),
    {
        broadcast use vstd::std_specs::hash::group_hash_axioms;

        self.entries.insert(key, entry);
    }

    /// Removes the entry under `key`. Removing an absent key changes nothing.
    pub fn remove(&mut self, key: u64)
        ensures
            final(self)@ == old(self)@.remove(key),
    {
        broadcast use vstd::std_specs::hash::group_hash_axioms;

        self.entries.remove(&key);
    }
}

} // verus!
