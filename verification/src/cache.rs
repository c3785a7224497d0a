//! The proximity cache: the spatial index and the cache store behind one
//! owner, with the decisions of a request: reuse, evict, populate.

use vstd::multiset::*;
use vstd::prelude::*;

use crate::clock::{unix_now, CLOCK_LIMIT};
use crate::geometry::{chord_metres, chord_to_metres, sq_dist, Point};
use crate::index::{has_room_at, is_nearest_room, Contents, Item, SpatialIndex, INSERT_LIMIT};
use crate::store::{CacheEntry, CacheStore};

verus! {

/// How long an entry stays fresh unless configured otherwise: one hour.
pub const DEFAULT_TTL_SECONDS: u32 = 3600;

/// How near a cached point must be unless configured otherwise: ten kilometres.
pub const DEFAULT_THRESHOLD_METRES: u64 = 10_000;

/// The distance between two grid points in whole metres.
pub open spec fn metres_between(a: Point, b: Point) -> int {
    chord_metres(sq_dist(a.coords(), b.coords()))
}

/// A cache of fetched results that answers a query from the entry nearest to
/// it, if that entry is near enough and not stale.
///
/// It is the one owner of the index and the store, which change together.
/// A request is a [`lookup`](Self::lookup), and after a miss and a fetch
/// that succeeded a [`populate`](Self::populate); callers that share the
/// cache hold their lock for each of the two, and not for the fetch between.
pub struct ProximityCache<P, M> {
    index: SpatialIndex,
    store: CacheStore<P, M>,
    next_key: u64,
    ttl: u32,
    threshold: u64,
}

impl<P, M> ProximityCache<P, M> {
    /// The cached entries by key.
    pub closed spec fn entries(self) -> Map<u64, CacheEntry<P, M>> {
        self.store@
    }

    /// The (point, key) pairs that the spatial index holds.
    pub closed spec fn placed(self) -> Contents {
        self.index@
    }

    /// How many entries were populated since the cache last held none.
    pub closed spec fn insertions(self) -> nat {
        self.index.insertions()
    }

    /// The key that the next entry will get.
    pub closed spec fn next_key(self) -> u64 {
        self.next_key
    }

    /// The time to live of an entry, in seconds.
    pub closed spec fn ttl(self) -> u32 {
        self.ttl
    }

    /// The proximity threshold, in metres.
    pub closed spec fn threshold(self) -> u64 {
        self.threshold
    }

    /// The index holds exactly one pair for each entry of the store, at the
    /// entry's point, and every key was issued by the counter.
    pub closed spec fn wf(self) -> bool {
        &&& self.index.wf()
        &&& self.index.insertions() <= self.next_key
        &&& self.indexed()
        &&& forall|k: u64| #[trigger]
            self.store@.contains_key(k) ==> k < self.next_key && self.store@[k].point.wf()
    }

    /// The index holds one pair for each entry, at its point, and no other.
    pub open spec fn indexed(self) -> bool {
        forall|e: Item| #[trigger]
            self.placed().count(e) == (if self.entries().contains_key(e.1)
                && self.entries()[e.1].point.coords() == e.0 {
                1nat
            } else {
                0nat
            })
    }

    /// What holds of every well-formed cache.
    pub proof fn lemma_wf(self)
        requires
            self.wf(),
        ensures
            self.indexed(),
            self.insertions() <= INSERT_LIMIT,
            self.insertions() <= self.next_key(),
            self.entries() == Map::<u64, CacheEntry<P, M>>::empty() ==> self.insertions() == 0,
            forall|k: u64| #[trigger]
                self.entries().contains_key(k) ==> k < self.next_key()
                    && self.entries()[k].point.wf(),
    {
        broadcast use group_multiset_axioms;

        self.index.lemma_wf();
        if self.entries() == Map::<u64, CacheEntry<P, M>>::empty() {
            if self.placed().len() != 0 {
                assert(self.placed().count(self.placed().choose()) > 0);
            }
        }
    }
}

impl<P, M> ProximityCache<P, M> {
    /// No entry lies nearer to `query` than the entry under `k`.
    pub open spec fn nearest_to(self, query: Point, k: u64) -> bool {
        &&& self.entries().contains_key(k)
        &&& forall|j: u64| #[trigger]
            self.entries().contains_key(j) ==> sq_dist(
                query.coords(),
                self.entries()[k].point.coords(),
            ) <= sq_dist(query.coords(), self.entries()[j].point.coords())
    }

    /// The entry under `k` lies within the proximity threshold of `query`.
    pub open spec fn in_reach(self, query: Point, k: u64) -> bool {
        metres_between(query, self.entries()[k].point) < self.threshold()
    }

    /// The entry under `k` is not stale at the time `now`.
    pub open spec fn fresh(self, k: u64, now: i64) -> bool {
        self.entries()[k].expiry > now
    }

    /// The same time to live and threshold, and the same next key.
    pub open spec fn same_settings(self, other: Self) -> bool {
        &&& self.ttl() == other.ttl()
        &&& self.threshold() == other.threshold()
        &&& self.next_key() == other.next_key()
    }

    /// What a lookup does once the index has named `k` as the nearest entry:
    /// a hit on `k` if it is in reach and fresh; a miss that evicts `k` if it
    /// is in reach and stale; a plain miss if it is out of reach.
    pub open spec fn lookup_via(
        self,
        query: Point,
        now: i64,
        k: u64,
        after: Self,
        found: Option<u64>,
    ) -> bool {
        if self.in_reach(query, k) && self.fresh(k, now) {
            found == Some(k) && after.entries() == self.entries()
        } else if self.in_reach(query, k) {
            found is None && after.entries() == self.entries().remove(k)
        } else {
            found is None && after.entries() == self.entries()
        }
    }

    /// A lookup of `query` at the time `now` takes the cache to `after` and
    /// answers `found`: a miss on an empty cache, else what follows from one
    /// of the entries nearest to `query`.
    pub open spec fn looked_up(self, query: Point, now: i64, after: Self, found: Option<u64>) -> bool {
        &&& after.same_settings(self)
        &&& after.insertions() == (if after.entries() == Map::<u64, CacheEntry<P, M>>::empty() {
            0
        } else {
            self.insertions()
        })
        &&& if self.entries() == Map::<u64, CacheEntry<P, M>>::empty() {
            found is None && after.entries() == self.entries()
        } else {
            exists|k: u64| #[trigger]
                self.nearest_to(query, k) && self.lookup_via(query, now, k, after, found)
        }
    }

    /// A key is left to issue: fewer than [`INSERT_LIMIT`] entries were
    /// populated since the cache last held none, and fewer than 2^64 - 1 in
    /// all.
    pub open spec fn keys_left(self) -> bool {
        &&& self.insertions() < INSERT_LIMIT
        &&& self.next_key() < u64::MAX
    }

    /// What a look answers once the index has named `k` as the nearest
    /// entry: `k` if it is in reach and fresh, else nothing.
    pub open spec fn peeked_via(self, query: Point, now: i64, k: u64, found: Option<u64>) -> bool {
        found == (if self.in_reach(query, k) && self.fresh(k, now) {
            Some(k)
        } else {
            None
        })
    }

    /// A look at the cache for `query` at the time `now` answers `found`:
    /// nothing on an empty cache, else what follows from one of the entries
    /// nearest to `query`.
    pub open spec fn peeked(self, query: Point, now: i64, found: Option<u64>) -> bool {
        if self.entries() == Map::<u64, CacheEntry<P, M>>::empty() {
            found is None
        } else {
            exists|k: u64| #[trigger]
                self.nearest_to(query, k) && self.peeked_via(query, now, k, found)
        }
    }

    /// The cache can take a result fetched at the time `now`: a key is left,
    /// and the expiry time can be told.
    pub open spec fn admits(self, now: i64) -> bool {
        &&& self.keys_left()
        &&& now + self.ttl() <= i64::MAX
    }

    /// Each coordinate of `point` has room in the index for one more pair.
    pub open spec fn uncrowded(self, point: Point) -> bool {
        &&& has_room_at(self.placed(), 0, point.x)
        &&& has_room_at(self.placed(), 1, point.y)
        &&& has_room_at(self.placed(), 2, point.z)
    }

    /// `place` is where an entry for `point` goes: on each axis the value
    /// with room that is nearest to the point's own, which is the point's
    /// own where that has room.
    pub open spec fn places(self, point: Point, place: Point) -> bool {
        &&& is_nearest_room(self.placed(), 0, point.x, place.x)
        &&& is_nearest_room(self.placed(), 1, point.y, place.y)
        &&& is_nearest_room(self.placed(), 2, point.z, place.z)
    }

    /// Populating with a result fetched for `point` at the time `now` takes
    /// the cache to `after` and issues `key`: the next key, under which the
    /// result is stored with the expiry time `now + ttl`, at the place for
    /// the point, and no other entry changes.
    pub open spec fn populated(
        self,
        point: Point,
        payload: P,
        metadata: M,
        now: i64,
        after: Self,
        key: u64,
    ) -> bool {
        &&& key == self.next_key()
        &&& after.next_key() == key + 1
        &&& after.insertions() == self.insertions() + 1
        &&& after.ttl() == self.ttl()
        &&& after.threshold() == self.threshold()
        &&& after.entries().contains_key(key)
        &&& after.entries() == self.entries().insert(key, after.entries()[key])
        &&& self.places(point, after.entries()[key].point)
        &&& after.entries()[key].payload == payload
        &&& after.entries()[key].metadata == metadata
        &&& after.entries()[key].expiry == now + self.ttl()
    }

    /// Populating at the time `now` where the cache admits the result then,
    /// and no change where it does not.
    pub open spec fn populated_if_admitted(
        self,
        point: Point,
        payload: P,
        metadata: M,
        now: i64,
        after: Self,
        key: Option<u64>,
    ) -> bool {
        if self.admits(now) {
            key matches Some(k) && self.populated(point, payload, metadata, now, after, k)
        } else {
            key is None && after.entries() == self.entries() && after.same_settings(self)
                && after.insertions() == self.insertions()
        }
    }

    /// An empty cache with the given time to live and proximity threshold.
    pub fn new(ttl_seconds: u32, threshold_metres: u64) -> (cache: Self)
        ensures
            cache.wf(),
            cache.entries() == Map::<u64, CacheEntry<P, M>>::empty(),
            cache.placed() == Contents::empty(),
            cache.next_key() == 0,
            cache.insertions() == 0,
            cache.ttl() == ttl_seconds,
            cache.threshold() == threshold_metres,
    {
        let cache = ProximityCache {
            index: SpatialIndex::new(),
            store: CacheStore::new(),
            next_key: 0,
            ttl: ttl_seconds,
            threshold: threshold_metres,
        };
        cache
    }

    /// The number of entries.
    pub fn len(&self) -> (n: usize)
        ensures
            n == self.entries().len(),
    {
        self.store.len()
    }

    /// The time to live of an entry, in seconds.
    pub fn ttl_seconds(&self) -> (ttl: u32)
        ensures
            ttl == self.ttl(),
    {
        self.ttl
    }

    /// The proximity threshold, in metres.
    pub fn threshold_metres(&self) -> (threshold: u64)
        ensures
            threshold == self.threshold(),
    {
        self.threshold
    }

    /// The entry under `key`, if there is one.
    pub fn entry(&self, key: u64) -> (found: Option<&CacheEntry<P, M>>)
        ensures
            found == (if self.entries().contains_key(key) {
                Some(&self.entries()[key])
            } else {
                None
            }),
    {
        self.store.get(key)
    }

    /// The entry nearest to `query` and its squared distance, or nothing
    /// where the cache is empty.
    fn nearest_entry(&self, query: &Point) -> (found: Option<(u64, u64)>)
        requires
            self.wf(),
            query.wf(),
        ensures
            found is None <==> self.entries() == Map::<u64, CacheEntry<P, M>>::empty(),
            found matches Some(near) ==> self.nearest_to(*query, near.1) && near.0 == sq_dist(
                query.coords(),
                self.entries()[near.1].point.coords(),
            ),
    {
        proof {
            broadcast use group_multiset_axioms;

            self.index.lemma_wf();
        }
        let found = self.index.nearest(query);
        proof {
            match found {
                None => {
                    assert forall|k: u64| !self.entries().contains_key(k) by {
                        if self.entries().contains_key(k) {
                            let e: Item = (self.entries()[k].point.coords(), k);
                            assert(self.placed().count(e) == 1);
                        }
                    }
                    assert(self.entries() =~= Map::<u64, CacheEntry<P, M>>::empty());
                },
                Some((d, key)) => {
                    let p = choose|p: (u64, u64, u64)| #[trigger]
                        self.placed().contains((p, key)) && d == sq_dist(query.coords(), p);
                    assert(self.placed().count((p, key)) > 0);
                    assert forall|j: u64| #[trigger] self.entries().contains_key(j) implies d
                        <= sq_dist(query.coords(), self.entries()[j].point.coords()) by {
                        let ej: Item = (self.entries()[j].point.coords(), j);
                        assert(self.placed().contains(ej));
                    }
                    assert(self.nearest_to(*query, key));
                },
            }
        }
        found
    }

    /// A look at the cache at the time `now` that changes nothing: the key
    /// of the entry that a lookup would answer from, or nothing where a
    /// lookup would miss. A stale entry stays where it is.
    pub fn peek_at(&self, query: Point, now: i64) -> (found: Option<u64>)
        requires
            self.wf(),
            query.wf(),
        ensures
            self.peeked(query, now, found),
    {
        match self.nearest_entry(&query) {
            None => None,
            Some((d, key)) => {
                let metres = chord_to_metres(d);
                let found = match self.store.get(key) {
                    Some(entry) => if metres < self.threshold && entry.expiry > now {
                        Some(key)
                    } else {
                        None
                    },
                    // The index names no key that the store does not hold.
                    None => None,
                };
                assert(self.peeked_via(query, now, key, found));
                found
            },
        }
    }

    /// The lookup phase of a request at the time `now`. On a hit, the key of
    /// the entry to answer from; on a miss, nothing: the caller fetches. A
    /// stale entry that would have been the hit is evicted from the index
    /// and the store together.
    pub fn lookup_at(&mut self, query: Point, now: i64) -> (found: Option<u64>)
        requires
            old(self).wf(),
            query.wf(),
        ensures
            final(self).wf(),
            old(self).looked_up(query, now, *final(self), found),
    {
        proof {
            broadcast use group_multiset_axioms;

            old(self).lemma_wf();
        }
        match self.nearest_entry(&query) {
            None => None,
            Some((d, key)) => {
                let metres = chord_to_metres(d);
                if metres < self.threshold {
                    match self.store.get(key) {
                        Some(entry) => {
                            if entry.expiry > now {
                                Some(key)
                            } else {
                                let point = entry.point;
                                assert(self.placed().count((point.coords(), key)) == 1);
                                let indexed = self.index.remove(&point, key);
                                self.store.remove(key);
                                proof {
                                    broadcast use {lemma_update_same, lemma_update_different};

                                    assert(indexed);
                                    if self.entries() == Map::<u64, CacheEntry<P, M>>::empty() {
                                        if self.placed().len() != 0 {
                                            let e = self.placed().choose();
                                            assert(self.placed().count(e) > 0);
                                        }
                                    } else {
                                        if forall|k: u64| !self.entries().contains_key(k) {
                                            assert(self.entries() =~= Map::<
                                                u64,
                                                CacheEntry<P, M>,
                                            >::empty());
                                        }
                                        let k = choose|k: u64| self.entries().contains_key(k);
                                        let e: Item = (self.entries()[k].point.coords(), k);
                                        assert(self.placed().count(e) == 1);
                                    }
                                }
                                None
                            }
                        },
                        // The index names no key that the store does not hold.
                        None => None,
                    }
                } else {
                    None
                }
            },
        }
    }

    /// Whether the cache can take a result fetched at `now`.
    pub fn can_admit(&self, now: i64) -> (room: bool)
        requires
            self.wf(),
        ensures
            room == self.admits(now),
    {
        let ttl: i64 = self.ttl as i64;
        self.index.has_insertions_left() && self.next_key < u64::MAX && now <= i64::MAX - ttl
    }

    /// The population phase of a request: stores a result fetched for
    /// `point` under the next key, to expire `ttl` seconds after `now`. The
    /// entry goes on the point itself, unless 16 entries share one of its
    /// coordinates already: then on the nearest grid value of that axis that
    /// fewer share.
    pub fn populate_at(&mut self, point: Point, payload: P, metadata: M, now: i64) -> (key: u64)
        requires
            old(self).wf(),
            point.wf(),
            old(self).admits(now),
        ensures
            final(self).wf(),
            old(self).populated(point, payload, metadata, now, *final(self), key),
    {
        proof {
            broadcast use group_multiset_axioms;

            old(self).index.lemma_wf();
        }
        let key = self.next_key;
        let ttl: i64 = self.ttl as i64;
        let place = self.index.place_for(&point);
        let entry = CacheEntry { point: place, payload, metadata, expiry: now + ttl };
        self.index.insert(&place, key);
        self.store.insert(key, entry);
        self.next_key = key + 1;
        proof {
            broadcast use group_multiset_axioms;

            assert(self.entries() =~= old(self).entries().insert(key, self.entries()[key]));
            let pair: Item = (place.coords(), key);
            assert forall|e: Item| #[trigger]
                self.placed().count(e) == (if self.entries().contains_key(e.1)
                    && self.entries()[e.1].point.coords() == e.0 {
                    1nat
                } else {
                    0nat
                }) by {
                assert(self.placed().count(e) == old(self).placed().count(e) + (if e == pair {
                    1nat
                } else {
                    0nat
                }));
                if e.1 == key {
                    assert(!old(self).entries().contains_key(key));
                }
            }
        }
        key
    }

    /// [`lookup_at`](Self::lookup_at) at the present time, as the machine's
    /// clock tells it.
    pub fn lookup(&mut self, query: Point) -> (found: Option<u64>)
        requires
            old(self).wf(),
            query.wf(),
        ensures
            final(self).wf(),
            exists|now: i64|
                now < CLOCK_LIMIT && #[trigger] old(self).looked_up(
                    query,
                    now,
                    *final(self),
                    found,
                ),
    {
        let now = unix_now();
        self.lookup_at(query, now)
    }

    /// [`peek_at`](Self::peek_at) at the present time, as the machine's clock
    /// tells it.
    pub fn peek(&self, query: Point) -> (found: Option<u64>)
        requires
            self.wf(),
            query.wf(),
        ensures
            exists|now: i64| now < CLOCK_LIMIT && #[trigger] self.peeked(query, now, found),
    {
        let now = unix_now();
        self.peek_at(query, now)
    }

    /// [`populate_at`](Self::populate_at) at the present time, as the
    /// machine's clock tells it. The result is stored exactly where a key is
    /// left; else nothing changes.
    pub fn populate(&mut self, point: Point, payload: P, metadata: M) -> (key: Option<u64>)
        requires
            old(self).wf(),
            point.wf(),
        ensures
            final(self).wf(),
            key is Some <==> old(self).keys_left(),
            exists|now: i64|
                now < CLOCK_LIMIT && #[trigger] old(self).populated_if_admitted(
                    point,
                    payload,
                    metadata,
                    now,
                    *final(self),
                    key,
                ),
    {
        let now = unix_now();
        let key = if self.can_admit(now) {
            Some(self.populate_at(point, payload, metadata, now))
        } else {
            None
        };
        assert(old(self).populated_if_admitted(point, payload, metadata, now, *self, key));
        key
    }
}

impl<P, M> Default for ProximityCache<P, M> {
    /// An empty cache with the default time to live and proximity threshold.
    fn default() -> (cache: Self)
        ensures
            cache.wf(),
            cache.entries() == Map::<u64, CacheEntry<P, M>>::empty(),
            cache.placed() == Contents::empty(),
            cache.next_key() == 0,
            cache.insertions() == 0,
            cache.ttl() == DEFAULT_TTL_SECONDS,
            cache.threshold() == DEFAULT_THRESHOLD_METRES,
    {
        ProximityCache::new(DEFAULT_TTL_SECONDS, DEFAULT_THRESHOLD_METRES)
    }
}

} // verus!
