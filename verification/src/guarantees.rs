//! What callers of the proximity cache can rely on, across calls.
//!
//! Each statement speaks of lookups and populations by the relations that
//! the cache's own operations promise: [`ProximityCache::looked_up`] and
//! [`ProximityCache::populated`]. A lookup that finds nothing is the one
//! after which the caller fetches. Where several entries are equally near to
//! a query, the statements hold whichever of them the index names.

use vstd::multiset::*;
use vstd::prelude::*;

use crate::cache::{metres_between, ProximityCache};
use crate::geometry::{
    lemma_chord_metres_monotonic, lemma_chord_metres_zero, lemma_sq_dist_zero, sq_dist, Point,
};
use crate::index::{lemma_axis_load_empty, lemma_room_at_the_value, Contents, Item};
use crate::store::CacheEntry;

verus! {

/// A cache without entries has nothing in its index, and so room on every
/// coordinate of the grid.
pub proof fn lemma_empty_cache_is_uncrowded<P, M>(cache: ProximityCache<P, M>, point: Point)
    requires
        cache.wf(),
        cache.entries() == Map::<u64, CacheEntry<P, M>>::empty(),
        point.wf(),
    ensures
        cache.placed() == Contents::empty(),
        cache.uncrowded(point),
{
    broadcast use group_multiset_axioms;

    cache.lemma_wf();
    assert forall|e: Item| cache.placed().count(e) == 0 by {}
    assert(cache.placed() =~= Contents::empty());
    lemma_axis_load_empty(0, point.x);
    lemma_axis_load_empty(1, point.y);
    lemma_axis_load_empty(2, point.z);
}

/// A cache without entries has every key of the index left: a cache that
/// eviction has emptied takes as many entries again as a new one.
pub proof fn lemma_empty_cache_has_keys_left<P, M>(cache: ProximityCache<P, M>, now: i64)
    requires
        cache.wf(),
        cache.entries() == Map::<u64, CacheEntry<P, M>>::empty(),
        cache.next_key() < u64::MAX,
    ensures
        cache.keys_left(),
        now + cache.ttl() <= i64::MAX ==> cache.admits(now),
{
    cache.lemma_wf();
}

/// An entry goes on the very point that it was fetched for where the
/// coordinates of that point have room.
pub proof fn lemma_placed_on_the_point<P, M>(
    cache: ProximityCache<P, M>,
    point: Point,
    payload: P,
    metadata: M,
    now: i64,
    after: ProximityCache<P, M>,
    key: u64,
)
    requires
        cache.uncrowded(point),
        cache.populated(point, payload, metadata, now, after, key),
    ensures
        after.entries()[key].point == point,
{
    let place = after.entries()[key].point;
    lemma_room_at_the_value(cache.placed(), 0, point.x, place.x);
    lemma_room_at_the_value(cache.placed(), 1, point.y, place.y);
    lemma_room_at_the_value(cache.placed(), 2, point.z, place.z);
}

/// A lookup in an empty cache is a miss, and leaves the cache empty.
pub proof fn lemma_empty_cache_misses<P, M>(
    cache: ProximityCache<P, M>,
    query: Point,
    now: i64,
    after: ProximityCache<P, M>,
    found: Option<u64>,
)
    requires
        cache.entries() == Map::<u64, CacheEntry<P, M>>::empty(),
        cache.looked_up(query, now, after, found),
    ensures
        found is None,
        after.entries() == Map::<u64, CacheEntry<P, M>>::empty(),
{
}

/// A key is issued once: the key that a population issues is the key of no
/// entry of the cache, neither of one that is there nor of one that was
/// removed, since every key ever issued lies below the next.
pub proof fn lemma_issued_key_is_new<P, M>(
    cache: ProximityCache<P, M>,
    point: Point,
    payload: P,
    metadata: M,
    now: i64,
    after: ProximityCache<P, M>,
    key: u64,
)
    requires
        cache.wf(),
        cache.populated(point, payload, metadata, now, after, key),
    ensures
        !cache.entries().contains_key(key),
        forall|k: u64| #[trigger] cache.entries().contains_key(k) ==> k < key,
        forall|k: u64| #[trigger] after.entries().contains_key(k) ==> k < after.next_key(),
        after.entries().remove(key) == cache.entries(),
{
    cache.lemma_wf();
    assert(after.entries().remove(key) =~= cache.entries());
}

/// A lookup adds no entry and changes none: the entries after it are those
/// before it, but for at most one, which was stale.
pub proof fn lemma_lookup_only_evicts_stale<P, M>(
    cache: ProximityCache<P, M>,
    query: Point,
    now: i64,
    after: ProximityCache<P, M>,
    found: Option<u64>,
)
    requires
        cache.looked_up(query, now, after, found),
    ensures
        after.entries() == cache.entries() || exists|k: u64|
            #![trigger cache.entries().remove(k)]
            cache.entries().contains_key(k) && !cache.fresh(k, now) && after.entries()
                == cache.entries().remove(k),
{
    if cache.entries() != Map::<u64, CacheEntry<P, M>>::empty() {
        let k = choose|k: u64| #[trigger]
            cache.nearest_to(query, k) && cache.lookup_via(query, now, k, after, found);
        if after.entries() != cache.entries() {
            assert(cache.entries().contains_key(k) && !cache.fresh(k, now) && after.entries()
                == cache.entries().remove(k));
        }
    }
}

/// What a look finds, a lookup can find as well, and changes nothing then:
/// a look answers as a lookup does, but leaves a stale entry where it is.
pub proof fn lemma_peek_tells_the_lookup<P, M>(
    cache: ProximityCache<P, M>,
    query: Point,
    now: i64,
    key: u64,
)
    requires
        cache.peeked(query, now, Some(key)),
    ensures
        cache.looked_up(query, now, cache, Some(key)),
        cache.nearest_to(query, key),
        cache.in_reach(query, key),
        cache.fresh(key, now),
{
    let k = choose|k: u64| #[trigger]
        cache.nearest_to(query, k) && cache.peeked_via(query, now, k, Some(key));
    assert(cache.nearest_to(query, k) && cache.lookup_via(query, now, k, cache, Some(key)));
}

/// A hit names an entry that is nearest to the query, within the threshold
/// and not stale; and a hit changes nothing.
pub proof fn lemma_hit_is_near_and_fresh<P, M>(
    cache: ProximityCache<P, M>,
    query: Point,
    now: i64,
    after: ProximityCache<P, M>,
    key: u64,
)
    requires
        cache.looked_up(query, now, after, Some(key)),
    ensures
        cache.nearest_to(query, key),
        cache.in_reach(query, key),
        cache.fresh(key, now),
        after.entries() == cache.entries(),
{
    let k = choose|k: u64| #[trigger]
        cache.nearest_to(query, k) && cache.lookup_via(query, now, k, after, Some(key));
    assert(k == key);
}

/// Where the cache holds entries, and each one nearest to the query is within
/// the threshold and fresh, the lookup is a hit on one of them, and changes
/// nothing.
pub proof fn lemma_fresh_nearest_hits<P, M>(
    cache: ProximityCache<P, M>,
    query: Point,
    now: i64,
    after: ProximityCache<P, M>,
    found: Option<u64>,
)
    requires
        cache.entries() != Map::<u64, CacheEntry<P, M>>::empty(),
        forall|k: u64| #[trigger]
            cache.nearest_to(query, k) ==> cache.in_reach(query, k) && cache.fresh(k, now),
        cache.looked_up(query, now, after, found),
    ensures
        found matches Some(k) && cache.nearest_to(query, k),
        after.entries() == cache.entries(),
{
}

/// Where no entry nearest to the query is both within the threshold and
/// fresh, the lookup is a miss.
pub proof fn lemma_no_fresh_nearest_misses<P, M>(
    cache: ProximityCache<P, M>,
    query: Point,
    now: i64,
    after: ProximityCache<P, M>,
    found: Option<u64>,
)
    requires
        forall|k: u64| #[trigger]
            cache.nearest_to(query, k) ==> !(cache.in_reach(query, k) && cache.fresh(k, now)),
        cache.looked_up(query, now, after, found),
    ensures
        found is None,
{
}

/// Where no entry lies within the threshold of the query, the lookup is a
/// miss, and changes nothing.
pub proof fn lemma_out_of_reach_misses<P, M>(
    cache: ProximityCache<P, M>,
    query: Point,
    now: i64,
    after: ProximityCache<P, M>,
    found: Option<u64>,
)
    requires
        forall|k: u64| #[trigger] cache.entries().contains_key(k) ==> !cache.in_reach(query, k),
        cache.looked_up(query, now, after, found),
    ensures
        found is None,
        after.entries() == cache.entries(),
{
}

/// An entry nearest to a query lies within the threshold of it where any
/// entry does.
pub proof fn lemma_nearest_is_in_reach<P, M>(
    cache: ProximityCache<P, M>,
    query: Point,
    nearest: u64,
    other: u64,
)
    requires
        cache.nearest_to(query, nearest),
        cache.entries().contains_key(other),
        cache.in_reach(query, other),
    ensures
        cache.in_reach(query, nearest),
{
    let dn = sq_dist(query.coords(), cache.entries()[nearest].point.coords());
    let dk = sq_dist(query.coords(), cache.entries()[other].point.coords());
    lemma_sq_dist_zero(query.coords(), cache.entries()[nearest].point.coords());
    assert(dn <= dk);
    lemma_chord_metres_monotonic(dn, dk);
}

/// An entry nearest to the point of another entry sits on that very point.
pub proof fn lemma_nearest_to_an_entry_coincides<P, M>(
    cache: ProximityCache<P, M>,
    nearest: u64,
    other: u64,
)
    requires
        cache.entries().contains_key(other),
        cache.nearest_to(cache.entries()[other].point, nearest),
    ensures
        cache.entries()[nearest].point == cache.entries()[other].point,
{
    let at = cache.entries()[other].point;
    lemma_sq_dist_zero(at.coords(), at.coords());
    lemma_sq_dist_zero(at.coords(), cache.entries()[nearest].point.coords());
    assert(cache.entries()[nearest].point.coords() == at.coords());
}

/// A lookup of the very point that was just populated, before the entry
/// expires, is a hit and changes nothing; it answers with the payload that
/// was stored, so that no second fetch is made. This holds for a positive
/// threshold and a point whose coordinates had room, where each older entry
/// on the same point is fresh and holds the same payload; where no older
/// entry sits on the point, the hit is on the new entry.
pub proof fn lemma_populated_point_hits<P, M>(
    cache: ProximityCache<P, M>,
    point: Point,
    payload: P,
    metadata: M,
    fetched_at: i64,
    populated: ProximityCache<P, M>,
    key: u64,
    now: i64,
    after: ProximityCache<P, M>,
    found: Option<u64>,
)
    requires
        cache.admits(fetched_at),
        cache.uncrowded(point),
        cache.populated(point, payload, metadata, fetched_at, populated, key),
        cache.threshold() > 0,
        forall|k: u64| #[trigger]
            cache.entries().contains_key(k) && cache.entries()[k].point == point ==> cache.fresh(
                k,
                now,
            ) && cache.entries()[k].payload == payload,
        now < fetched_at + cache.ttl(),
        populated.looked_up(point, now, after, found),
    ensures
        found matches Some(k) && after.entries().contains_key(k) && after.entries()[k].point
            == point && after.entries()[k].payload == payload,
        after.entries() == populated.entries(),
        (forall|k: u64| #[trigger]
            cache.entries().contains_key(k) ==> cache.entries()[k].point != point) ==> found
            == Some(key),
{
    lemma_placed_on_the_point(cache, point, payload, metadata, fetched_at, populated, key);
    assert(populated.entries().contains_key(key));
    assert(populated.entries() != Map::<u64, CacheEntry<P, M>>::empty());
    lemma_chord_metres_zero();
    lemma_sq_dist_zero(point.coords(), point.coords());
    assert forall|k: u64| #[trigger] populated.nearest_to(point, k) implies populated.in_reach(
        point,
        k,
    ) && populated.fresh(k, now) && populated.entries()[k].point == point
        && populated.entries()[k].payload == payload by {
        lemma_nearest_to_an_entry_coincides(populated, k, key);
        if k != key {
            assert(cache.entries().contains_key(k));
        }
    }
    lemma_fresh_nearest_hits(populated, point, now, after, found);
}

/// Wherever a new entry was placed: a lookup of a point that it is within
/// the threshold of, and nearer to than every older entry, before it
/// expires, is a hit on it and changes nothing, so that it answers with the
/// payload that was stored.
pub proof fn lemma_new_entry_nearest_hits<P, M>(
    cache: ProximityCache<P, M>,
    point: Point,
    payload: P,
    metadata: M,
    fetched_at: i64,
    populated: ProximityCache<P, M>,
    key: u64,
    query: Point,
    now: i64,
    after: ProximityCache<P, M>,
    found: Option<u64>,
)
    requires
        cache.admits(fetched_at),
        cache.populated(point, payload, metadata, fetched_at, populated, key),
        populated.in_reach(query, key),
        forall|k: u64| #[trigger]
            cache.entries().contains_key(k) && k != key ==> sq_dist(
                query.coords(),
                populated.entries()[key].point.coords(),
            ) < sq_dist(query.coords(), cache.entries()[k].point.coords()),
        now < fetched_at + cache.ttl(),
        populated.looked_up(query, now, after, found),
    ensures
        found == Some(key),
        after.entries() == populated.entries(),
        after.entries()[key].payload == payload,
        after.entries()[key].metadata == metadata,
{
    assert(populated.entries().contains_key(key));
    assert(populated.entries() != Map::<u64, CacheEntry<P, M>>::empty());
    let k = choose|k: u64| #[trigger]
        populated.nearest_to(query, k) && populated.lookup_via(query, now, k, after, found);
    assert(k == key) by {
        if k != key {
            assert(cache.entries().contains_key(k));
        }
    }
}

/// Where a request for a place missed because no entry was within the
/// threshold of it, and the result fetched for it was placed within the
/// threshold, the next request for the place, before the entry expires, is
/// a hit on the new entry: the two requests make one fetch. An entry is
/// placed within any positive threshold of its place where the coordinates
/// of the place had room.
pub proof fn lemma_fetched_place_hits<P, M>(
    cache: ProximityCache<P, M>,
    point: Point,
    payload: P,
    metadata: M,
    fetched_at: i64,
    populated: ProximityCache<P, M>,
    key: u64,
    now: i64,
    after: ProximityCache<P, M>,
    found: Option<u64>,
)
    requires
        forall|k: u64| #[trigger] cache.entries().contains_key(k) ==> !cache.in_reach(point, k),
        cache.admits(fetched_at),
        cache.populated(point, payload, metadata, fetched_at, populated, key),
        populated.in_reach(point, key),
        now < fetched_at + cache.ttl(),
        populated.looked_up(point, now, after, found),
    ensures
        found == Some(key),
        after.entries() == populated.entries(),
        after.entries()[key].payload == payload,
        after.entries()[key].metadata == metadata,
{
    let new = sq_dist(point.coords(), populated.entries()[key].point.coords());
    lemma_sq_dist_zero(point.coords(), populated.entries()[key].point.coords());
    assert forall|k: u64| #[trigger] cache.entries().contains_key(k) && k != key implies new
        < sq_dist(point.coords(), cache.entries()[k].point.coords()) by {
        let old = sq_dist(point.coords(), cache.entries()[k].point.coords());
        lemma_sq_dist_zero(point.coords(), cache.entries()[k].point.coords());
        assert(!cache.in_reach(point, k));
        if old <= new {
            lemma_chord_metres_monotonic(old, new);
        }
    }
    lemma_new_entry_nearest_hits(
        cache,
        point,
        payload,
        metadata,
        fetched_at,
        populated,
        key,
        point,
        now,
        after,
        found,
    );
}

/// Where a lookup was a hit, the same lookup again is a hit again and
/// answers with the same payload. This holds where each entry as near to
/// the query as the one that was hit is fresh at the later time and holds
/// the same payload; where the entry that was hit is nearer than every
/// other, the second hit is on it.
pub proof fn lemma_hit_repeats<P, M>(
    cache: ProximityCache<P, M>,
    query: Point,
    first_at: i64,
    between: ProximityCache<P, M>,
    key: u64,
    again_at: i64,
    after: ProximityCache<P, M>,
    found: Option<u64>,
)
    requires
        cache.looked_up(query, first_at, between, Some(key)),
        forall|j: u64| #[trigger]
            cache.nearest_to(query, j) ==> cache.fresh(j, again_at) && cache.entries()[j].payload
                == cache.entries()[key].payload,
        between.looked_up(query, again_at, after, found),
    ensures
        found matches Some(k) && after.entries().contains_key(k) && after.entries()[k].payload
            == cache.entries()[key].payload,
        after.entries() == cache.entries(),
        (forall|j: u64| #[trigger]
            cache.entries().contains_key(j) && j != key ==> sq_dist(
                query.coords(),
                cache.entries()[key].point.coords(),
            ) < sq_dist(query.coords(), cache.entries()[j].point.coords())) ==> found == Some(key),
{
    lemma_hit_is_near_and_fresh(cache, query, first_at, between, key);
    assert(between.entries().contains_key(key));
    assert(between.entries() != Map::<u64, CacheEntry<P, M>>::empty());
    assert forall|k: u64| #[trigger] between.nearest_to(query, k) implies between.in_reach(
        query,
        k,
    ) && between.fresh(k, again_at) && between.entries()[k].payload
        == cache.entries()[key].payload by {
        assert(cache.nearest_to(query, k));
        lemma_nearest_is_in_reach(between, query, k, key);
    }
    lemma_fresh_nearest_hits(between, query, again_at, after, found);
}

/// After a result was populated, a lookup of a point that the new entry is
/// within the threshold of, before the entry expires, is a hit, and so needs
/// no second fetch. This holds where each older entry that is nearest to the
/// query is fresh; the hit is on the new entry where there are no older
/// entries at all. The new entry sits on the point it was fetched for where
/// the coordinates of that point had room.
pub proof fn lemma_nearby_query_hits<P, M>(
    cache: ProximityCache<P, M>,
    point: Point,
    payload: P,
    metadata: M,
    fetched_at: i64,
    populated: ProximityCache<P, M>,
    key: u64,
    query: Point,
    now: i64,
    after: ProximityCache<P, M>,
    found: Option<u64>,
)
    requires
        cache.admits(fetched_at),
        cache.populated(point, payload, metadata, fetched_at, populated, key),
        populated.in_reach(query, key),
        forall|k: u64| #[trigger]
            populated.nearest_to(query, k) && k != key ==> populated.fresh(k, now),
        now < fetched_at + cache.ttl(),
        populated.looked_up(query, now, after, found),
    ensures
        found is Some,
        after.entries() == populated.entries(),
        cache.entries() == Map::<u64, CacheEntry<P, M>>::empty() ==> found == Some(key),
{
    assert(populated.entries().contains_key(key));
    assert(populated.entries() != Map::<u64, CacheEntry<P, M>>::empty());
    assert forall|k: u64| #[trigger] populated.nearest_to(query, k) implies populated.in_reach(
        query,
        k,
    ) && populated.fresh(k, now) by {
        lemma_nearest_is_in_reach(populated, query, k, key);
    }
    lemma_fresh_nearest_hits(populated, query, now, after, found);
    if cache.entries() == Map::<u64, CacheEntry<P, M>>::empty() {
        if found->0 != key {
            assert(cache.entries().contains_key(found->0));
        }
    }
}

/// After a result was populated, a lookup of a point that the new entry is
/// at the threshold's distance from or farther is a miss, and so is followed
/// by a fetch of its own. This holds where no older entry that is nearest to
/// the query is both within the threshold and fresh.
pub proof fn lemma_distant_query_misses<P, M>(
    cache: ProximityCache<P, M>,
    point: Point,
    payload: P,
    metadata: M,
    fetched_at: i64,
    populated: ProximityCache<P, M>,
    key: u64,
    query: Point,
    now: i64,
    after: ProximityCache<P, M>,
    found: Option<u64>,
)
    requires
        cache.populated(point, payload, metadata, fetched_at, populated, key),
        !populated.in_reach(query, key),
        forall|k: u64| #[trigger]
            populated.nearest_to(query, k) && k != key ==> !(populated.in_reach(query, k)
                && populated.fresh(k, now)),
        populated.looked_up(query, now, after, found),
    ensures
        found is None,
        (forall|k: u64| #[trigger]
            cache.entries().contains_key(k) ==> !cache.in_reach(query, k)) ==> after.entries()
            == populated.entries(),
{
    assert(populated.entries().contains_key(key));
    lemma_no_fresh_nearest_misses(populated, query, now, after, found);
    if forall|k: u64| #[trigger] cache.entries().contains_key(k) ==> !cache.in_reach(query, k) {
        assert forall|k: u64| #[trigger]
            populated.entries().contains_key(k) implies !populated.in_reach(query, k) by {
            if k != key {
                assert(cache.entries().contains_key(k));
                assert(!cache.in_reach(query, k));
            }
        }
        lemma_out_of_reach_misses(populated, query, now, after, found);
    }
}

/// Once the time to live has passed since a result was populated, no lookup
/// is a hit on that entry; and a lookup of the point that the entry sits on
/// is a miss, so that the result is fetched again. The miss holds where no
/// older entry on the same point is fresh.
pub proof fn lemma_expired_entry_misses<P, M>(
    cache: ProximityCache<P, M>,
    point: Point,
    payload: P,
    metadata: M,
    fetched_at: i64,
    populated: ProximityCache<P, M>,
    key: u64,
    query: Point,
    now: i64,
    after: ProximityCache<P, M>,
    found: Option<u64>,
)
    requires
        cache.admits(fetched_at),
        cache.populated(point, payload, metadata, fetched_at, populated, key),
        now >= fetched_at + cache.ttl(),
        populated.looked_up(query, now, after, found),
    ensures
        found != Some(key),
        query == populated.entries()[key].point && (forall|k: u64| #[trigger]
            cache.entries().contains_key(k) && cache.entries()[k].point == query ==> !cache.fresh(
                k,
                now,
            )) ==> found is None,
{
    assert(populated.entries().contains_key(key));
    assert(!populated.fresh(key, now));
    if found == Some(key) {
        lemma_hit_is_near_and_fresh(populated, query, now, after, key);
    }
    if query == populated.entries()[key].point && (forall|k: u64| #[trigger]
        cache.entries().contains_key(k) && cache.entries()[k].point == query ==> !cache.fresh(
            k,
            now,
        )) {
        assert forall|k: u64| #[trigger] populated.nearest_to(query, k) implies !(
        populated.in_reach(query, k) && populated.fresh(k, now)) by {
            lemma_nearest_to_an_entry_coincides(populated, k, key);
            if k != key {
                assert(cache.entries().contains_key(k));
            }
        }
        lemma_no_fresh_nearest_misses(populated, query, now, after, found);
    }
}

/// On a new cache, a request for one place and a request for a place within
/// the threshold of it, before the time to live has passed, make one fetch
/// between them: the first lookup misses, the second is a hit on the entry
/// that was populated after the first, and that entry is the only one.
pub proof fn lemma_new_cache_reuses_nearby<P, M>(
    cache: ProximityCache<P, M>,
    point: Point,
    fetched_at: i64,
    missed: ProximityCache<P, M>,
    first: Option<u64>,
    payload: P,
    metadata: M,
    populated: ProximityCache<P, M>,
    key: u64,
    query: Point,
    now: i64,
    after: ProximityCache<P, M>,
    found: Option<u64>,
)
    requires
        cache.entries() == Map::<u64, CacheEntry<P, M>>::empty(),
        cache.next_key() == 0,
        point.wf(),
        cache.looked_up(point, fetched_at, missed, first),
        missed.wf(),
        fetched_at + cache.ttl() <= i64::MAX,
        missed.populated(point, payload, metadata, fetched_at, populated, key),
        metres_between(query, point) < cache.threshold(),
        fetched_at <= now < fetched_at + cache.ttl(),
        populated.looked_up(query, now, after, found),
    ensures
        first is None,
        missed.admits(fetched_at),
        found == Some(key),
        after.entries() == Map::<u64, CacheEntry<P, M>>::empty().insert(key, after.entries()[key]),
        after.entries()[key].point == point,
        after.entries()[key].payload == payload,
        after.entries()[key].metadata == metadata,
        after.entries()[key].expiry == fetched_at + cache.ttl(),
{
    lemma_empty_cache_has_keys_left(missed, fetched_at);
    lemma_empty_cache_is_uncrowded(missed, point);
    lemma_placed_on_the_point(missed, point, payload, metadata, fetched_at, populated, key);
    lemma_nearby_query_hits(
        missed,
        point,
        payload,
        metadata,
        fetched_at,
        populated,
        key,
        query,
        now,
        after,
        found,
    );
}

/// On a new cache, a request for a place after the time to live of the one
/// entry within the threshold of it has passed is fetched again: the lookup
/// misses and evicts the stale entry, and the population that follows
/// leaves the new entry as the only one, on the place asked for, under a new
/// key, to expire a time to live after the second fetch.
pub proof fn lemma_new_cache_refetches_when_stale<P, M>(
    cache: ProximityCache<P, M>,
    point: Point,
    payload: P,
    metadata: M,
    fetched_at: i64,
    populated: ProximityCache<P, M>,
    key: u64,
    query: Point,
    now: i64,
    missed: ProximityCache<P, M>,
    found: Option<u64>,
    again: P,
    again_metadata: M,
    after: ProximityCache<P, M>,
    again_key: u64,
)
    requires
        cache.wf(),
        cache.entries() == Map::<u64, CacheEntry<P, M>>::empty(),
        cache.next_key() == 0,
        cache.populated(point, payload, metadata, fetched_at, populated, key),
        query.wf(),
        populated.in_reach(query, key),
        now >= fetched_at + cache.ttl(),
        now + cache.ttl() <= i64::MAX,
        populated.looked_up(query, now, missed, found),
        missed.wf(),
        missed.populated(query, again, again_metadata, now, after, again_key),
    ensures
        cache.admits(fetched_at),
        missed.admits(now),
        found is None,
        missed.entries() == Map::<u64, CacheEntry<P, M>>::empty(),
        again_key == key + 1,
        after.entries() == Map::<u64, CacheEntry<P, M>>::empty().insert(
            again_key,
            after.entries()[again_key],
        ),
        after.entries()[again_key].point == query,
        after.entries()[again_key].payload == again,
        after.entries()[again_key].metadata == again_metadata,
        after.entries()[again_key].expiry == now + cache.ttl(),
{
    assert(populated.entries().contains_key(key));
    assert(populated.entries() != Map::<u64, CacheEntry<P, M>>::empty());
    let k = choose|k: u64| #[trigger]
        populated.nearest_to(query, k) && populated.lookup_via(query, now, k, missed, found);
    assert(k == key) by {
        if k != key {
            assert(cache.entries().contains_key(k));
        }
    }
    assert(missed.entries() =~= Map::<u64, CacheEntry<P, M>>::empty());
    lemma_empty_cache_has_keys_left(cache, fetched_at);
    lemma_empty_cache_has_keys_left(missed, now);
    lemma_empty_cache_is_uncrowded(missed, query);
    lemma_placed_on_the_point(missed, query, again, again_metadata, now, after, again_key);
}

} // verus!
