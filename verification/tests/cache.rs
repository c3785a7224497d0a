use weathurber::cache::{ProximityCache, DEFAULT_THRESHOLD_METRES, DEFAULT_TTL_SECONDS};
use weathurber::geometry::{Point, GRID_UNIT};

const T0: i64 = 1_700_000_000;

fn grid_point(latitude: f64, longitude: f64) -> Point {
    let lat = latitude.to_radians();
    let lon = longitude.to_radians();
    let on_grid = |c: f64| ((c + 1.0) * GRID_UNIT as f64).round() as u64;
    Point::new(
        on_grid(lat.cos() * lon.cos()),
        on_grid(lat.cos() * lon.sin()),
        on_grid(lat.sin()),
    )
    .unwrap()
}

/// A request as the service runs it: a lookup, and on a miss a fetch and a
/// population. Tells the payload answered and whether it was fetched.
fn resolve(
    cache: &mut ProximityCache<Vec<u8>, String>,
    point: Point,
    now: i64,
    fetches: &mut Vec<Vec<u8>>,
    remote: &[u8],
) -> Vec<u8> {
    if let Some(key) = cache.lookup_at(point, now) {
        return cache.entry(key).unwrap().payload.clone();
    }
    fetches.push(remote.to_vec());
    assert!(cache.can_admit(now));
    let key = cache.populate_at(point, remote.to_vec(), String::from("somewhere"), now);
    cache.entry(key).unwrap().payload.clone()
}

#[test]
fn defaults() {
    assert_eq!(DEFAULT_TTL_SECONDS, 3600);
    assert_eq!(DEFAULT_THRESHOLD_METRES, 10_000);
}

#[test]
fn new_cache_answers_nothing() {
    let mut cache: ProximityCache<Vec<u8>, String> = ProximityCache::new(3600, 10_000);
    assert_eq!(cache.len(), 0);
    assert_eq!(cache.lookup_at(grid_point(37.7749, -122.4194), T0), None);
    assert_eq!(cache.lookup_at(grid_point(0.0, 0.0), T0), None);
    assert_eq!(cache.lookup_at(grid_point(-90.0, 180.0), i64::MAX), None);
    assert_eq!(cache.len(), 0);
    assert!(cache.entry(0).is_none());
}

#[test]
fn populate_issues_rising_keys() {
    let mut cache: ProximityCache<Vec<u8>, String> = ProximityCache::new(3600, 10_000);
    let a = grid_point(10.0, 10.0);
    let b = grid_point(20.0, 20.0);
    assert!(cache.can_admit(T0));
    assert_eq!(cache.populate_at(a, vec![1], String::from("a"), T0), 0);
    assert_eq!(cache.populate_at(b, vec![2], String::from("b"), T0 + 5), 1);
    assert_eq!(cache.len(), 2);
    let first = cache.entry(0).unwrap();
    assert_eq!(first.point, a);
    assert_eq!(first.payload, vec![1]);
    assert_eq!(first.metadata, "a");
    assert_eq!(first.expiry, T0 + 3600);
    let second = cache.entry(1).unwrap();
    assert_eq!(second.point, b);
    assert_eq!(second.payload, vec![2]);
    assert_eq!(second.expiry, T0 + 3605);
    assert!(cache.entry(2).is_none());
}

#[test]
fn keys_are_not_reused_after_eviction() {
    let mut cache: ProximityCache<Vec<u8>, String> = ProximityCache::new(60, 10_000);
    let a = grid_point(10.0, 10.0);
    assert_eq!(cache.populate_at(a, vec![1], String::new(), T0), 0);
    assert_eq!(cache.lookup_at(a, T0 + 60), None);
    assert_eq!(cache.len(), 0);
    assert_eq!(cache.populate_at(a, vec![2], String::new(), T0 + 61), 1);
    assert!(cache.entry(0).is_none());
    assert_eq!(cache.entry(1).unwrap().payload, vec![2]);
}

#[test]
fn second_request_for_a_place_is_not_fetched() {
    let mut cache = ProximityCache::new(3600, 10_000);
    let mut fetches = Vec::new();
    let here = grid_point(48.8566, 2.3522);
    let first = resolve(&mut cache, here, T0, &mut fetches, b"paris");
    let second = resolve(&mut cache, here, T0, &mut fetches, b"other");
    assert_eq!(fetches.len(), 1);
    assert_eq!(first, b"paris");
    assert_eq!(second, first);
    assert_eq!(cache.len(), 1);
}

#[test]
fn hit_leaves_the_cache_as_it_was() {
    let mut cache: ProximityCache<Vec<u8>, String> = ProximityCache::new(3600, 10_000);
    let here = grid_point(48.8566, 2.3522);
    let key = cache.populate_at(here, vec![9, 9], String::from("Paris"), T0);
    for later in [0, 1, 1800, 3599] {
        assert_eq!(cache.lookup_at(here, T0 + later), Some(key));
        assert_eq!(cache.len(), 1);
        let entry = cache.entry(key).unwrap();
        assert_eq!(entry.payload, vec![9, 9]);
        assert_eq!(entry.metadata, "Paris");
        assert_eq!(entry.expiry, T0 + 3600);
    }
}

#[test]
fn nearby_place_reuses_the_result() {
    let mut cache = ProximityCache::new(3600, 10_000);
    let mut fetches = Vec::new();
    // About 5.6 km apart.
    let c1 = grid_point(51.50, -0.12);
    let c2 = grid_point(51.55, -0.12);
    let first = resolve(&mut cache, c1, T0, &mut fetches, b"london");
    let second = resolve(&mut cache, c2, T0 + 1, &mut fetches, b"other");
    assert_eq!(fetches.len(), 1);
    assert_eq!(second, first);
}

#[test]
fn distant_place_is_fetched() {
    let mut cache = ProximityCache::new(3600, 10_000);
    let mut fetches = Vec::new();
    // About 11.1 km apart.
    let c1 = grid_point(51.50, -0.12);
    let c2 = grid_point(51.60, -0.12);
    let first = resolve(&mut cache, c1, T0, &mut fetches, b"london");
    let second = resolve(&mut cache, c2, T0 + 1, &mut fetches, b"barnet");
    assert_eq!(fetches.len(), 2);
    assert_eq!(first, b"london");
    assert_eq!(second, b"barnet");
    assert_eq!(cache.len(), 2);
}

#[test]
fn threshold_is_exclusive() {
    // Two points 10 000 m apart by the grid: a threshold of 10 000 m does
    // not reach, one of 10 001 m does.
    let a = Point::new(1_000_000, 1_000_000, 1_000_000).unwrap();
    let b = Point::new(1_000_000 + 26_334, 1_000_000, 1_000_000).unwrap();
    assert_eq!(weathurber::geometry::chord_distance_metres(&a, &b), 10_000);
    let mut at_threshold: ProximityCache<Vec<u8>, String> = ProximityCache::new(3600, 10_000);
    at_threshold.populate_at(a, vec![1], String::new(), T0);
    assert_eq!(at_threshold.lookup_at(b, T0), None);
    assert_eq!(at_threshold.len(), 1);
    let mut above: ProximityCache<Vec<u8>, String> = ProximityCache::new(3600, 10_001);
    let key = above.populate_at(a, vec![1], String::new(), T0);
    assert_eq!(above.lookup_at(b, T0), Some(key));
}

#[test]
fn threshold_of_nothing_never_hits() {
    let mut cache: ProximityCache<Vec<u8>, String> = ProximityCache::new(3600, 0);
    let here = grid_point(1.0, 1.0);
    cache.populate_at(here, vec![1], String::new(), T0);
    assert_eq!(cache.lookup_at(here, T0), None);
    assert_eq!(cache.len(), 1);
}

#[test]
fn stale_result_is_fetched_again() {
    let mut cache = ProximityCache::new(3600, 10_000);
    let mut fetches = Vec::new();
    let here = grid_point(35.6762, 139.6503);
    let first = resolve(&mut cache, here, T0, &mut fetches, b"tokyo");
    let second = resolve(&mut cache, here, T0 + 3600 + 1, &mut fetches, b"tokyo again");
    assert_eq!(fetches.len(), 2);
    assert_eq!(first, b"tokyo");
    assert_eq!(second, b"tokyo again");
    // The stale entry was removed and replaced, not edited in place.
    assert_eq!(cache.len(), 1);
    assert!(cache.entry(0).is_none());
    assert_eq!(cache.entry(1).unwrap().expiry, T0 + 3601 + 3600);
}

#[test]
fn entry_is_stale_from_its_expiry_time_on() {
    let mut cache: ProximityCache<Vec<u8>, String> = ProximityCache::new(3600, 10_000);
    let here = grid_point(35.6762, 139.6503);
    let key = cache.populate_at(here, vec![1], String::new(), T0);
    assert_eq!(cache.lookup_at(here, T0 + 3599), Some(key));
    assert_eq!(cache.len(), 1);
    assert_eq!(cache.lookup_at(here, T0 + 3600), None);
    assert_eq!(cache.len(), 0);
    assert_eq!(cache.lookup_at(here, T0), None);
}

#[test]
fn stale_entry_out_of_reach_stays() {
    let mut cache: ProximityCache<Vec<u8>, String> = ProximityCache::new(10, 10_000);
    let far = grid_point(0.0, 0.0);
    cache.populate_at(far, vec![1], String::new(), T0);
    assert_eq!(cache.lookup_at(grid_point(45.0, 45.0), T0 + 100), None);
    assert_eq!(cache.len(), 1);
}

#[test]
fn zero_time_to_live_never_hits() {
    let mut cache: ProximityCache<Vec<u8>, String> = ProximityCache::new(0, 10_000);
    let here = grid_point(1.0, 1.0);
    cache.populate_at(here, vec![1], String::new(), T0);
    assert_eq!(cache.lookup_at(here, T0), None);
    assert_eq!(cache.len(), 0);
}

#[test]
fn nearest_entry_answers() {
    let mut cache: ProximityCache<Vec<u8>, String> = ProximityCache::new(3600, 10_000);
    let a = grid_point(40.00, -74.00);
    let b = grid_point(40.05, -74.00);
    let ka = cache.populate_at(a, vec![1], String::from("a"), T0);
    let kb = cache.populate_at(b, vec![2], String::from("b"), T0);
    assert_eq!(cache.lookup_at(grid_point(40.01, -74.00), T0 + 1), Some(ka));
    assert_eq!(cache.lookup_at(grid_point(40.04, -74.00), T0 + 1), Some(kb));
}

#[test]
fn stale_nearest_entry_hides_a_fresh_one_once() {
    let mut cache: ProximityCache<Vec<u8>, String> = ProximityCache::new(100, 10_000);
    let a = grid_point(40.00, -74.00);
    let b = grid_point(40.05, -74.00);
    let _old = cache.populate_at(a, vec![1], String::new(), T0);
    let new = cache.populate_at(b, vec![2], String::new(), T0 + 90);
    // The nearest entry is stale: it is evicted, and the lookup is a miss.
    assert_eq!(cache.lookup_at(grid_point(40.01, -74.00), T0 + 120), None);
    assert_eq!(cache.len(), 1);
    // Now the fresh one is the nearest.
    assert_eq!(cache.lookup_at(grid_point(40.01, -74.00), T0 + 120), Some(new));
}

#[test]
fn san_francisco_then_los_angeles() {
    let mut cache = ProximityCache::new(3600, 10_000);
    let mut fetches = Vec::new();
    let san_francisco = grid_point(37.7749, -122.4194);
    let r1 = resolve(&mut cache, san_francisco, T0, &mut fetches, b"R1");
    assert_eq!(fetches.len(), 1);
    assert_eq!(cache.entry(0).unwrap().expiry, T0 + 3600);
    let again = resolve(&mut cache, grid_point(37.7750, -122.4195), T0 + 10, &mut fetches, b"no");
    assert_eq!(again, r1);
    assert_eq!(fetches.len(), 1);
    assert_eq!(cache.len(), 1);
    let los_angeles = grid_point(34.0522, -118.2437);
    let r2 = resolve(&mut cache, los_angeles, T0 + 20, &mut fetches, b"R2");
    assert_eq!(r2, b"R2");
    assert_eq!(fetches.len(), 2);
    assert_eq!(cache.len(), 2);
    assert_eq!(cache.entry(1).unwrap().point, los_angeles);
    assert_eq!(cache.entry(1).unwrap().expiry, T0 + 20 + 3600);
}

#[test]
fn admits_until_expiry_cannot_be_told() {
    let cache: ProximityCache<Vec<u8>, String> = ProximityCache::new(3600, 10_000);
    assert!(cache.can_admit(i64::MAX - 3600));
    assert!(!cache.can_admit(i64::MAX - 3599));
    assert!(cache.can_admit(i64::MIN));
}

#[test]
fn crowded_latitude_is_cached_beside_it() {
    let mut cache: ProximityCache<Vec<u8>, String> = ProximityCache::new(3600, 10_000);
    let mut fetches = Vec::new();
    // Sixteen places on one latitude share their height on the sphere.
    for i in 0..16 {
        let p = grid_point(37.7749, -170.0 + 20.0 * i as f64);
        let key = cache.populate_at(p, vec![i as u8], String::new(), T0);
        assert_eq!(cache.entry(key).unwrap().point, p);
    }
    // The seventeenth goes one grid step higher, a third of a metre away.
    let here = grid_point(37.7749, 175.0);
    let first = resolve(&mut cache, here, T0, &mut fetches, b"seventeenth");
    assert_eq!(fetches.len(), 1);
    let placed = cache.entry(16).unwrap().point;
    assert_eq!(placed, Point { x: here.x, y: here.y, z: here.z + 1 });
    assert_eq!(weathurber::geometry::chord_distance_metres(&here, &placed), 0);
    // The next request for the place is answered from it.
    let second = resolve(&mut cache, here, T0 + 1, &mut fetches, b"never");
    assert_eq!(fetches.len(), 1);
    assert_eq!(second, first);
    assert_eq!(cache.len(), 17);
    // And the one after it steps to the other side.
    let there = grid_point(37.7749, 165.0);
    let key = cache.populate_at(there, vec![], String::new(), T0);
    assert_eq!(cache.entry(key).unwrap().point.z, there.z + 1);
    for i in 0..14 {
        let p = grid_point(37.7749, -165.0 + 20.0 * i as f64);
        let key = cache.populate_at(p, vec![], String::new(), T0);
        assert_eq!(cache.entry(key).unwrap().point.z, p.z + 1);
    }
    let last = grid_point(37.7749, 155.0);
    let key = cache.populate_at(last, vec![], String::new(), T0);
    assert_eq!(cache.entry(key).unwrap().point.z, last.z - 1);
}

#[test]
fn peek_answers_as_a_lookup_and_changes_nothing() {
    let mut cache: ProximityCache<Vec<u8>, String> = ProximityCache::new(100, 10_000);
    let here = grid_point(59.3293, 18.0686);
    assert_eq!(cache.peek_at(here, T0), None);
    let key = cache.populate_at(here, vec![1], String::from("Stockholm"), T0);
    assert_eq!(cache.peek_at(here, T0 + 99), Some(key));
    assert_eq!(cache.peek_at(grid_point(59.35, 18.07), T0 + 99), Some(key));
    assert_eq!(cache.peek_at(grid_point(60.0, 18.07), T0 + 99), None);
    // A stale entry is not answered from, and stays.
    assert_eq!(cache.peek_at(here, T0 + 100), None);
    assert_eq!(cache.len(), 1);
    assert_eq!(cache.peek_at(here, T0 + 50), Some(key));
    // A lookup evicts it.
    assert_eq!(cache.lookup_at(here, T0 + 100), None);
    assert_eq!(cache.len(), 0);
    assert_eq!(cache.peek_at(here, T0 + 50), None);
}

#[test]
fn peek_by_the_clock() {
    let mut cache: ProximityCache<Vec<u8>, String> = ProximityCache::new(3600, 10_000);
    let here = grid_point(59.3293, 18.0686);
    assert_eq!(cache.peek(here), None);
    let key = cache.populate(here, vec![1], String::new()).unwrap();
    assert_eq!(cache.peek(here), Some(key));
    assert_eq!(cache.len(), 1);
}

#[test]
fn lookup_and_populate_by_the_clock() {
    let mut cache: ProximityCache<Vec<u8>, String> = ProximityCache::new(3600, 10_000);
    let here = grid_point(52.52, 13.405);
    assert_eq!(cache.lookup(here), None);
    let key = cache.populate(here, vec![4, 2], String::from("Berlin")).unwrap();
    assert_eq!(key, 0);
    assert_eq!(cache.lookup(here), Some(key));
    let entry = cache.entry(key).unwrap();
    assert_eq!(entry.payload, vec![4, 2]);
    // The entry expires an hour from now: the clock tells the present.
    assert!(entry.expiry > 1_700_000_000 + 3600);
    assert_eq!(cache.lookup_at(here, entry.expiry), None);
}

#[test]
fn populate_by_the_clock_stores_while_keys_are_left() {
    let mut cache: ProximityCache<Vec<u8>, String> = ProximityCache::new(3600, 10_000);
    for i in 0..40 {
        let p = grid_point(10.0, -170.0 + 5.0 * i as f64);
        assert_eq!(cache.populate(p, vec![], String::new()), Some(i));
    }
    assert_eq!(cache.len(), 40);
    // The clock tells a time of this age.
    let expiry = cache.entry(39).unwrap().expiry;
    assert!(expiry > 1_700_000_000 + 3600);
    assert!(expiry < 185_542_587_187_200);
}

#[test]
fn many_places() {
    let mut cache: ProximityCache<Vec<u8>, String> = ProximityCache::new(3600, 10_000);
    let mut fetches = Vec::new();
    let mut places = Vec::new();
    for i in 0..400 {
        let lat = -60.0 + 0.3 * i as f64;
        let lon = -179.0 + 0.89 * i as f64;
        places.push(grid_point(lat, lon));
    }
    for (i, p) in places.iter().enumerate() {
        resolve(&mut cache, *p, T0 + i as i64, &mut fetches, &[i as u8]);
    }
    assert_eq!(fetches.len(), 400);
    for (i, p) in places.iter().enumerate() {
        let answer = resolve(&mut cache, *p, T0 + 1000, &mut fetches, b"never");
        assert_eq!(answer, vec![i as u8]);
    }
    assert_eq!(fetches.len(), 400);
    assert_eq!(cache.len(), 400);
}

#[test]
fn default_cache_has_the_default_settings() {
    let cache: ProximityCache<Vec<u8>, String> = ProximityCache::default();
    assert_eq!(cache.ttl_seconds(), 3600);
    assert_eq!(cache.threshold_metres(), 10_000);
    assert_eq!(cache.len(), 0);
    let configured: ProximityCache<Vec<u8>, String> = ProximityCache::new(60, 2_500);
    assert_eq!(configured.ttl_seconds(), 60);
    assert_eq!(configured.threshold_metres(), 2_500);
}

#[test]
fn two_misses_for_one_place_populate_twice() {
    // Two requests for one place that both missed before either populated.
    let mut cache: ProximityCache<Vec<u8>, String> = ProximityCache::new(3600, 10_000);
    let here = grid_point(-33.8688, 151.2093);
    assert_eq!(cache.lookup_at(here, T0), None);
    assert_eq!(cache.lookup_at(here, T0), None);
    let first = cache.populate_at(here, b"sydney".to_vec(), String::new(), T0 + 1);
    let second = cache.populate_at(here, b"sydney".to_vec(), String::new(), T0 + 2);
    assert_ne!(first, second);
    assert_eq!(cache.len(), 2);
    let hit = cache.lookup_at(here, T0 + 3).unwrap();
    assert!(hit == first || hit == second);
    assert_eq!(cache.entry(hit).unwrap().payload, b"sydney");
    assert_eq!(cache.len(), 2);
}

#[test]
fn failed_fetch_leaves_the_cache_as_it_was() {
    // After a miss the caller fetches; where the fetch fails, nothing is
    // populated, and the next request misses again.
    let mut cache: ProximityCache<Vec<u8>, String> = ProximityCache::new(3600, 10_000);
    let here = grid_point(55.7558, 37.6173);
    assert_eq!(cache.lookup_at(here, T0), None);
    assert_eq!(cache.len(), 0);
    assert_eq!(cache.lookup_at(here, T0 + 1), None);
    assert!(cache.can_admit(T0 + 1));
}

/// What the cache holds, kept as a plain list and searched from end to end.
struct PlainList {
    entries: Vec<(u64, Point, i64)>,
    next_key: u64,
    ttl: i64,
    threshold: u64,
}

impl PlainList {
    /// The answer of a lookup, or nothing where two nearest entries tie.
    fn lookup_at(&mut self, query: Point, now: i64) -> Option<Option<u64>> {
        if self.entries.is_empty() {
            return Some(None);
        }
        let best = self.entries.iter().map(|e| query.squared_chord(&e.1)).min().unwrap();
        let nearest: Vec<usize> = (0..self.entries.len())
            .filter(|i| query.squared_chord(&self.entries[*i].1) == best)
            .collect();
        if nearest.len() > 1 {
            return None;
        }
        let (key, _, expiry) = self.entries[nearest[0]];
        if weathurber::geometry::chord_to_metres(best) >= self.threshold {
            Some(None)
        } else if expiry > now {
            Some(Some(key))
        } else {
            self.entries.remove(nearest[0]);
            Some(None)
        }
    }

    fn populate_at(&mut self, point: Point, now: i64) -> u64 {
        let key = self.next_key;
        self.entries.push((key, point, now + self.ttl));
        self.next_key += 1;
        key
    }
}

#[test]
fn cache_agrees_with_a_plain_list() {
    let mut seed: u64 = 0x2545_f491_4f6c_dd1d;
    let mut next = |bound: u64| {
        seed ^= seed << 13;
        seed ^= seed >> 7;
        seed ^= seed << 17;
        seed % bound
    };
    for round in 0..20 {
        let ttl = 50 + 40 * round as u32;
        let threshold = 2_000 + 3_000 * round as u64;
        let mut cache: ProximityCache<Vec<u8>, String> = ProximityCache::new(ttl, threshold);
        let mut list = PlainList { entries: Vec::new(), next_key: 0, ttl: ttl as i64, threshold };
        let mut now = T0;
        for _ in 0..600 {
            now += next(30) as i64;
            // Places within some tens of kilometres of each other.
            let lat = 40.0 + next(4_000) as f64 / 10_000.0;
            let lon = -3.0 + next(4_000) as f64 / 10_000.0;
            let query = grid_point(lat, lon);
            let expected = match list.lookup_at(query, now) {
                Some(answer) => answer,
                None => continue,
            };
            let found = cache.lookup_at(query, now);
            assert_eq!(found, expected);
            assert_eq!(cache.len(), list.entries.len());
            if found.is_none() && cache.can_admit(now) {
                let key = cache.populate_at(query, vec![round as u8], String::new(), now);
                let placed = cache.entry(key).unwrap().point;
                assert_eq!(key, list.populate_at(placed, now));
                assert_eq!(cache.entry(key).unwrap().expiry, now + ttl as i64);
            }
        }
        for (key, point, expiry) in &list.entries {
            let entry = cache.entry(*key).unwrap();
            assert_eq!(entry.point, *point);
            assert_eq!(entry.expiry, *expiry);
        }
    }
}
