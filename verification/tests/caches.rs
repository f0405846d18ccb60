use tilestream::InFlightState;
use tilestream::InFlightTable;
use tilestream::NetQueue;
use tilestream::TextureCache;
use tilestream::TilePos;

fn addr(n: u32) -> TilePos {
    TilePos { z: 10, x: n, y: 2 * n + 1, m: 0 }
}

#[test]
fn texture_cache_hit_and_miss() {
    let mut c = TextureCache::new(8);
    assert_eq!(c.probe(&addr(1)), None);
    assert_eq!(c.insert(&addr(1), 101), None);
    assert_eq!(c.probe(&addr(1)), Some(101));
    assert_eq!(c.probe(&addr(2)), None);
    assert_eq!(c.len(), 1);
}

#[test]
fn texture_cache_update_returns_old_handle() {
    let mut c = TextureCache::new(8);
    assert_eq!(c.insert(&addr(1), 101), None);
    let displaced = c.insert(&addr(1), 201);
    assert_eq!(displaced.map(|(_, h)| h), Some(101));
    assert_eq!(c.probe(&addr(1)), Some(201));
    assert_eq!(c.len(), 1);
}

#[test]
fn texture_cache_evicts_least_recent_once() {
    // Over-filling a two-entry cache: exactly two entries remain and the
    // displaced handle comes back exactly once, for release.
    let mut c = TextureCache::new(2);
    assert_eq!(c.insert(&addr(1), 101), None);
    assert_eq!(c.insert(&addr(2), 102), None);
    let displaced = c.insert(&addr(3), 103);
    assert_eq!(displaced.map(|(_, h)| h), Some(101));
    assert_eq!(c.len(), 2);
    assert_eq!(c.probe(&addr(1)), None);
    assert_eq!(c.probe(&addr(2)), Some(102));
    assert_eq!(c.probe(&addr(3)), Some(103));
}

#[test]
fn texture_cache_fill_beyond_capacity() {
    // M = 5 distinct addresses into capacity 3: 3 remain, the first two
    // handles are displaced, each exactly once, in insertion order.
    let mut c = TextureCache::new(3);
    let mut released = Vec::new();
    for n in 0..5u32 {
        if let Some((_, h)) = c.insert(&addr(n), 100 + n as u64) {
            released.push(h);
        }
    }
    assert_eq!(c.len(), 3);
    assert_eq!(released, vec![100, 101]);
    assert_eq!(c.probe(&addr(0)), None);
    assert_eq!(c.probe(&addr(1)), None);
    for n in 2..5u32 {
        assert_eq!(c.probe(&addr(n)), Some(100 + n as u64));
    }
}

#[test]
fn texture_cache_probe_refreshes_recency() {
    let mut c = TextureCache::new(2);
    c.insert(&addr(1), 101);
    c.insert(&addr(2), 102);
    assert_eq!(c.probe(&addr(1)), Some(101));
    // Address 2 is now the least recent and leaves first.
    let displaced = c.insert(&addr(3), 103);
    assert_eq!(displaced.map(|(_, h)| h), Some(102));
    assert_eq!(c.probe(&addr(1)), Some(101));
}

#[test]
fn texture_cache_distinct_sources_are_distinct_entries() {
    let mut c = TextureCache::new(8);
    let osm = TilePos { z: 3, x: 1, y: 1, m: 0 };
    let esri = TilePos { z: 3, x: 1, y: 1, m: 1 };
    c.insert(&osm, 11);
    c.insert(&esri, 22);
    assert_eq!(c.probe(&osm), Some(11));
    assert_eq!(c.probe(&esri), Some(22));
    assert_eq!(c.len(), 2);
}

#[test]
fn in_flight_table_suppresses_duplicates() {
    // Submitting the same address repeatedly while it is requested never
    // grants a second fetch.
    let mut t = InFlightTable::new(64);
    assert!(t.try_submit(&addr(1)));
    for _ in 0..10 {
        assert!(!t.try_submit(&addr(1)));
    }
    assert_eq!(t.status(&addr(1)), Some(InFlightState::Requested));
}

#[test]
fn in_flight_table_tracks_addresses_independently() {
    let mut t = InFlightTable::new(64);
    assert!(t.try_submit(&addr(1)));
    assert!(t.try_submit(&addr(2)));
    assert!(!t.try_submit(&addr(1)));
    assert!(!t.try_submit(&addr(2)));
}

#[test]
fn in_flight_table_resolved_and_expired_allow_refetch() {
    let mut t = InFlightTable::new(64);
    assert!(t.try_submit(&addr(1)));
    t.set(&addr(1), InFlightState::Resolved);
    assert!(t.try_submit(&addr(1)));
    t.set(&addr(1), InFlightState::Expired);
    assert!(t.try_submit(&addr(1)));
    t.set(&addr(1), InFlightState::ApproximationSent);
    assert!(!t.try_submit(&addr(1)));
}

#[test]
fn in_flight_table_eviction_permits_duplicate() {
    // A burst of distinct addresses pushes the oldest entry out of the
    // bounded table; a duplicate of it is then granted again.
    let mut t = InFlightTable::new(4);
    assert!(t.try_submit(&addr(0)));
    for n in 1..5u32 {
        assert!(t.try_submit(&addr(n)));
    }
    assert_eq!(t.status(&addr(0)), None);
    assert!(t.try_submit(&addr(0)));
}

#[test]
fn net_queue_pops_most_recent_first() {
    let mut q = NetQueue::new();
    q.push(addr(1));
    q.push(addr(2));
    q.push(addr(3));
    assert_eq!(q.pop(), Some(addr(3)));
    assert_eq!(q.pop(), Some(addr(2)));
    assert_eq!(q.pop(), Some(addr(1)));
    assert_eq!(q.pop(), None);
}

#[test]
fn net_queue_drops_oldest_beyond_bound() {
    let mut q = NetQueue::new();
    for n in 0..70u32 {
        q.push(addr(n));
    }
    assert_eq!(q.len(), 64);
    let mut last = None;
    while let Some(t) = q.pop() {
        last = Some(t);
    }
    // The six oldest were dropped; the oldest survivor is the seventh.
    assert_eq!(last, Some(addr(6)));
}
