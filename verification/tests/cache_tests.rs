use depstatus::cache::{GetOutcome, MemoizingCache};

fn key(s: &str) -> String {
    s.to_string()
}

#[test]
fn single_flight_coalesces_concurrent_callers() {
    let mut cache: MemoizingCache<String> = MemoizingCache::new(None, 10);
    // First caller must start the computation ...
    assert!(matches!(cache.get(&key("k"), 0), GetOutcome::MustCompute));
    // ... and every caller arriving while it is in flight waits instead of
    // starting a second one.
    assert!(matches!(cache.get(&key("k"), 1), GetOutcome::Wait));
    assert!(matches!(cache.get(&key("k"), 2), GetOutcome::Wait));
    assert!(matches!(cache.get(&key("k"), 3), GetOutcome::Wait));
    // The one computation completes; everyone sees its single result.
    cache.complete(&key("k"), "value".to_string(), 4);
    match cache.get(&key("k"), 5) {
        GetOutcome::Hit(v) => assert_eq!(v, "value"),
        other => panic!("expected a hit, got {:?}", outcome_name(&other)),
    }
}

fn outcome_name<V>(o: &GetOutcome<V>) -> &'static str {
    match o {
        GetOutcome::Hit(_) => "Hit",
        GetOutcome::Wait => "Wait",
        GetOutcome::MustCompute => "MustCompute",
    }
}

#[test]
fn failed_computation_is_not_cached() {
    let mut cache: MemoizingCache<String> = MemoizingCache::new(None, 10);
    assert!(matches!(cache.get(&key("k"), 0), GetOutcome::MustCompute));
    cache.fail(&key("k"));
    // The next caller triggers a fresh attempt.
    assert!(matches!(cache.get(&key("k"), 1), GetOutcome::MustCompute));
}

#[test]
fn entry_within_ttl_is_served_without_recomputation() {
    let mut cache: MemoizingCache<u64> = MemoizingCache::new(Some(10), 10);
    assert!(matches!(cache.get(&key("k"), 0), GetOutcome::MustCompute));
    cache.complete(&key("k"), 7, 0);
    match cache.get(&key("k"), 10) {
        GetOutcome::Hit(v) => assert_eq!(v, 7),
        _ => panic!("an entry within its time-to-live must answer itself"),
    }
}

#[test]
fn entry_older_than_ttl_triggers_recomputation() {
    let mut cache: MemoizingCache<u64> = MemoizingCache::new(Some(10), 10);
    assert!(matches!(cache.get(&key("k"), 0), GetOutcome::MustCompute));
    cache.complete(&key("k"), 7, 0);
    assert!(matches!(cache.get(&key("k"), 11), GetOutcome::MustCompute));
}

#[test]
fn eviction_takes_the_least_recently_used_ready_entry() {
    let mut cache: MemoizingCache<u64> = MemoizingCache::new(None, 2);
    assert!(matches!(cache.get(&key("a"), 0), GetOutcome::MustCompute));
    cache.complete(&key("a"), 1, 1);
    assert!(matches!(cache.get(&key("b"), 2), GetOutcome::MustCompute));
    cache.complete(&key("b"), 2, 3);
    // Touch `a`, making `b` the least recently used ready entry.
    assert!(matches!(cache.get(&key("a"), 4), GetOutcome::Hit(_)));
    // Inserting a third key evicts `b`, not `a`.
    assert!(matches!(cache.get(&key("c"), 5), GetOutcome::MustCompute));
    assert!(matches!(cache.get(&key("a"), 6), GetOutcome::Hit(_)));
    assert!(matches!(cache.get(&key("b"), 7), GetOutcome::MustCompute));
}

#[test]
fn pending_entries_survive_eviction_pressure() {
    let mut cache: MemoizingCache<u64> = MemoizingCache::new(None, 2);
    assert!(matches!(cache.get(&key("a"), 0), GetOutcome::MustCompute));
    cache.complete(&key("a"), 1, 1);
    // `p` is pending and fills the map.
    assert!(matches!(cache.get(&key("p"), 2), GetOutcome::MustCompute));
    // Inserting beyond capacity evicts the ready `a`, never the pending `p`.
    assert!(matches!(cache.get(&key("c"), 3), GetOutcome::MustCompute));
    assert!(matches!(cache.get(&key("p"), 4), GetOutcome::Wait));
    assert!(matches!(cache.get(&key("a"), 5), GetOutcome::MustCompute));
}

#[test]
fn capacity_one_holds_the_latest_entry() {
    let mut cache: MemoizingCache<u64> = MemoizingCache::new(Some(10), 1);
    assert!(matches!(cache.get(&key("x"), 0), GetOutcome::MustCompute));
    cache.complete(&key("x"), 5, 0);
    assert!(matches!(cache.get(&key("x"), 5), GetOutcome::Hit(_)));
    assert!(matches!(cache.get(&key("y"), 6), GetOutcome::MustCompute));
    cache.complete(&key("y"), 6, 6);
    assert!(matches!(cache.get(&key("y"), 7), GetOutcome::Hit(_)));
    assert!(matches!(cache.get(&key("x"), 8), GetOutcome::MustCompute));
}
