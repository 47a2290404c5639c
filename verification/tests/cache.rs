use lamport_sdk::utils::cache::TtlCache;

#[test]
fn read_after_write_until_expiry() {
    let mut cache: TtlCache<u64> = TtlCache::new(100);
    cache.set("mint".to_string(), 42, 1_000);
    assert_eq!(cache.get("mint", 1_000), Some(42));
    assert_eq!(cache.get("mint", 1_099), Some(42));
    assert_eq!(cache.get("mint", 1_100), None);
    assert_eq!(cache.get("mint", 5_000), None);
    // A reading taken before the write counts as no time elapsed.
    assert_eq!(cache.get("mint", 10), Some(42));
    assert_eq!(cache.get("other", 1_000), None);
}

#[test]
fn overwrite_replaces_value_and_time() {
    let mut cache: TtlCache<String> = TtlCache::new(10);
    cache.set("k".to_string(), "old".to_string(), 0);
    cache.set("k".to_string(), "new".to_string(), 50);
    assert_eq!(cache.get("k", 55), Some("new".to_string()));
    assert_eq!(cache.get("k", 60), None);
}

#[test]
fn writes_leave_other_keys_alone() {
    let mut cache: TtlCache<u32> = TtlCache::new(1_000);
    cache.set("a".to_string(), 1, 0);
    cache.set("b".to_string(), 2, 0);
    cache.set("a".to_string(), 3, 0);
    assert_eq!(cache.get("a", 1), Some(3));
    assert_eq!(cache.get("b", 1), Some(2));
}

#[test]
fn invalidate_and_clear() {
    let mut cache: TtlCache<u32> = TtlCache::new(1_000);
    cache.set("a".to_string(), 1, 0);
    cache.set("b".to_string(), 2, 0);
    cache.set("c".to_string(), 3, 0);
    cache.invalidate("b");
    assert_eq!(cache.get("b", 1), None);
    assert_eq!(cache.get("a", 1), Some(1));
    assert_eq!(cache.get("c", 1), Some(3));
    cache.invalidate("missing");
    assert_eq!(cache.get("a", 1), Some(1));
    cache.clear();
    assert_eq!(cache.get("a", 1), None);
    assert_eq!(cache.get("c", 1), None);
}

#[test]
fn cleanup_removes_only_expired_entries() {
    let mut cache: TtlCache<u32> = TtlCache::new(100);
    cache.set("early".to_string(), 1, 0);
    cache.set("late".to_string(), 2, 80);
    cache.set("mid".to_string(), 3, 40);
    cache.cleanup_expired(120);
    assert_eq!(cache.get("early", 120), None);
    assert_eq!(cache.get("mid", 120), Some(3));
    assert_eq!(cache.get("late", 120), Some(2));
    // Reads later still agree with what they were before the cleanup.
    assert_eq!(cache.get("mid", 140), None);
    assert_eq!(cache.get("late", 179), Some(2));
    // An expired entry does not come back, even for a reading taken earlier.
    assert_eq!(cache.get("early", 50), None);
}

#[test]
fn zero_ttl_keeps_nothing() {
    let mut cache: TtlCache<u32> = TtlCache::new(0);
    cache.set("k".to_string(), 1, 10);
    assert_eq!(cache.get("k", 10), None);
    assert_eq!(cache.get("k", 0), None);
}
