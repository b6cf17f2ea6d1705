use gust_cache::{generate_hash, CacheError, GustCache, MAX_BYTE_SIZE};

// 2023-11-14T22:13:20Z, in milliseconds
const NOW: i64 = 1_700_000_000_000;

fn failure_fn() -> Result<String, CacheError> {
    Ok("failure-fn".to_string())
}

fn failed_insert_fn() -> Result<String, CacheError> {
    Ok("failure-insert".to_string())
}

fn failing_fn() -> Result<String, CacheError> {
    Err(CacheError::Read("unreachable backend".to_string()))
}

#[test]
fn invalidate_successfull() {
    let mut cache: GustCache<String> = GustCache::from_ttl(1000);

    cache.insert(&1, "value 1".into(), NOW);
    cache.insert(&2, "value 2".into(), NOW);
    cache.insert(&3, "value 3".into(), NOW);

    cache.invalidate();
    let size = cache.size();

    assert_eq!(0, size);
}

#[test]
fn invalidate_then_get_or_computes() {
    let mut cache: GustCache<String> = GustCache::from_ttl(60_000);
    cache.insert(&1, "value 1".into(), NOW);
    cache.insert(&2, "value 2".into(), NOW);
    cache.insert(&3, "value 3".into(), NOW);
    cache.invalidate();
    assert_eq!(cache.ttl(), 60_000);
    let result = cache.get_or(&2, NOW, || failure_fn()).unwrap();
    assert_eq!("failure-fn".to_string(), result);
}

#[test]
fn get_or_executes_failure_fn() {
    let mut cache: GustCache<String> = GustCache::from_ttl(1000);
    cache.insert(&2, "cache-value".into(), NOW);
    let result = cache.get_or(&1, NOW, || failure_fn()).unwrap();

    assert_eq!("failure-fn".to_string(), result);
}

#[test]
fn get_or_hits_cache() {
    // Manual insert
    let mut cache: GustCache<String> = GustCache::from_ttl(1000);
    cache.insert(&1, "manual-insert".to_string(), NOW);
    let result = cache.get_or(&1, NOW, || failure_fn()).unwrap();

    assert_eq!("manual-insert".to_string(), result);

    // Insert by failed hit
    cache.get_or(&10, NOW, || failed_insert_fn()).unwrap();
    let result = cache.get_or(&10, NOW, || failure_fn()).unwrap();

    assert_eq!("failure-insert".to_string(), result);
}

#[test]
fn cleanup_task_should_be_empty() {
    let mut cache: GustCache<String> = GustCache::from_ttl(1000);

    cache.insert_at(generate_hash(&1), "value 1".into(), 0);
    cache.insert_at(generate_hash(&2), "value 2".into(), 0);
    cache.insert_at(generate_hash(&3), "value 3".into(), 0);

    cache.sweep_expired(2000);
    let size = cache.size();

    assert_eq!(0, size);
}

#[test]
fn cleanup_task_should_not_empty() {
    let mut cache: GustCache<String> = GustCache::from_ttl(2000);

    cache.insert(&1, "value 1".into(), NOW);
    cache.insert(&2, "value 2".into(), NOW);
    cache.insert(&3, "value 3".into(), NOW);
    let size = cache.size();

    assert_eq!(3, size);
}

#[test]
fn sweep_before_ttl_keeps_entries() {
    let mut cache: GustCache<String> = GustCache::from_ttl(2000);
    cache.insert_at(1, "value 1".into(), 10_000);
    cache.insert_at(2, "value 2".into(), 10_000);
    cache.insert_at(3, "value 3".into(), 10_000);
    cache.sweep_expired(11_000);
    assert_eq!(3, cache.size());
    cache.sweep_expired(11_999);
    assert_eq!(3, cache.size());
    cache.sweep_expired(12_000);
    assert_eq!(0, cache.size());
}

#[test]
fn sweep_removes_only_expired() {
    let mut cache: GustCache<&str> = GustCache::from_ttl(1000);
    cache.insert_at(1, "old", 0);
    cache.insert_at(2, "new", 900);
    cache.sweep_expired(1500);
    assert_eq!(1, cache.size());
    assert_eq!(None, cache.try_get_at(1));
    assert_eq!(Some("new"), cache.try_get_at(2));
}

#[test]
fn insert_and_get_successfull() {
    // Insert
    let mut cache: GustCache<String> = GustCache::new();
    cache.insert(&1, "manual-insert".to_string(), NOW);
    let size = cache.size();

    assert_eq!(1, size);

    // Get
    let result = cache.try_get(&1).unwrap();
    assert_eq!(result, "manual-insert".to_string());
}

#[test]
fn get_should_be_none() {
    let cache: GustCache<String> = GustCache::new();
    let result = cache.try_get(&1);

    assert!(result.is_none());
}

#[test]
fn default_ttl_is_two_minutes() {
    let cache: GustCache<String> = GustCache::new();
    assert_eq!(120_000, cache.ttl());
}

#[test]
fn insert_stamps_given_time() {
    let mut cache: GustCache<u8> = GustCache::new();
    cache.insert(&"key", 7, NOW);
    let stamps = cache.timestamps();
    assert_eq!(vec![(generate_hash(&"key"), NOW)], stamps);
}

#[test]
fn read_within_ttl_hits_and_restamps() {
    let mut cache: GustCache<&str> = GustCache::from_ttl(1000);
    cache.insert_at(5, "cache-hit", 100);
    assert_eq!(Some("cache-hit"), cache.get_at(5, 1099));
    assert_eq!(vec![(5u64, 1099i64)], cache.timestamps());
}

#[test]
fn read_after_ttl_misses_and_keeps_stale_entry() {
    let mut cache: GustCache<&str> = GustCache::from_ttl(1000);
    cache.insert_at(5, "stale", 100);
    assert_eq!(None, cache.get_at(5, 1100));
    assert_eq!(vec![(5u64, 100i64)], cache.timestamps());
    // the lookup without expiry still sees it
    assert_eq!(Some("stale"), cache.try_get_at(5));
}

#[test]
fn sliding_refresh_keeps_entry_alive() {
    let mut cache: GustCache<&str> = GustCache::from_ttl(1000);
    cache.insert_at(9, "kept", 0);
    let mut now: i64 = 0;
    for _ in 0..10 {
        now += 900;
        assert_eq!(Some("kept"), cache.get_at(9, now));
    }
    assert!(now > 1000);
    cache.sweep_expired(now + 999);
    assert_eq!(1, cache.size());
}

#[test]
fn insert_overwrites_stale_and_live_entries() {
    let mut cache: GustCache<&str> = GustCache::from_ttl(1000);
    cache.insert_at(4, "first", 0);
    cache.insert_at(4, "second", 500);
    assert_eq!(Some("second"), cache.get_at(4, 600));
    cache.insert_at(4, "third", 5000);
    assert_eq!(1, cache.size());
    assert_eq!(Some("third"), cache.get_at(4, 5001));
}

#[test]
fn failed_compute_leaves_no_trace() {
    let mut cache: GustCache<String> = GustCache::from_ttl(60_000);
    let result = cache.get_or(&"missing", NOW, || failing_fn());
    assert_eq!(
        Err(CacheError::Read("unreachable backend".to_string())),
        result
    );
    assert!(cache.try_get(&"missing").is_none());
    assert_eq!(0, cache.size());
}

#[test]
fn eviction_task_should_evict() {
    let mut cache: GustCache<u64> = GustCache::from_ttl(60_000);
    for i in 0..10u64 {
        // key i written at time 1000 - i: key 9 is the oldest
        cache.insert_at(i, i, 1000 - i as i64);
    }
    assert_eq!(7, cache.eviction_count(1));
    let victims = cache.evict_oldest(1);
    assert_eq!(7, victims.len());
    assert_eq!(3, cache.size());
    for i in 0..3u64 {
        assert_eq!(Some(i), cache.try_get_at(i));
    }
    for i in 3..10u64 {
        assert_eq!(None, cache.try_get_at(i));
    }
    assert_eq!((9u64, 991i64), victims[0]);
}

#[test]
fn eviction_task_should_not_evict() {
    let mut cache: GustCache<u64> = GustCache::from_ttl(60_000);
    for i in 0..10u64 {
        cache.insert_at(i, i, i as i64);
    }
    assert_eq!(0, cache.eviction_count(MAX_BYTE_SIZE));
    let victims = cache.evict_oldest(MAX_BYTE_SIZE);
    assert!(victims.is_empty());
    assert_eq!(10, cache.size());
}

#[test]
fn eviction_count_rounds_down() {
    let mut cache: GustCache<u8> = GustCache::from_ttl(60_000);
    for i in 0..3u64 {
        cache.insert_at(i, 0, 0);
    }
    // 3 * 70 / 100 = 2
    assert_eq!(2, cache.eviction_count(0));
    let empty: GustCache<u8> = GustCache::from_ttl(60_000);
    assert_eq!(0, empty.eviction_count(0));
}

#[test]
fn remove_entries_drops_named_keys() {
    let mut cache: GustCache<u8> = GustCache::from_ttl(60_000);
    cache.insert_at(1, 1, 0);
    cache.insert_at(2, 2, 0);
    cache.insert_at(3, 3, 0);
    cache.remove_entries(&vec![(1, 0), (3, 0), (42, 0)]);
    assert_eq!(1, cache.size());
    assert_eq!(Some(2), cache.try_get_at(2));
}

#[test]
fn get_or_at_hit_does_not_compute() {
    let mut cache: GustCache<String> = GustCache::from_ttl(1000);
    cache.insert_at(1, "cache-hit".to_string(), 0);
    let mut called = false;
    let result = cache.get_or_at(1, 999, || {
        called = true;
        failure_fn()
    });
    assert_eq!(Ok("cache-hit".to_string()), result);
    assert!(!called);
    assert_eq!(vec![(1u64, 999i64)], cache.timestamps());
}

#[test]
fn get_or_at_after_ttl_computes_and_stores() {
    let mut cache: GustCache<String> = GustCache::from_ttl(1000);
    cache.insert_at(1, "cache-hit".to_string(), 0);
    let result = cache.get_or_at(1, 1000, || failure_fn());
    assert_eq!(Ok("failure-fn".to_string()), result);
    assert_eq!(vec![(1u64, 1000i64)], cache.timestamps());
    assert_eq!(Some("failure-fn".to_string()), cache.try_get_at(1));
}

#[test]
fn get_or_sliding_refresh_never_computes() {
    let mut cache: GustCache<String> = GustCache::from_ttl(1000);
    cache.insert(&7, "kept".to_string(), 0);
    let mut calls = 0;
    let mut now: i64 = 0;
    for _ in 0..5 {
        now += 999;
        let result = cache.get_or(&7, now, || {
            calls += 1;
            failure_fn()
        });
        assert_eq!(Ok("kept".to_string()), result);
    }
    assert!(now >= 1000);
    assert_eq!(0, calls);
}

#[test]
fn get_or_after_invalidate_computes_once_per_key() {
    let mut cache: GustCache<String> = GustCache::from_ttl(60_000);
    for k in 1..4 {
        cache.insert(&k, format!("value {}", k), NOW);
    }
    cache.invalidate();
    for k in 1..4 {
        let mut calls = 0;
        let result = cache.get_or(&k, NOW, || {
            calls += 1;
            Ok::<String, CacheError>("fresh".to_string())
        });
        assert_eq!(Ok("fresh".to_string()), result);
        assert_eq!(1, calls);
    }
}
