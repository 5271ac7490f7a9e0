use odds_ingestion::cache::GameCache;

#[test]
fn get_or_create_runs_the_factory_exactly_once_per_key() {
    let mut cache = GameCache::new();
    let mut first_calls = 0u32;
    let r1 = cache.get_or_insert_with("evt-1", || {
        first_calls += 1;
        Ok::<u128, ()>(7)
    });
    assert_eq!(r1, Ok(7));
    assert_eq!(first_calls, 1);

    // Every later call for the same key returns the winner's id and
    // never consults its own factory.
    let mut second_calls = 0u32;
    let r2 = cache.get_or_insert_with("evt-1", || {
        second_calls += 1;
        Ok::<u128, ()>(99)
    });
    assert_eq!(r2, Ok(7));
    assert_eq!(second_calls, 0);

    // A different key gets its own factory run.
    let r3 = cache.get_or_insert_with("evt-2", || Ok::<u128, ()>(8));
    assert_eq!(r3, Ok(8));
}

#[test]
fn factory_failure_leaves_no_entry_so_a_later_call_retries() {
    let mut cache = GameCache::new();
    let r1 = cache.get_or_insert_with("evt-1", || Err::<u128, &str>("resolution failed"));
    assert_eq!(r1, Err("resolution failed"));
    assert_eq!(cache.get("evt-1"), None);
    let r2 = cache.get_or_insert_with("evt-1", || Ok::<u128, &str>(5));
    assert_eq!(r2, Ok(5));
    assert_eq!(cache.get("evt-1"), Some(5));
}

#[test]
fn insert_overwrites_and_get_reads_back() {
    let mut cache = GameCache::new();
    assert_eq!(cache.get("a"), None);
    cache.insert("a".to_string(), 1);
    cache.insert("b".to_string(), 2);
    assert_eq!(cache.get("a"), Some(1));
    assert_eq!(cache.get("b"), Some(2));
    cache.insert("a".to_string(), 3);
    assert_eq!(cache.get("a"), Some(3));
    assert_eq!(cache.get("b"), Some(2));
}

#[test]
fn cleanup_clears_only_once_over_the_threshold() {
    let mut cache = GameCache::new();
    cache.insert("a".to_string(), 1);
    cache.insert("b".to_string(), 2);
    cache.cleanup(2);
    assert_eq!(cache.get("a"), Some(1));
    cache.insert("c".to_string(), 3);
    cache.cleanup(2);
    assert_eq!(cache.get("a"), None);
    assert_eq!(cache.get("c"), None);
}
