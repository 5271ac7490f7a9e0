use odds_ingestion::ratelimit::RateLimiter;

#[test]
fn no_more_than_quota_in_any_rolling_window() {
    let mut rl = RateLimiter::new(3, 60);
    assert!(rl.try_grant(0));
    assert!(rl.try_grant(10));
    assert!(rl.try_grant(20));
    // The window [0, 60) already holds three grants: denied until 60.
    assert!(!rl.try_grant(30));
    assert!(!rl.try_grant(59));
    assert!(rl.try_grant(60));
    // Now [10, 70) holds 10, 20, 60: denied until 70.
    assert!(!rl.try_grant(69));
    assert!(rl.try_grant(70));
}

#[test]
fn default_minute_quota_is_enforced() {
    let mut rl = RateLimiter::new(30, 60);
    for _ in 0..30 {
        assert!(rl.try_grant(100));
    }
    assert!(!rl.try_grant(100));
    assert!(!rl.try_grant(159));
    assert!(rl.try_grant(160));
}

#[test]
fn next_ready_time_names_the_end_of_the_blocking_window() {
    let mut rl = RateLimiter::new(2, 60);
    assert_eq!(rl.next_ready_time(5), 5);
    assert!(rl.try_grant(5));
    assert!(rl.try_grant(6));
    assert!(!rl.try_grant(7));
    assert_eq!(rl.next_ready_time(7), 65);
    assert!(rl.try_grant(65));
}

#[test]
fn zero_quota_is_raised_to_one() {
    let mut rl = RateLimiter::new(0, 60);
    assert!(rl.try_grant(0));
    assert!(!rl.try_grant(30));
    assert!(rl.try_grant(60));
}
