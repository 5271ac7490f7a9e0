use odds_ingestion::fetch_policy::{
    backoff_delay_seconds, max_attempts, parse_failure_outcome, retry_decision, retryable_status,
    Endpoint, FetchStep,
};

#[test]
fn transient_statuses_are_retryable() {
    assert!(retryable_status(429));
    assert!(retryable_status(500));
    assert!(retryable_status(503));
    assert!(retryable_status(599));
    assert!(!retryable_status(200));
    assert!(!retryable_status(400));
    assert!(!retryable_status(404));
    assert!(!retryable_status(401));
}

#[test]
fn non_retryable_statuses_fail_hard_on_primary_and_soft_on_optional() {
    assert_eq!(retry_decision(Endpoint::EventList, 404, None, 0), FetchStep::FailHard);
    assert_eq!(retry_decision(Endpoint::FullOdds, 401, None, 0), FetchStep::FailHard);
    assert_eq!(retry_decision(Endpoint::EventMarkets, 404, None, 0), FetchStep::Unavailable);
}

#[test]
fn retryable_statuses_back_off_exponentially_until_the_ceiling() {
    assert_eq!(
        retry_decision(Endpoint::EventList, 500, None, 0),
        FetchStep::Retry { delay_seconds: 1 }
    );
    assert_eq!(
        retry_decision(Endpoint::EventList, 500, None, 2),
        FetchStep::Retry { delay_seconds: 4 }
    );
    // The list endpoint is most lenient, per-event markets least.
    assert!(max_attempts(Endpoint::EventList) > max_attempts(Endpoint::EventMarkets));
    let last = max_attempts(Endpoint::EventList) - 1;
    assert_eq!(retry_decision(Endpoint::EventList, 500, None, last), FetchStep::FailHard);
    let last_opt = max_attempts(Endpoint::EventMarkets) - 1;
    assert_eq!(
        retry_decision(Endpoint::EventMarkets, 500, None, last_opt),
        FetchStep::Unavailable
    );
}

#[test]
fn server_supplied_retry_after_overrides_backoff() {
    assert_eq!(
        retry_decision(Endpoint::FullOdds, 429, Some(17), 1),
        FetchStep::Retry { delay_seconds: 17 }
    );
}

#[test]
fn backoff_doubles_per_attempt() {
    assert_eq!(backoff_delay_seconds(0), 1);
    assert_eq!(backoff_delay_seconds(1), 2);
    assert_eq!(backoff_delay_seconds(4), 16);
}

#[test]
fn parse_failures_abort_primary_calls_and_degrade_optional_ones() {
    assert_eq!(parse_failure_outcome(Endpoint::EventList), FetchStep::FailHard);
    assert_eq!(parse_failure_outcome(Endpoint::FullOdds), FetchStep::FailHard);
    assert_eq!(parse_failure_outcome(Endpoint::EventMarkets), FetchStep::Unavailable);
}
