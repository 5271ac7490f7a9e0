//! The retry policy of the fetch layer, as pure decisions: which HTTP
//! statuses are retryable, how many attempts each endpoint gets, the
//! exponential backoff, and how an exhausted or non-retryable call ends
//! (hard failure on primary endpoints, soft unavailability on optional
//! per-event market endpoints). An unverified shell performs the actual
//! requests and sleeps, consulting these decisions between attempts.

use vstd::prelude::*;

verus! {

/// The request shapes the fetcher issues.
#[derive(Clone, Copy, Debug, PartialEq, Eq, Structural)]
pub enum Endpoint {
    /// The event-list / full-game odds listing: primary, most lenient.
    EventList,
    /// The full-odds listing for a sport: primary.
    FullOdds,
    /// A per-event optional market set: least lenient, soft-failing.
    EventMarkets,
}

/// What the fetch layer should do next after a response.
#[derive(Clone, Copy, Debug, PartialEq, Eq, Structural)]
pub enum FetchStep {
    /// Wait this many seconds and try again.
    Retry { delay_seconds: u64 },
    /// Give up and fail the whole poll cycle.
    FailHard,
    /// Give up on this call only; the market set is unavailable.
    Unavailable,
}

/// Whether an endpoint's failure aborts the cycle (primary) or degrades
/// to an unavailable market set (optional).
pub open spec fn is_primary(e: Endpoint) -> bool {
    e == Endpoint::EventList || e == Endpoint::FullOdds
}

/// The attempt ceiling per endpoint: the list endpoint is most lenient,
/// per-event optional markets least.
pub open spec fn max_attempts_spec(e: Endpoint) -> u32 {
    match e {
        Endpoint::EventList => 5,
        Endpoint::FullOdds => 4,
        Endpoint::EventMarkets => 2,
    }
}

/// The attempt ceiling for an endpoint.
pub fn max_attempts(e: Endpoint) -> (r: u32)
    ensures
        r == max_attempts_spec(e),
{
    match e {
        Endpoint::EventList => 5,
        Endpoint::FullOdds => 4,
        Endpoint::EventMarkets => 2,
    }
}

/// Whether an HTTP status is transient and worth retrying: 429 or any
/// server error.
pub open spec fn retryable_status_spec(status: u16) -> bool {
    status == 429 || (500 <= status && status <= 599)
}

/// Decides whether an HTTP status is retryable.
pub fn retryable_status(status: u16) -> (r: bool)
    ensures
        r == retryable_status_spec(status),
{
    status == 429 || (500 <= status && status <= 599)
}

/// The exponential backoff before attempt `attempt + 1`, in seconds.
pub fn backoff_delay_seconds(attempt: u32) -> (r: u64)
    requires
        attempt < 32,
    ensures
        r == 1u64 << attempt,
{
    1u64 << attempt
}

/// The next step after a failed response on `endpoint`, given the HTTP
/// status, the server-supplied Retry-After if any, and how many attempts
/// have already been made (this response included).
pub open spec fn retry_decision_spec(
    endpoint: Endpoint,
    status: u16,
    retry_after: Option<u64>,
    attempt: u32,
) -> FetchStep {
    if !retryable_status_spec(status) {
        if is_primary(endpoint) {
            FetchStep::FailHard
        } else {
            FetchStep::Unavailable
        }
    } else if attempt + 1 >= max_attempts_spec(endpoint) {
        if is_primary(endpoint) {
            FetchStep::FailHard
        } else {
            FetchStep::Unavailable
        }
    } else {
        FetchStep::Retry {
            delay_seconds: match retry_after {
                Option::Some(s) => s,
                Option::None => 1u64 << attempt,
            },
        }
    }
}

/// Decides the next fetch step: non-retryable statuses and exhausted
/// ceilings fail hard on primary endpoints and degrade to unavailable on
/// optional ones; otherwise wait `Retry-After` seconds when the server
/// said so, else back off exponentially.
pub fn retry_decision(endpoint: Endpoint, status: u16, retry_after: Option<u64>, attempt: u32) -> (r:
    FetchStep)
    requires
        attempt < 32,
    ensures
        r == retry_decision_spec(endpoint, status, retry_after, attempt),
{
    let primary = match endpoint {
        Endpoint::EventList => true,
        Endpoint::FullOdds => true,
        Endpoint::EventMarkets => false,
    };
    if !retryable_status(status) {
        if primary {
            FetchStep::FailHard
        } else {
            FetchStep::Unavailable
        }
    } else if attempt + 1 >= max_attempts(endpoint) {
        if primary {
            FetchStep::FailHard
        } else {
            FetchStep::Unavailable
        }
    } else {
        let delay: u64 = match retry_after {
            Option::Some(s) => s,
            Option::None => backoff_delay_seconds(attempt),
        };
        FetchStep::Retry { delay_seconds: delay }
    }
}

/// How a malformed response body ends a call: always fatal for that
/// call, which aborts the cycle on a primary endpoint and degrades to
/// unavailable on an optional one.
pub fn parse_failure_outcome(endpoint: Endpoint) -> (r: FetchStep)
    ensures
        is_primary(endpoint) ==> r == FetchStep::FailHard,
        !is_primary(endpoint) ==> r == FetchStep::Unavailable,
{
    match endpoint {
        Endpoint::EventList => FetchStep::FailHard,
        Endpoint::FullOdds => FetchStep::FailHard,
        Endpoint::EventMarkets => FetchStep::Unavailable,
    }
}

} // verus!
