//! The run/health state of the ingestion service: the last successful
//! cycle, its snapshot count, and a consecutive-error counter that the
//! health surface classifies against thresholds.

use vstd::prelude::*;

verus! {

/// The mutable health record updated after every cycle.
pub struct HealthState {
    pub last_poll_time: Option<u64>,
    pub last_poll_count: usize,
    pub error_count: usize,
}

impl HealthState {
    /// The initial health state: no run yet, no errors.
    pub fn new() -> (r: HealthState)
        ensures
            r.last_poll_time is None,
            r.last_poll_count == 0,
            r.error_count == 0,
    {
        HealthState { last_poll_time: Option::None, last_poll_count: 0, error_count: 0 }
    }

    /// Records a successful cycle: stamps the time and count and resets
    /// the consecutive-error counter.
    pub fn record_success(&mut self, count: usize, now: u64)
        ensures
            final(self).last_poll_time == Option::Some(now),
            final(self).last_poll_count == count,
            final(self).error_count == 0,
    {
        self.last_poll_time = Option::Some(now);
        self.last_poll_count = count;
        self.error_count = 0;
    }

    /// Records a failed cycle: the consecutive-error counter grows by
    /// one (saturating), everything else stays.
    pub fn record_error(&mut self)
        ensures
            final(self).last_poll_time == old(self).last_poll_time,
            final(self).last_poll_count == old(self).last_poll_count,
            old(self).error_count < usize::MAX ==> final(self).error_count == old(
                self,
            ).error_count + 1,
            old(self).error_count == usize::MAX ==> final(self).error_count == usize::MAX,
    {
        if self.error_count < usize::MAX {
            self.error_count = self.error_count + 1;
        }
    }

    /// Whether the service should report itself degraded: strictly more
    /// consecutive errors than the threshold.
    pub fn is_degraded(&self, threshold: usize) -> (r: bool)
        ensures
            r == (self.error_count > threshold),
    {
        self.error_count > threshold
    }

    /// Whether the service should report itself unavailable: strictly
    /// more consecutive errors than the (higher) threshold.
    pub fn is_unavailable(&self, threshold: usize) -> (r: bool)
        ensures
            r == (self.error_count > threshold),
    {
        self.error_count > threshold
    }
}

} // verus!
