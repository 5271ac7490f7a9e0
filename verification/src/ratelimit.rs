//! The request rate limiter: a sliding-log bucket that grants at most
//! `quota` requests in any rolling window. The full grant history is
//! carried as ghost state, and compliance over every rolling window is
//! proved: any `quota + 1` grants span at least one whole window. The
//! limiter only decides; an unverified shell sleeps until the time the
//! limiter names and asks again, so callers observe latency, never a
//! rate-limit error.

use vstd::prelude::*;

verus! {

/// Grant times in nondecreasing order.
pub open spec fn sorted(h: Seq<u64>) -> bool {
    forall|i: int, j: int| 0 <= i <= j < h.len() ==> h[i] <= h[j]
}

/// The rolling-window guarantee over a grant history: between any grant
/// and the one `quota` places later, at least `window` seconds pass.
pub open spec fn rate_compliant(h: Seq<u64>, quota: nat, window: u64) -> bool {
    forall|i: int| 0 <= i && i + quota < h.len() ==> h[i] + window <= #[trigger] h[i + quota]
}

/// The sliding-log rate limiter.
pub struct RateLimiter {
    pub quota: usize,
    pub window_seconds: u64,
    /// The most recent grant times, oldest first, at most `quota` many.
    pub recent: Vec<u64>,
    /// Every grant ever made, in order.
    pub history: Ghost<Seq<u64>>,
}

impl RateLimiter {
    /// The limiter invariant: the visible tail mirrors the history, and
    /// the whole history is sorted and window-compliant.
    pub open spec fn wf(self) -> bool {
        &&& self.quota > 0
        &&& sorted(self.history@)
        &&& rate_compliant(self.history@, self.quota as nat, self.window_seconds)
        &&& self.recent@.len() == if self.history@.len() < self.quota {
            self.history@.len()
        } else {
            self.quota as nat
        }
        &&& self.recent@ == self.history@.skip(self.history@.len() - self.recent@.len())
    }

    /// Whether `now` is at or after every grant so far; the caller's
    /// clock must be monotone.
    pub open spec fn clock_ok(self, now: u64) -> bool {
        forall|i: int| 0 <= i < self.history@.len() ==> #[trigger] self.history@[i] <= now
    }

    /// A fresh limiter; a zero quota is raised to one.
    pub fn new(quota: usize, window_seconds: u64) -> (r: RateLimiter)
        ensures
            r.wf(),
            r.quota == if quota == 0 {
                1usize
            } else {
                quota
            },
            r.window_seconds == window_seconds,
            r.history@.len() == 0,
    {
        let q: usize = if quota == 0 {
            1
        } else {
            quota
        };
        let r = RateLimiter {
            quota: q,
            window_seconds,
            recent: Vec::new(),
            history: Ghost(Seq::empty()),
        };
        proof {
            assert(r.recent@ =~= r.history@.skip(0));
        }
        r
    }

    /// Asks for one request token at time `now`. A grant appends `now`
    /// to the history; a denial changes nothing and happens exactly when
    /// the grant `quota` places back lies within the current window.
    pub fn try_grant(&mut self, now: u64) -> (granted: bool)
        requires
            old(self).wf(),
            old(self).clock_ok(now),
        ensures
            final(self).wf(),
            final(self).quota == old(self).quota,
            final(self).window_seconds == old(self).window_seconds,
            final(self).clock_ok(now),
            granted ==> final(self).history@ == old(self).history@.push(now),
            !granted ==> *final(self) == *old(self),
            granted == (old(self).history@.len() < old(self).quota || old(self).history@[old(
                self,
            ).history@.len() - old(self).quota] + old(self).window_seconds <= now),
    {
        let ghost h0 = self.history@;
        let q = self.quota;
        if self.recent.len() < q {
            proof {
                assert(h0.len() < q);
                self.history@ = h0.push(now);
            }
            self.recent.push(now);
            proof {
                let h = self.history@;
                assert(sorted(h)) by {
                    assert forall|i: int, j: int| 0 <= i <= j < h.len() implies h[i] <= h[j] by {
                        if j < h0.len() {
                            assert(h[i] == h0[i] && h[j] == h0[j]);
                        } else if i < h0.len() {
                            assert(h[i] == h0[i] && h0[i] <= now);
                        }
                    }
                }
                assert(rate_compliant(h, q as nat, self.window_seconds)) by {
                    assert forall|i: int| 0 <= i && i + q < h.len() implies h[i]
                        + self.window_seconds <= #[trigger] h[i + q] by {
                        assert(i < 0);
                    }
                }
                assert(old(self).recent@ =~= h0);
                assert(self.recent@ =~= h.skip(0));
            }
            return true;
        }
        proof {
            assert(self.recent@.len() == q);
            assert(self.recent@[0] == h0.skip(h0.len() - q)[0]);
            assert(self.recent@[0] == h0[h0.len() - q]);
        }
        let oldest = self.recent[0];
        if now - oldest >= self.window_seconds {
            proof {
                assert(oldest + self.window_seconds <= now);
                self.history@ = h0.push(now);
            }
            self.recent.remove(0);
            self.recent.push(now);
            proof {
                let h = self.history@;
                assert(sorted(h)) by {
                    assert forall|i: int, j: int| 0 <= i <= j < h.len() implies h[i] <= h[j] by {
                        if j < h0.len() {
                            assert(h[i] == h0[i] && h[j] == h0[j]);
                        } else if i < h0.len() {
                            assert(h[i] == h0[i] && h0[i] <= now);
                        }
                    }
                }
                assert(rate_compliant(h, q as nat, self.window_seconds)) by {
                    assert forall|i: int| 0 <= i && i + q < h.len() implies h[i]
                        + self.window_seconds <= #[trigger] h[i + q] by {
                        if i + q < h0.len() {
                            assert(h[i] == h0[i] && h[i + q] == h0[i + q]);
                        } else {
                            assert(i + q == h.len() - 1);
                            assert(i == h0.len() - q);
                            assert(h[i] == h0[i]);
                            assert(h0[h0.len() - q] + self.window_seconds <= now);
                        }
                    }
                }
                assert(self.recent@.len() == q);
                assert forall|t: int| 0 <= t < q implies self.recent@[t] == h.skip(
                    h.len() - q,
                )[t] by {
                    if t < q - 1 {
                        assert(self.recent@[t] == old(self).recent@[t + 1]);
                        assert(old(self).recent@[t + 1] == h0.skip(h0.len() - q)[t + 1]);
                        assert(h0.skip(h0.len() - q)[t + 1] == h0[h0.len() - q + t + 1]);
                        assert(h.skip(h.len() - q)[t] == h[h.len() - q + t]);
                        assert(h[h.len() - q + t] == h0[h0.len() - q + t + 1]);
                    } else {
                        assert(self.recent@[t] == now);
                        assert(h.skip(h.len() - q)[t] == h[h.len() - 1]);
                    }
                }
                assert(self.recent@ =~= h.skip(h.len() - q));
            }
            return true;
        }
        proof {
            assert(h0[h0.len() - q] + self.window_seconds > now);
        }
        false
    }

    /// The earliest time a denied caller may usefully ask again: the end
    /// of the window that the oldest counted grant opened (saturating).
    pub fn next_ready_time(&self, now: u64) -> (r: u64)
        requires
            self.wf(),
        ensures
            self.recent@.len() < self.quota ==> r == now,
            self.recent@.len() == self.quota ==> r == if self.recent@[0] <= u64::MAX
                - self.window_seconds {
                (self.recent@[0] + self.window_seconds) as u64
            } else {
                u64::MAX
            },
    {
        if self.recent.len() < self.quota {
            return now;
        }
        let oldest = self.recent[0];
        if oldest <= u64::MAX - self.window_seconds {
            oldest + self.window_seconds
        } else {
            u64::MAX
        }
    }

}

/// Rolling-window rate compliance: in a sorted, compliant history any
/// two grants `quota` or more places apart are at least one window
/// apart, so no window of `window_seconds` seconds ever contains more
/// than `quota` grants.
pub proof fn lemma_rate_compliance(h: Seq<u64>, quota: nat, window: u64, i: int, j: int)
    requires
        sorted(h),
        rate_compliant(h, quota, window),
        0 <= i,
        i + quota <= j < h.len(),
    ensures
        h[i] + window <= h[j],
{
    assert(h[i] + window <= h[i + quota]);
    assert(h[i + quota] <= h[j]);
}

} // verus!
