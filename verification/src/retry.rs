//! The orchestrator's retry policy: a failed cycle pauses for a jittered
//! interval and retries up to a configured number of attempts; exhausting
//! them is fatal.  The decisions live here as plain functions, so the loop
//! that sleeps and fetches carries no policy of its own.

use vstd::prelude::*;

use crate::error::AppError;

verus! {

/// The retry policy: how often a failed cycle may be retried, and the base
/// pause between attempts.
#[derive(Debug, Clone, Copy, PartialEq, Eq, Structural)]
pub struct RetryPolicy {
    /// The largest attempt number before giving up.
    pub max_attempts: u64,
    /// The base pause between attempts, in seconds.
    pub base_interval_secs: u64,
}

/// What the orchestrator does after one cycle.
#[derive(Debug, Clone, Copy, PartialEq, Eq, Structural)]
pub enum RetryDecision {
    /// The cycle succeeded: carry on with a fresh attempt counter.
    Proceed,
    /// The cycle failed but attempts remain: pause and retry as this
    /// attempt number.
    Retry { attempt: u64 },
    /// The cycle failed and the attempts are exhausted: stop for good.
    GiveUp,
}

/// The outcome of running cycles under a retry policy.
pub enum CycleOutcome {
    /// A cycle succeeded.
    Succeeded,
    /// Every allowed attempt failed; the last error says why.
    ExhaustedRetries(AppError),
}

impl RetryPolicy {
    /// Decides what follows one cycle: success resets the counter, failure
    /// retries with the next attempt number until the attempts are
    /// exhausted.
    pub fn decide(&self, attempt: u64, cycle_succeeded: bool) -> (r: RetryDecision)
        ensures
            cycle_succeeded ==> r == RetryDecision::Proceed,
            !cycle_succeeded && attempt < self.max_attempts ==> r == (RetryDecision::Retry {
                attempt: (attempt + 1) as u64,
            }),
            !cycle_succeeded && attempt >= self.max_attempts ==> r == RetryDecision::GiveUp,
    {
        if cycle_succeeded {
            RetryDecision::Proceed
        } else if attempt >= self.max_attempts {
            RetryDecision::GiveUp
        } else {
            RetryDecision::Retry { attempt: attempt + 1 }
        }
    }

    /// The window from which a failed cycle's pause is drawn, in
    /// milliseconds: half to twice the base interval, so that many
    /// instances do not retry in lockstep against the same source.
    pub fn jitter_bounds_ms(&self) -> (r: (u64, u64))
        requires
            self.base_interval_secs <= u64::MAX / 2000,
        ensures
            r.0 == self.base_interval_secs * 500,
            r.1 == self.base_interval_secs * 2000,
            r.0 <= r.1,
    {
        (self.base_interval_secs * 500, self.base_interval_secs * 2000)
    }
}

} // verus!
