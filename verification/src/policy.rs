//! How a harvest run is paced and what it does when a request fails.

use vstd::prelude::*;

verus! {

/// What a run does with a location whose request failed.
#[derive(Clone, Copy, Debug, PartialEq, Eq, Structural)]
pub enum FailurePolicy {
    /// The first failure that is collected ends the run.
    FailFast,
    /// A failure is recorded for its location and the run goes on.
    FailSoft,
}

/// The knobs of one harvest run.
#[derive(Clone, Copy, Debug, PartialEq, Eq, Structural)]
pub struct HarvestPolicy {
    /// Microseconds of rest taken before each launch.
    pub pacing_interval_micros: u64,
    /// Most requests that may be outstanding at once; `None` sets no bound.
    pub max_in_flight: Option<usize>,
    /// Whether one failed request ends the run.
    pub on_failure: FailurePolicy,
}

impl HarvestPolicy {
    /// The policy with the given pacing, no bound on outstanding requests
    /// and the given reaction to failures.
    pub fn unbounded(pacing_interval_micros: u64, on_failure: FailurePolicy) -> (policy: HarvestPolicy)
        ensures
            policy == (HarvestPolicy { pacing_interval_micros, max_in_flight: None, on_failure }),
    {
        HarvestPolicy { pacing_interval_micros, max_in_flight: None, on_failure }
    }

    /// Whether the policy lets another request start while `in_flight`
    /// requests are outstanding.
    pub open spec fn admits(self, in_flight: nat) -> bool {
        match self.max_in_flight {
            None => true,
            Some(bound) => in_flight < bound,
        }
    }

    /// Whether another request may start while `in_flight` are outstanding.
    pub fn has_room(&self, in_flight: usize) -> (room: bool)
        ensures
            room == self.admits(in_flight as nat),
    {
        match self.max_in_flight {
            None => true,
            Some(bound) => in_flight < bound,
        }
    }

    /// Whether the first collected failure ends the run.
    pub open spec fn is_fail_fast(self) -> bool {
        self.on_failure == FailurePolicy::FailFast
    }

    /// Whether the first collected failure ends the run.
    pub fn fail_fast(&self) -> (fast: bool)
        ensures
            fast == self.is_fail_fast(),
    {
        match self.on_failure {
            FailurePolicy::FailFast => true,
            FailurePolicy::FailSoft => false,
        }
    }
}

impl Default for HarvestPolicy {
    /// One microsecond between launches, no bound on outstanding requests,
    /// and the first failure ends the run.
    fn default() -> (policy: HarvestPolicy)
        ensures
            policy == (HarvestPolicy {
                pacing_interval_micros: 1,
                max_in_flight: None,
                on_failure: FailurePolicy::FailFast,
            }),
    {
        HarvestPolicy { pacing_interval_micros: 1, max_in_flight: None, on_failure: FailurePolicy::FailFast }
    }
}

} // verus!
