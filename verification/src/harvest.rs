//! The decisions of one harvest run.
//!
//! A run is driven from outside: the driver asks which action is pending,
//! performs it, and reports what happened as an event. The run itself never
//! waits and never talks to the provider.

use crate::forecast::{ForecastResult, HarvestOutcome, RemoteFailure};
use crate::location::Location;
use crate::policy::HarvestPolicy;
use vstd::prelude::*;

verus! {

/// Why a run gave no outcomes.
#[derive(Debug, PartialEq, Eq)]
pub enum HarvestError {
    /// Under fail-fast, the request for the location `identifier` failed.
    Remote { identifier: String, failure: RemoteFailure },
    /// The task that fetched the location `identifier` could not be joined.
    Join { identifier: String },
    /// The policy admits no outstanding request, yet there are locations.
    NoCapacity,
}

impl Clone for HarvestError {
    fn clone(&self) -> (copy: HarvestError)
        ensures
            copy == *self,
    {
        match self {
            HarvestError::Remote { identifier, failure } => HarvestError::Remote {
                identifier: identifier.clone(),
                failure: failure.clone(),
            },
            HarvestError::Join { identifier } => HarvestError::Join {
                identifier: identifier.clone(),
            },
            HarvestError::NoCapacity => HarvestError::NoCapacity,
        }
    }
}

/// What the driver of a run is to do next.
#[derive(Clone, Copy, Debug, PartialEq, Eq, Structural)]
pub enum Action {
    /// Wait for `micros` microseconds, then report `Event::Rested`.
    Rest { micros: u64 },
    /// Start the request for location `index`, then report `Event::Launched`.
    Launch { index: usize },
    /// Wait for the request of location `index` and report how it ended.
    Await { index: usize },
    /// Every location has its outcome: take them.
    Finish,
    /// The run has failed: drop what is outstanding and take the error.
    Abort,
}

/// What the driver reports back.
#[derive(Clone, Debug, PartialEq, Eq)]
pub enum Event<P> {
    /// The rest that was asked for has been taken in full.
    Rested,
    /// The request for location `index` has been started.
    Launched { index: usize },
    /// The request for location `index` has come back with `result`.
    Completed { index: usize, result: ForecastResult<P> },
    /// The task of location `index` was lost before it gave its answer.
    JoinFailed { index: usize },
}

/// A run as a mathematical value.
pub struct HarvestView<P> {
    /// The locations to fetch, in launch order.
    pub locations: Seq<Location>,
    pub policy: HarvestPolicy,
    /// How many requests have been started: those of `locations[..launched]`.
    pub launched: usize,
    /// Whether the rest before the next launch has been taken.
    pub rested: bool,
    /// The outcomes collected so far, in launch order.
    pub outcomes: Seq<HarvestOutcome<P>>,
    /// Why the run has failed, once it has.
    pub failure: Option<HarvestError>,
}

impl<P> HarvestView<P> {
    /// The run before anything has happened.
    pub open spec fn initial(locations: Seq<Location>, policy: HarvestPolicy) -> HarvestView<P> {
        HarvestView {
            locations,
            policy,
            launched: 0,
            rested: false,
            outcomes: Seq::empty(),
            failure: if locations.len() > 0 && policy.max_in_flight == Some(0usize) {
                Some(HarvestError::NoCapacity)
            } else {
                None
            },
        }
    }

    /// How many requests are outstanding.
    pub open spec fn in_flight(self) -> nat {
        (self.launched - self.outcomes.len()) as nat
    }

    /// What holds of every run that began as `initial` and was moved on by
    /// `next` alone.
    pub open spec fn wf(self) -> bool {
        &&& self.locations.len() <= usize::MAX
        &&& self.outcomes.len() <= self.launched <= self.locations.len()
        &&& forall|k: int|
            0 <= k < self.outcomes.len() ==> (#[trigger] self.outcomes[k]).location
                == self.locations[k]
        &&& self.policy.max_in_flight matches Some(bound) ==> self.in_flight() <= bound
        &&& self.failure is None && self.locations.len() > 0 ==> self.policy.max_in_flight
            != Some(0usize)
        &&& self.failure is None && self.policy.is_fail_fast() ==> forall|k: int|
            0 <= k < self.outcomes.len() ==> (#[trigger] self.outcomes[k]).succeeded()
    }

    /// The action that the run waits for.
    pub open spec fn pending(self) -> Action {
        if self.failure is Some {
            Action::Abort
        } else if self.launched < self.locations.len() && self.policy.admits(self.in_flight()) {
            if self.rested {
                Action::Launch { index: self.launched }
            } else {
                Action::Rest { micros: self.policy.pacing_interval_micros }
            }
        } else if self.outcomes.len() < self.launched {
            Action::Await { index: self.outcomes.len() as usize }
        } else {
            Action::Finish
        }
    }

    /// The run after the request that was awaited came back with `result`.
    pub open spec fn collect(self, result: ForecastResult<P>) -> HarvestView<P> {
        let location = self.locations[self.outcomes.len() as int];
        match result {
            ForecastResult::Failure(failure) if self.policy.is_fail_fast() => HarvestView {
                failure: Some(
                    HarvestError::Remote { identifier: location.location_id, failure },
                ),
                ..self
            },
            _ => HarvestView {
                outcomes: self.outcomes.push(HarvestOutcome { location, result }),
                ..self
            },
        }
    }

    /// The run after `event`. An event that does not answer the pending
    /// action changes nothing.
    pub open spec fn next(self, event: Event<P>) -> HarvestView<P> {
        match (self.pending(), event) {
            (Action::Rest { .. }, Event::Rested) => HarvestView { rested: true, ..self },
            (Action::Launch { index }, Event::Launched { index: started }) if started == index
                => HarvestView { launched: (self.launched + 1) as usize, rested: false, ..self },
            (Action::Await { index }, Event::Completed { index: ended, result }) if ended
                == index => self.collect(result),
            (Action::Await { index }, Event::JoinFailed { index: lost }) if lost == index
                => HarvestView {
                failure: Some(
                    HarvestError::Join { identifier: self.locations[index as int].location_id },
                ),
                ..self
            },
            _ => self,
        }
    }
}

/// One harvest run: which requests have been started, which outcomes have
/// been collected, and whether the run has failed.
pub struct Harvest<P> {
    locations: Vec<Location>,
    policy: HarvestPolicy,
    launched: usize,
    rested: bool,
    outcomes: Vec<HarvestOutcome<P>>,
    failure: Option<HarvestError>,
}

impl<P> View for Harvest<P> {
    type V = HarvestView<P>;

    closed spec fn view(&self) -> HarvestView<P> {
        HarvestView {
            locations: self.locations@,
            policy: self.policy,
            launched: self.launched,
            rested: self.rested,
            outcomes: self.outcomes@,
            failure: self.failure,
        }
    }
}

impl<P> Harvest<P> {
    #[verifier::type_invariant]
    spec fn inv(self) -> bool {
        self@.wf()
    }

    /// A run over `locations` that has not begun.
    pub fn new(locations: Vec<Location>, policy: HarvestPolicy) -> (run: Harvest<P>)
        ensures
            run@ == HarvestView::<P>::initial(locations@, policy),
            run@.wf(),
    {
        let blocked = locations.len() > 0 && match policy.max_in_flight {
            Some(bound) => bound == 0,
            None => false,
        };
        let failure = if blocked {
            Some(HarvestError::NoCapacity)
        } else {
            None
        };
        Harvest { locations, policy, launched: 0, rested: false, outcomes: Vec::new(), failure }
    }

    /// The locations of the run, in launch order.
    pub fn locations(&self) -> (locations: &Vec<Location>)
        ensures
            locations@ == self@.locations,
    {
        &self.locations
    }

    /// The policy of the run.
    pub fn policy(&self) -> (policy: HarvestPolicy)
        ensures
            policy == self@.policy,
    {
        self.policy
    }

    /// How many requests are outstanding.
    pub fn in_flight(&self) -> (count: usize)
        ensures
            count == self@.in_flight(),
            self@.wf(),
    {
        proof {
            use_type_invariant(self);
        }
        self.launched - self.outcomes.len()
    }

    /// The action that the run waits for.
    pub fn pending(&self) -> (action: Action)
        ensures
            action == self@.pending(),
            self@.wf(),
    {
        proof {
            use_type_invariant(self);
        }
        if self.failure.is_some() {
            Action::Abort
        } else if self.launched < self.locations.len() && self.policy.has_room(
            self.launched - self.outcomes.len(),
        ) {
            if self.rested {
                Action::Launch { index: self.launched }
            } else {
                Action::Rest { micros: self.policy.pacing_interval_micros }
            }
        } else if self.outcomes.len() < self.launched {
            Action::Await { index: self.outcomes.len() }
        } else {
            Action::Finish
        }
    }

    /// Moves the run on by `event` and tells what it waits for then.
    pub fn step(self, event: Event<P>) -> (moved: (Harvest<P>, Action))
        ensures
            moved.0@ == self@.next(event),
            moved.1 == moved.0@.pending(),
            moved.0@.wf(),
    {
        let action = self.pending();
        let Harvest { locations, policy, launched, rested, mut outcomes, failure } = self;
        let run = match action {
            Action::Rest { micros: _ } => match event {
                Event::Rested => Harvest {
                    locations,
                    policy,
                    launched,
                    rested: true,
                    outcomes,
                    failure,
                },
                _ => Harvest { locations, policy, launched, rested, outcomes, failure },
            },
            Action::Launch { index } => match event {
                Event::Launched { index: started } if started == index => Harvest {
                    locations,
                    policy,
                    launched: launched + 1,
                    rested: false,
                    outcomes,
                    failure,
                },
                _ => Harvest { locations, policy, launched, rested, outcomes, failure },
            },
            Action::Await { index } => match event {
                Event::Completed { index: ended, result } if ended == index => {
                    if policy.fail_fast() && !result.is_success() {
                        let identifier = locations[index].location_id.clone();
                        match result {
                            ForecastResult::Failure(reason) => Harvest {
                                locations,
                                policy,
                                launched,
                                rested,
                                outcomes,
                                failure: Some(
                                    HarvestError::Remote { identifier, failure: reason },
                                ),
                            },
                            ForecastResult::Success(_) => Harvest {
                                locations,
                                policy,
                                launched,
                                rested,
                                outcomes,
                                failure,
                            },
                        }
                    } else {
                        let location = locations[index].clone();
                        outcomes.push(HarvestOutcome { location, result });
                        Harvest { locations, policy, launched, rested, outcomes, failure }
                    }
                },
                Event::JoinFailed { index: lost } if lost == index => {
                    let identifier = locations[index].location_id.clone();
                    Harvest {
                        locations,
                        policy,
                        launched,
                        rested,
                        outcomes,
                        failure: Some(HarvestError::Join { identifier }),
                    }
                },
                _ => Harvest { locations, policy, launched, rested, outcomes, failure },
            },
            _ => Harvest { locations, policy, launched, rested, outcomes, failure },
        };
        let waits = run.pending();
        (run, waits)
    }

    /// Ends the run. `None` while an action other than `Finish` or `Abort`
    /// is pending; else the outcomes of a finished run, one per location in
    /// launch order, or the error of a failed one.
    pub fn conclude(self) -> (ended: Option<Result<Vec<HarvestOutcome<P>>, HarvestError>>)
        ensures
            self@.wf(),
            match self@.pending() {
                Action::Finish => ended matches Some(Ok(outcomes)) && outcomes@ == self@.outcomes
                    && outcomes.len() == self@.locations.len(),
                Action::Abort => ended matches Some(Err(error)) && Some(error) == self@.failure,
                _ => ended is None,
            },
    {
        let action = self.pending();
        let Harvest { locations: _, policy: _, launched: _, rested: _, outcomes, failure } = self;
        match action {
            Action::Finish => Some(Ok(outcomes)),
            Action::Abort => match failure {
                Some(error) => Some(Err(error)),
                None => None,
            },
            _ => None,
        }
    }
}

} // verus!
