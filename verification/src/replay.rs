//! A whole run at once, against answers that are already known.
//!
//! `harvest` drives a run to its end without waiting: the answer that the
//! provider gave, or would give, for each location is handed in beside the
//! locations. What comes out is stated without the run, by `harvested`.

use crate::forecast::{ForecastResult, HarvestOutcome};
use crate::harvest::{Action, Event, Harvest, HarvestError, HarvestView};
use crate::location::Location;
use crate::policy::HarvestPolicy;
use crate::sequence::reversed;
use vstd::pervasive::unreached;
use vstd::prelude::*;

verus! {

/// Each location with the answer at its place.
pub open spec fn paired<P>(
    locations: Seq<Location>,
    answers: Seq<ForecastResult<P>>,
) -> Seq<HarvestOutcome<P>> {
    Seq::new(
        locations.len(),
        |k: int| HarvestOutcome { location: locations[k], result: answers[k] },
    )
}

/// Why the run ends when it collects location `at`, if it does: there is no
/// answer for it, or the answer is a failure and the run is fail-fast.
pub open spec fn fault_at<P>(
    locations: Seq<Location>,
    answers: Seq<ForecastResult<P>>,
    fail_fast: bool,
    at: int,
) -> Option<HarvestError> {
    if at >= answers.len() {
        Some(HarvestError::Join { identifier: locations[at].location_id })
    } else {
        match answers[at] {
            ForecastResult::Failure(failure) if fail_fast => Some(
                HarvestError::Remote { identifier: locations[at].location_id, failure },
            ),
            _ => None,
        }
    }
}

/// The fault of the first location among the first `upto` that has one.
pub open spec fn first_fault<P>(
    locations: Seq<Location>,
    answers: Seq<ForecastResult<P>>,
    fail_fast: bool,
    upto: nat,
) -> Option<HarvestError>
    decreases upto,
{
    if upto == 0 {
        None
    } else {
        match first_fault(locations, answers, fail_fast, (upto - 1) as nat) {
            Some(error) => Some(error),
            None => fault_at(locations, answers, fail_fast, upto - 1),
        }
    }
}

/// What a run over `locations` gives when the request for location `k`
/// comes back with `answers[k]`, a missing answer standing for a task that
/// was lost.
pub open spec fn harvested<P>(
    locations: Seq<Location>,
    answers: Seq<ForecastResult<P>>,
    policy: HarvestPolicy,
) -> Result<Seq<HarvestOutcome<P>>, HarvestError> {
    if locations.len() > 0 && policy.max_in_flight == Some(0usize) {
        Err(HarvestError::NoCapacity)
    } else {
        match first_fault(locations, answers, policy.is_fail_fast(), locations.len()) {
            Some(error) => Err(error),
            None => Ok(paired(locations, answers)),
        }
    }
}

proof fn lemma_first_fault_stays<P>(
    locations: Seq<Location>,
    answers: Seq<ForecastResult<P>>,
    fail_fast: bool,
    early: nat,
    late: nat,
)
    requires
        early <= late,
        first_fault(locations, answers, fail_fast, early) is Some,
    ensures
        first_fault(locations, answers, fail_fast, late) == first_fault(
            locations,
            answers,
            fail_fast,
            early,
        ),
    decreases late,
{
    if early < late {
        lemma_first_fault_stays(locations, answers, fail_fast, early, (late - 1) as nat);
    }
}

pub(crate) proof fn lemma_first_fault_found<P>(
    locations: Seq<Location>,
    answers: Seq<ForecastResult<P>>,
    fail_fast: bool,
    at: nat,
    upto: nat,
)
    requires
        at < upto,
        first_fault(locations, answers, fail_fast, at) is None,
        fault_at(locations, answers, fail_fast, at as int) is Some,
    ensures
        first_fault(locations, answers, fail_fast, upto) == fault_at(
            locations,
            answers,
            fail_fast,
            at as int,
        ),
{
    assert(first_fault(locations, answers, fail_fast, at + 1) == fault_at(
        locations,
        answers,
        fail_fast,
        at as int,
    ));
    lemma_first_fault_stays(locations, answers, fail_fast, at + 1, upto);
}

/// The steps that a run can still take at most.
spec fn steps_left<P>(run: HarvestView<P>) -> int {
    if run.failure is Some {
        0
    } else {
        3 * run.locations.len() + 1 - 2 * run.launched - run.outcomes.len() - if run.rested {
            1int
        } else {
            0int
        }
    }
}

/// What `harvest` knows of its run between two steps.
spec fn on_course<P>(
    run: HarvestView<P>,
    locations: Seq<Location>,
    answers: Seq<ForecastResult<P>>,
    policy: HarvestPolicy,
    unread: Seq<ForecastResult<P>>,
) -> bool {
    &&& run.wf()
    &&& run.locations == locations
    &&& run.policy == policy
    &&& match run.failure {
        Some(error) => harvested(locations, answers, policy) == Err::<
            Seq<HarvestOutcome<P>>,
            HarvestError,
        >(error),
        None => {
            &&& unread.len() + run.outcomes.len() == answers.len()
            &&& forall|k: int|
                0 <= k < unread.len() ==> unread[k] == answers[answers.len() - 1 - k]
            &&& first_fault(locations, answers, policy.is_fail_fast(), run.outcomes.len())
                is None
            &&& run.outcomes == paired(locations, answers).take(run.outcomes.len() as int)
        },
    }
}

fn is_running(action: Action) -> (running: bool)
    ensures
        running == !(action is Finish || action is Abort),
{
    match action {
        Action::Finish => false,
        Action::Abort => false,
        _ => true,
    }
}

/// Runs a harvest to its end against known answers: `answers[k]` is what
/// the request for `locations[k]` comes back with, and a location without
/// an answer counts as a task that was lost.
///
/// The outcomes pair every location with its answer, in the order of the
/// locations. The run fails with the fault of the first location that has
/// one: a lost task, or, under fail-fast, a failed answer. It fails with
/// `NoCapacity` where there are locations and the policy admits no request.
pub fn harvest<P>(
    locations: Vec<Location>,
    answers: Vec<ForecastResult<P>>,
    policy: HarvestPolicy,
) -> (outcome: Result<Vec<HarvestOutcome<P>>, HarvestError>)
    ensures
        match harvested(locations@, answers@, policy) {
            Ok(outcomes) => outcome matches Ok(got) && got@ == outcomes,
            Err(error) => outcome matches Err(got) && got == error,
        },
{
    let ghost places = locations@;
    let ghost known = answers@;
    let mut unread = reversed(answers);
    let mut run: Harvest<P> = Harvest::new(locations, policy);
    let mut action = run.pending();
    proof {
        assert(run@.outcomes == paired(places, known).take(0));
    }
    while is_running(action)
        invariant
            on_course(run@, places, known, policy, unread@),
            action == run@.pending(),
        decreases steps_left(run@),
    {
        let ghost before = run@;
        let ghost done = before.outcomes.len();
        let event = match action {
            Action::Launch { index } => Event::Launched { index },
            Action::Await { index } => match unread.pop() {
                Some(result) => Event::Completed { index, result },
                None => Event::JoinFailed { index },
            },
            _ => Event::Rested,
        };
        let (moved, waits) = run.step(event);
        proof {
            let fail_fast = policy.is_fail_fast();
            if action is Await {
                if event is JoinFailed {
                    assert(fault_at(places, known, fail_fast, done as int) is Some);
                    lemma_first_fault_found(places, known, fail_fast, done, places.len());
                } else {
                    let result = event->Completed_result;
                    assert(result == known[done as int]);
                    if fail_fast && result is Failure {
                        assert(fault_at(places, known, fail_fast, done as int) is Some);
                        lemma_first_fault_found(places, known, fail_fast, done, places.len());
                    } else {
                        assert(fault_at(places, known, fail_fast, done as int) is None);
                        assert(first_fault(places, known, fail_fast, done + 1) is None);
                        assert(moved@.outcomes == paired(places, known).take(done as int + 1));
                    }
                }
            }
        }
        run = moved;
        action = waits;
    }
    match run.conclude() {
        Some(Ok(outcomes)) => {
            proof {
                assert(outcomes@ == paired(places, known));
            }
            Ok(outcomes)
        },
        Some(Err(error)) => Err(error),
        None => unreached(),
    }
}

} // verus!
