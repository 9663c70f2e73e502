//! What holds of every run and of every snapshot.

use crate::forecast::{failures, outcome_identifiers, results_of, ForecastResult, HarvestOutcome};
use crate::harvest::{Action, Event, HarvestError, HarvestView};
use crate::location::{distinct, identifiers, Location};
use crate::policy::HarvestPolicy;
use crate::replay::{fault_at, first_fault, harvested, lemma_first_fault_found, paired};
use crate::snapshot::{arranged, keyed, lemma_keyed_distinct, Snapshot};
use vstd::prelude::*;

verus! {

/// The run after the first `count` of `events`.
pub open spec fn state_at<P>(
    start: HarvestView<P>,
    events: Seq<Event<P>>,
    count: int,
) -> HarvestView<P>
    decreases count,
{
    if count <= 0 {
        start
    } else {
        state_at(start, events, count - 1).next(events[count - 1])
    }
}

/// Event number `at` reports the launch that the run was waiting for.
pub open spec fn launches_at<P>(start: HarvestView<P>, events: Seq<Event<P>>, at: int) -> bool {
    let before = state_at(start, events, at);
    before.pending() is Launch && events[at] == (Event::<P>::Launched { index: before.launched })
}

/// Event number `at` reports a rest of the full pacing interval that the
/// run was waiting for.
pub open spec fn rests_at<P>(start: HarvestView<P>, events: Seq<Event<P>>, at: int) -> bool {
    state_at(start, events, at).pending() == (Action::Rest {
        micros: start.policy.pacing_interval_micros,
    }) && events[at] is Rested
}

/// A run keeps its invariant from its beginning through every event.
pub proof fn run_stays_well_formed<P>(
    locations: Seq<Location>,
    policy: HarvestPolicy,
    events: Seq<Event<P>>,
    count: int,
)
    requires
        locations.len() <= usize::MAX,
    ensures
        state_at(HarvestView::<P>::initial(locations, policy), events, count).wf(),
        state_at(HarvestView::<P>::initial(locations, policy), events, count).locations
            == locations,
        state_at(HarvestView::<P>::initial(locations, policy), events, count).policy == policy,
    decreases count,
{
    if count > 0 {
        run_stays_well_formed(locations, policy, events, count - 1);
        step_keeps_invariant(
            state_at(HarvestView::<P>::initial(locations, policy), events, count - 1),
            events[count - 1],
        );
    }
}

/// One event takes a well-formed run to a well-formed run over the same
/// locations and under the same policy; it never takes an outcome back, and
/// it never lets more requests be outstanding than the policy admits.
pub proof fn step_keeps_invariant<P>(run: HarvestView<P>, event: Event<P>)
    requires
        run.wf(),
    ensures
        run.next(event).wf(),
        run.next(event).locations == run.locations,
        run.next(event).policy == run.policy,
        run.outcomes.is_prefix_of(run.next(event).outcomes),
        run.policy.max_in_flight matches Some(bound) ==> run.next(event).in_flight() <= bound,
{
    let after = run.next(event);
    if after.outcomes != run.outcomes {
        let at = run.outcomes.len() as int;
        assert(after.outcomes == run.outcomes.push(after.outcomes[at]));
        assert forall|k: int| 0 <= k < after.outcomes.len() implies (
        #[trigger] after.outcomes[k]).location == after.locations[k] by {
            if k < at {
                assert(after.outcomes[k] == run.outcomes[k]);
            }
        }
        if after.failure is None && after.policy.is_fail_fast() {
            assert forall|k: int| 0 <= k < after.outcomes.len() implies (
            #[trigger] after.outcomes[k]).succeeded() by {
                if k < at {
                    assert(after.outcomes[k] == run.outcomes[k]);
                }
            }
        }
    }
}

/// A run that waits for `Finish` has one outcome for every location, in
/// the order of the locations.
pub proof fn finished_run_covers_every_location<P>(run: HarvestView<P>)
    requires
        run.wf(),
        run.pending() is Finish,
    ensures
        run.outcomes.len() == run.locations.len(),
        outcome_identifiers(run.outcomes) == identifiers(run.locations),
        run.failure is None,
{
    assert(outcome_identifiers(run.outcomes) =~= identifiers(run.locations));
}

proof fn lemma_policy_kept<P>(start: HarvestView<P>, events: Seq<Event<P>>, count: int)
    ensures
        state_at(start, events, count).policy == start.policy,
    decreases count,
{
    if count > 0 {
        lemma_policy_kept(start, events, count - 1);
    }
}

proof fn lemma_stays_unrested<P>(
    start: HarvestView<P>,
    events: Seq<Event<P>>,
    from: int,
    to: int,
)
    requires
        0 <= from <= to,
        !state_at(start, events, from).rested,
        forall|at: int| from <= at < to ==> !rests_at(start, events, at),
    ensures
        !state_at(start, events, to).rested,
    decreases to - from,
{
    if from < to {
        lemma_stays_unrested(start, events, from, to - 1);
        lemma_policy_kept(start, events, to - 1);
        assert(!rests_at(start, events, to - 1));
    }
}

/// Between two launches of a run lies a rest of the full pacing interval:
/// the run asked for it after the earlier launch and did not ask for the
/// later one before the rest was reported as taken.
pub proof fn rest_between_launches<P>(
    start: HarvestView<P>,
    events: Seq<Event<P>>,
    earlier: int,
    later: int,
)
    requires
        0 <= earlier < later < events.len(),
        launches_at(start, events, earlier),
        launches_at(start, events, later),
    ensures
        exists|between: int| earlier < between < later && rests_at(start, events, between),
{
    if !(exists|between: int| earlier < between < later && rests_at(start, events, between)) {
        assert(!state_at(start, events, earlier + 1).rested);
        lemma_stays_unrested(start, events, earlier + 1, later);
        assert(false);
    }
}

/// The times at which a driver reported its events, where it took every
/// rest in full: no time lies before an earlier one, and a rest is
/// reported no sooner than the pacing interval after the event before it.
pub open spec fn rests_in_full<P>(
    start: HarvestView<P>,
    events: Seq<Event<P>>,
    times: Seq<int>,
) -> bool {
    &&& times.len() == events.len()
    &&& forall|a: int, b: int| 0 <= a <= b < times.len() ==> times[a] <= times[b]
    &&& forall|at: int|
        1 <= at < events.len() && #[trigger] rests_at(start, events, at) ==> times[at] - times[at
            - 1] >= start.policy.pacing_interval_micros
}

/// Where the driver takes every rest in full, two launches of a run lie at
/// least the pacing interval apart.
pub proof fn launches_keep_their_distance<P>(
    start: HarvestView<P>,
    events: Seq<Event<P>>,
    times: Seq<int>,
    earlier: int,
    later: int,
)
    requires
        0 <= earlier < later < events.len(),
        launches_at(start, events, earlier),
        launches_at(start, events, later),
        rests_in_full(start, events, times),
    ensures
        times[later] - times[earlier] >= start.policy.pacing_interval_micros,
{
    rest_between_launches(start, events, earlier, later);
    let between = choose|between: int|
        earlier < between < later && rests_at(start, events, between);
    assert(times[earlier] <= times[between - 1]);
    assert(times[between] <= times[later]);
}

/// Before the first launch of a run, too, lies a rest of the full pacing
/// interval.
pub proof fn rest_before_launch<P>(
    locations: Seq<Location>,
    policy: HarvestPolicy,
    events: Seq<Event<P>>,
    launch: int,
)
    requires
        0 <= launch < events.len(),
        launches_at(HarvestView::<P>::initial(locations, policy), events, launch),
    ensures
        exists|before: int|
            0 <= before < launch && rests_at(
                HarvestView::<P>::initial(locations, policy),
                events,
                before,
            ),
{
    let start = HarvestView::<P>::initial(locations, policy);
    if !(exists|before: int| 0 <= before < launch && rests_at(start, events, before)) {
        lemma_stays_unrested(start, events, 0, launch);
        assert(false);
    }
}

/// A run over no locations waits for `Finish` from its beginning and
/// through every event: it asks for no launch, and its outcomes are empty.
pub proof fn empty_run_asks_nothing<P>(policy: HarvestPolicy, events: Seq<Event<P>>, count: int)
    ensures
        state_at(HarvestView::<P>::initial(Seq::empty(), policy), events, count)
            == HarvestView::<P>::initial(Seq::empty(), policy),
        HarvestView::<P>::initial(Seq::empty(), policy).pending() is Finish,
        HarvestView::<P>::initial(Seq::empty(), policy).outcomes.len() == 0,
    decreases count,
{
    if count > 0 {
        empty_run_asks_nothing(policy, events, count - 1);
    }
}

/// Harvesting no locations gives no outcomes and no error, whatever the
/// answers and the policy.
pub proof fn empty_harvest_is_empty<P>(answers: Seq<ForecastResult<P>>, policy: HarvestPolicy)
    ensures
        harvested(Seq::<Location>::empty(), answers, policy) == Ok::<
            Seq<HarvestOutcome<P>>,
            HarvestError,
        >(Seq::empty()),
{
    assert(paired(Seq::<Location>::empty(), answers) =~= Seq::<HarvestOutcome<P>>::empty());
}

proof fn lemma_no_fault<P>(
    locations: Seq<Location>,
    answers: Seq<ForecastResult<P>>,
    fail_fast: bool,
    upto: nat,
)
    requires
        forall|k: int| 0 <= k < upto ==> fault_at(locations, answers, fail_fast, k) is None,
    ensures
        first_fault(locations, answers, fail_fast, upto) is None,
    decreases upto,
{
    if upto > 0 {
        lemma_no_fault(locations, answers, fail_fast, (upto - 1) as nat);
    }
}

proof fn lemma_paired<P>(locations: Seq<Location>, answers: Seq<ForecastResult<P>>)
    requires
        answers.len() == locations.len(),
    ensures
        outcome_identifiers(paired(locations, answers)) == identifiers(locations),
        results_of(paired(locations, answers)) == answers,
{
    assert(outcome_identifiers(paired(locations, answers)) =~= identifiers(locations));
    assert(results_of(paired(locations, answers)) =~= answers);
}

proof fn lemma_no_failures<P>(results: Seq<ForecastResult<P>>)
    requires
        forall|k: int| 0 <= k < results.len() ==> results[k] is Success,
    ensures
        failures(results) == 0,
    decreases results.len(),
{
    if results.len() > 0 {
        assert forall|k: int| 0 <= k < results.drop_last().len() implies results.drop_last()[k]
            is Success by {
            assert(results.drop_last()[k] == results[k]);
        }
        lemma_no_failures(results.drop_last());
    }
}

/// Where every location has an answer and every answer is a forecast, the
/// harvest gives one outcome per location: as many as there are locations,
/// under the same identifiers in the same order, none of them failed.
///
/// The policy must admit at least one outstanding request.
pub proof fn all_succeed_all_harvested<P>(
    locations: Seq<Location>,
    answers: Seq<ForecastResult<P>>,
    policy: HarvestPolicy,
)
    requires
        answers.len() == locations.len(),
        forall|k: int| 0 <= k < answers.len() ==> answers[k] is Success,
        policy.max_in_flight != Some(0usize),
    ensures
        harvested(locations, answers, policy) matches Ok(outcomes) && {
            &&& outcomes.len() == locations.len()
            &&& outcome_identifiers(outcomes) == identifiers(locations)
            &&& outcome_identifiers(outcomes).to_set() == identifiers(locations).to_set()
            &&& failures(results_of(outcomes)) == 0
            &&& distinct(identifiers(locations)) ==> distinct(outcome_identifiers(outcomes))
        },
{
    lemma_no_fault(locations, answers, policy.is_fail_fast(), locations.len());
    lemma_paired(locations, answers);
    lemma_no_failures(answers);
}

/// Under fail-fast the first failed answer ends the harvest: the error
/// names the location of that answer and wraps its reason, and there are no
/// outcomes.
///
/// The policy must admit at least one outstanding request.
pub proof fn fail_fast_reports_first_failure<P>(
    locations: Seq<Location>,
    answers: Seq<ForecastResult<P>>,
    policy: HarvestPolicy,
    failed: int,
)
    requires
        answers.len() == locations.len(),
        policy.is_fail_fast(),
        policy.max_in_flight != Some(0usize),
        0 <= failed < answers.len(),
        answers[failed] is Failure,
        forall|k: int| 0 <= k < failed ==> answers[k] is Success,
    ensures
        harvested(locations, answers, policy) == Err::<Seq<HarvestOutcome<P>>, HarvestError>(
            HarvestError::Remote {
                identifier: locations[failed].location_id,
                failure: answers[failed]->Failure_0,
            },
        ),
{
    lemma_no_fault(locations, answers, true, failed as nat);
    lemma_first_fault_found(locations, answers, true, failed as nat, locations.len());
}

/// Under fail-soft every location has its outcome whatever the answers
/// are: as many outcomes as locations, under the same identifiers, each
/// with the answer of its location, so that as many have failed as there
/// are failed answers. Where no identifier occurs twice, keying the
/// outcomes gives one entry per location.
///
/// The policy must admit at least one outstanding request.
pub proof fn fail_soft_keeps_every_location<P>(
    locations: Seq<Location>,
    answers: Seq<ForecastResult<P>>,
    policy: HarvestPolicy,
)
    requires
        answers.len() == locations.len(),
        !policy.is_fail_fast(),
        policy.max_in_flight != Some(0usize),
    ensures
        harvested(locations, answers, policy) matches Ok(outcomes) && {
            &&& outcomes.len() == locations.len()
            &&& outcome_identifiers(outcomes) == identifiers(locations)
            &&& results_of(outcomes) == answers
            &&& failures(results_of(outcomes)) == failures(answers)
            &&& distinct(identifiers(locations)) ==> keyed(outcomes).dom().finite() && keyed(
                outcomes,
            ).dom().len() == locations.len()
        },
{
    lemma_no_fault(locations, answers, false, locations.len());
    lemma_paired(locations, answers);
    if distinct(identifiers(locations)) {
        lemma_keyed_distinct(paired(locations, answers));
    }
}

/// Assembling the same outcomes twice gives equal snapshots: the same
/// entries in the same order, and the same outcome under every identifier.
pub proof fn assembled_twice_is_equal<P>(
    outcomes: Seq<HarvestOutcome<P>>,
    first: Snapshot<P>,
    second: Snapshot<P>,
)
    requires
        first@ == keyed(outcomes),
        first.listing() == arranged(outcomes),
        second@ == keyed(outcomes),
        second.listing() == arranged(outcomes),
    ensures
        first.listing() == second.listing(),
        first@ == second@,
{
}

} // verus!
