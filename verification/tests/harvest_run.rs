use forecast_harvest::forecast::{ForecastResult, HarvestOutcome, RemoteFailure};
use forecast_harvest::harvest::{Action, Event, Harvest, HarvestError};
use forecast_harvest::location::Location;
use forecast_harvest::policy::{FailurePolicy, HarvestPolicy};
use forecast_harvest::snapshot::{assemble, snapshot_of};

fn place(identifier: &str) -> Location {
    let mut fields: Vec<String> = vec![identifier.to_string()];
    while fields.len() < 14 {
        fields.push(String::new());
    }
    Location::from_fields(&fields).unwrap()
}

fn places(identifiers: &[&str]) -> Vec<Location> {
    identifiers.iter().map(|identifier| place(identifier)).collect()
}

/// Runs a harvest as a driver would, asking `client` for every launch, and
/// keeps the actions in the order in which the run asked for them.
fn drive(
    locations: Vec<Location>,
    policy: HarvestPolicy,
    client: &dyn Fn(&str) -> ForecastResult<u32>,
) -> (Result<Vec<HarvestOutcome<u32>>, HarvestError>, Vec<Action>) {
    let mut asked: Vec<Action> = Vec::new();
    let mut answers: Vec<Option<ForecastResult<u32>>> = Vec::new();
    let mut run: Harvest<u32> = Harvest::new(locations, policy);
    let mut action: Action = run.pending();
    loop {
        asked.push(action);
        let event: Event<u32> = match action {
            Action::Rest { .. } => Event::Rested,
            Action::Launch { index } => {
                let identifier: String = run.locations()[index].location_id.clone();
                answers.push(Some(client(&identifier)));
                Event::Launched { index }
            }
            Action::Await { index } => Event::Completed { index, result: answers[index].take().unwrap() },
            Action::Finish | Action::Abort => break,
        };
        let (moved, waits) = run.step(event);
        run = moved;
        action = waits;
    }
    (run.conclude().unwrap(), asked)
}

fn fails_for_b(identifier: &str) -> ForecastResult<u32> {
    if identifier == "B" {
        ForecastResult::Failure(RemoteFailure::NotFound)
    } else {
        ForecastResult::Success(identifier.len() as u32)
    }
}

fn always_succeeds(_identifier: &str) -> ForecastResult<u32> {
    ForecastResult::Success(7)
}

#[test]
fn fail_soft_keeps_the_failed_location() {
    let policy = HarvestPolicy::unbounded(0, FailurePolicy::FailSoft);
    let (ended, _) = drive(places(&["A", "B", "C"]), policy, &fails_for_b);
    let outcomes = ended.unwrap();
    assert_eq!(outcomes.len(), 3);
    assert_eq!(outcomes[0], HarvestOutcome { location: place("A"), result: ForecastResult::Success(1) });
    assert_eq!(
        outcomes[1],
        HarvestOutcome { location: place("B"), result: ForecastResult::Failure(RemoteFailure::NotFound) }
    );
    assert_eq!(outcomes[2], HarvestOutcome { location: place("C"), result: ForecastResult::Success(1) });
    let snapshot = assemble(outcomes);
    assert_eq!(snapshot.len(), 3);
    assert!(snapshot.get(&"A".to_string()).unwrap().is_success());
    assert!(!snapshot.get(&"B".to_string()).unwrap().is_success());
    assert!(snapshot.get(&"C".to_string()).unwrap().is_success());
}

#[test]
fn fail_fast_reports_the_failed_location() {
    let policy = HarvestPolicy::unbounded(0, FailurePolicy::FailFast);
    let (ended, asked) = drive(places(&["A", "B", "C"]), policy, &fails_for_b);
    assert_eq!(
        ended,
        Err(HarvestError::Remote { identifier: "B".to_string(), failure: RemoteFailure::NotFound })
    );
    assert_eq!(asked.last(), Some(&Action::Abort));
    assert!(!asked.contains(&Action::Await { index: 2 }));
    let (again, _) = drive(places(&["A", "B", "C"]), policy, &fails_for_b);
    assert!(snapshot_of(again).is_err());
}

#[test]
fn unbounded_run_launches_all_then_awaits_all() {
    let policy = HarvestPolicy::unbounded(5, FailurePolicy::FailFast);
    let (ended, asked) = drive(places(&["A", "B"]), policy, &always_succeeds);
    assert!(ended.is_ok());
    assert_eq!(
        asked,
        vec![
            Action::Rest { micros: 5 },
            Action::Launch { index: 0 },
            Action::Rest { micros: 5 },
            Action::Launch { index: 1 },
            Action::Await { index: 0 },
            Action::Await { index: 1 },
            Action::Finish,
        ]
    );
}

#[test]
fn every_launch_follows_a_rest_of_the_interval() {
    let policy = HarvestPolicy { pacing_interval_micros: 250, max_in_flight: Some(2), on_failure: FailurePolicy::FailSoft };
    let (_, asked) = drive(places(&["A", "B", "C", "D", "E"]), policy, &fails_for_b);
    let mut launches: usize = 0;
    let mut rested: bool = false;
    for action in asked {
        match action {
            Action::Rest { micros } => {
                assert_eq!(micros, 250);
                rested = true;
            }
            Action::Launch { index } => {
                assert!(rested);
                assert_eq!(index, launches);
                launches += 1;
                rested = false;
            }
            _ => {}
        }
    }
    assert_eq!(launches, 5);
}

#[test]
fn bound_of_one_alternates_launch_and_await() {
    let policy = HarvestPolicy { pacing_interval_micros: 1, max_in_flight: Some(1), on_failure: FailurePolicy::FailFast };
    let (ended, asked) = drive(places(&["A", "C"]), policy, &always_succeeds);
    assert_eq!(ended.unwrap().len(), 2);
    assert_eq!(
        asked,
        vec![
            Action::Rest { micros: 1 },
            Action::Launch { index: 0 },
            Action::Await { index: 0 },
            Action::Rest { micros: 1 },
            Action::Launch { index: 1 },
            Action::Await { index: 1 },
            Action::Finish,
        ]
    );
}

#[test]
fn outstanding_requests_stay_within_the_bound() {
    let policy = HarvestPolicy { pacing_interval_micros: 0, max_in_flight: Some(3), on_failure: FailurePolicy::FailSoft };
    let mut run: Harvest<u32> = Harvest::new(places(&["A", "B", "C", "D", "E", "F", "G"]), policy);
    let mut action: Action = run.pending();
    let mut most: usize = 0;
    loop {
        let event: Event<u32> = match action {
            Action::Rest { .. } => Event::Rested,
            Action::Launch { index } => Event::Launched { index },
            Action::Await { index } => Event::Completed { index, result: ForecastResult::Success(0) },
            _ => break,
        };
        let (moved, waits) = run.step(event);
        run = moved;
        action = waits;
        assert!(run.in_flight() <= 3);
        if run.in_flight() > most {
            most = run.in_flight();
        }
    }
    assert_eq!(most, 3);
    assert_eq!(action, Action::Finish);
    assert_eq!(run.conclude().unwrap().unwrap().len(), 7);
}

#[test]
fn empty_run_finishes_without_a_launch() {
    let (ended, asked) = drive(Vec::new(), HarvestPolicy::default(), &always_succeeds);
    assert_eq!(ended, Ok(Vec::new()));
    assert_eq!(asked, vec![Action::Finish]);
    let blocked = HarvestPolicy { pacing_interval_micros: 1, max_in_flight: Some(0), on_failure: FailurePolicy::FailFast };
    let (ended, asked) = drive(Vec::new(), blocked, &always_succeeds);
    assert_eq!(ended, Ok(Vec::new()));
    assert_eq!(asked, vec![Action::Finish]);
}

#[test]
fn bound_of_zero_aborts_a_run_with_locations() {
    let blocked = HarvestPolicy { pacing_interval_micros: 1, max_in_flight: Some(0), on_failure: FailurePolicy::FailSoft };
    let (ended, asked) = drive(places(&["A"]), blocked, &always_succeeds);
    assert_eq!(ended, Err(HarvestError::NoCapacity));
    assert_eq!(asked, vec![Action::Abort]);
}

#[test]
fn all_succeed_gives_one_outcome_per_location() {
    let identifiers = ["101010100", "101020100", "101030100", "101040100"];
    let (ended, _) = drive(places(&identifiers), HarvestPolicy::default(), &always_succeeds);
    let outcomes = ended.unwrap();
    assert_eq!(outcomes.len(), 4);
    let got: Vec<&str> = outcomes.iter().map(|outcome| outcome.location.location_id.as_str()).collect();
    assert_eq!(got, identifiers.to_vec());
    assert!(outcomes.iter().all(|outcome| outcome.is_success()));
}

#[test]
fn lost_task_aborts_under_either_policy() {
    for on_failure in [FailurePolicy::FailFast, FailurePolicy::FailSoft] {
        let run: Harvest<u32> = Harvest::new(places(&["A", "B"]), HarvestPolicy::unbounded(1, on_failure));
        let (run, _) = run.step(Event::Rested);
        let (run, _) = run.step(Event::Launched { index: 0 });
        let (run, _) = run.step(Event::Rested);
        let (run, waits) = run.step(Event::Launched { index: 1 });
        assert_eq!(waits, Action::Await { index: 0 });
        let (run, waits) = run.step(Event::Completed { index: 0, result: ForecastResult::Success(1) });
        assert_eq!(waits, Action::Await { index: 1 });
        let (run, waits) = run.step(Event::JoinFailed { index: 1 });
        assert_eq!(waits, Action::Abort);
        assert_eq!(run.conclude(), Some(Err(HarvestError::Join { identifier: "B".to_string() })));
    }
}

#[test]
fn stray_events_change_nothing() {
    let run: Harvest<u32> = Harvest::new(places(&["A", "B"]), HarvestPolicy::unbounded(9, FailurePolicy::FailFast));
    assert_eq!(run.pending(), Action::Rest { micros: 9 });
    let (run, waits) = run.step(Event::Launched { index: 0 });
    assert_eq!(waits, Action::Rest { micros: 9 });
    let (run, waits) = run.step(Event::Completed { index: 0, result: ForecastResult::Success(1) });
    assert_eq!(waits, Action::Rest { micros: 9 });
    let (run, waits) = run.step(Event::Rested);
    assert_eq!(waits, Action::Launch { index: 0 });
    let (run, waits) = run.step(Event::Launched { index: 1 });
    assert_eq!(waits, Action::Launch { index: 0 });
    let (run, waits) = run.step(Event::Rested);
    assert_eq!(waits, Action::Launch { index: 0 });
    assert_eq!(run.in_flight(), 0);
    let (run, _) = run.step(Event::Launched { index: 0 });
    assert_eq!(run.in_flight(), 1);
    let (run, _) = run.step(Event::Rested);
    let (run, waits) = run.step(Event::Launched { index: 1 });
    assert_eq!(waits, Action::Await { index: 0 });
    let (run, waits) = run.step(Event::Completed { index: 1, result: ForecastResult::Success(1) });
    assert_eq!(waits, Action::Await { index: 0 });
    let (run, waits) = run.step(Event::JoinFailed { index: 1 });
    assert_eq!(waits, Action::Await { index: 0 });
    assert_eq!(run.in_flight(), 2);
    assert_eq!(run.conclude(), None);
}

#[test]
fn run_keeps_its_locations_and_policy() {
    let policy = HarvestPolicy { pacing_interval_micros: 3, max_in_flight: Some(4), on_failure: FailurePolicy::FailSoft };
    let run: Harvest<u32> = Harvest::new(places(&["A", "B"]), policy);
    assert_eq!(run.locations(), &places(&["A", "B"]));
    assert_eq!(run.policy(), policy);
    assert_eq!(run.in_flight(), 0);
}

#[test]
fn fail_soft_counts_failed_and_succeeded() {
    let policy = HarvestPolicy::unbounded(0, FailurePolicy::FailSoft);
    let fails_for_vowels = |identifier: &str| -> ForecastResult<u32> {
        if identifier == "A" || identifier == "E" {
            ForecastResult::Failure(RemoteFailure::RateLimited)
        } else {
            ForecastResult::Success(1)
        }
    };
    let (ended, _) = drive(places(&["A", "B", "C", "D", "E"]), policy, &fails_for_vowels);
    let outcomes = ended.unwrap();
    assert_eq!(outcomes.len(), 5);
    assert_eq!(forecast_harvest::forecast::count_failed(&outcomes), 2);
    assert_eq!(outcomes.iter().filter(|outcome| outcome.is_success()).count(), 3);
    assert_eq!(assemble(outcomes).len(), 5);
}
