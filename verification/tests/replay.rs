use forecast_harvest::forecast::{ForecastResult, HarvestOutcome, RemoteFailure};
use forecast_harvest::harvest::HarvestError;
use forecast_harvest::location::Location;
use forecast_harvest::policy::{FailurePolicy, HarvestPolicy};
use forecast_harvest::replay::harvest;
use forecast_harvest::snapshot::snapshot_of;

fn spot(identifier: &str) -> Location {
    let mut fields: Vec<String> = vec![identifier.to_string()];
    while fields.len() < 14 {
        fields.push(String::new());
    }
    Location::from_fields(&fields).unwrap()
}

fn spots(identifiers: &[&str]) -> Vec<Location> {
    identifiers.iter().map(|identifier| spot(identifier)).collect()
}

fn scenario_answers() -> Vec<ForecastResult<&'static str>> {
    vec![
        ForecastResult::Success("sunny"),
        ForecastResult::Failure(RemoteFailure::NotFound),
        ForecastResult::Success("rain"),
    ]
}

#[test]
fn replay_fail_soft_scenario() {
    let policy = HarvestPolicy::unbounded(1, FailurePolicy::FailSoft);
    let outcomes = harvest(spots(&["A", "B", "C"]), scenario_answers(), policy).unwrap();
    assert_eq!(
        outcomes,
        vec![
            HarvestOutcome { location: spot("A"), result: ForecastResult::Success("sunny") },
            HarvestOutcome { location: spot("B"), result: ForecastResult::Failure(RemoteFailure::NotFound) },
            HarvestOutcome { location: spot("C"), result: ForecastResult::Success("rain") },
        ]
    );
    let snapshot = snapshot_of(Ok(outcomes)).unwrap();
    assert_eq!(snapshot.len(), 3);
}

#[test]
fn replay_fail_fast_scenario() {
    let policy = HarvestPolicy::unbounded(1, FailurePolicy::FailFast);
    let ended = harvest(spots(&["A", "B", "C"]), scenario_answers(), policy);
    assert_eq!(
        ended,
        Err(HarvestError::Remote { identifier: "B".to_string(), failure: RemoteFailure::NotFound })
    );
    assert_eq!(
        snapshot_of(ended).err(),
        Some(HarvestError::Remote { identifier: "B".to_string(), failure: RemoteFailure::NotFound })
    );
}

#[test]
fn replay_fail_fast_reports_the_first_of_two_failures() {
    let answers: Vec<ForecastResult<u8>> = vec![
        ForecastResult::Success(1),
        ForecastResult::Failure(RemoteFailure::RateLimited),
        ForecastResult::Failure(RemoteFailure::NotFound),
    ];
    let ended = harvest(spots(&["A", "B", "C"]), answers, HarvestPolicy::default());
    assert_eq!(
        ended,
        Err(HarvestError::Remote { identifier: "B".to_string(), failure: RemoteFailure::RateLimited })
    );
}

#[test]
fn replay_empty_input_is_empty_success() {
    let none: Vec<ForecastResult<u8>> = Vec::new();
    assert_eq!(harvest(Vec::new(), none, HarvestPolicy::default()), Ok(Vec::new()));
    let unused: Vec<ForecastResult<u8>> = vec![ForecastResult::Failure(RemoteFailure::NotFound)];
    let blocked = HarvestPolicy { pacing_interval_micros: 0, max_in_flight: Some(0), on_failure: FailurePolicy::FailFast };
    assert_eq!(harvest(Vec::new(), unused, blocked), Ok(Vec::new()));
}

#[test]
fn replay_all_success_keeps_order_and_count() {
    let answers: Vec<ForecastResult<usize>> = (0..6).map(|k: usize| ForecastResult::Success(k * 10)).collect();
    let bounded = HarvestPolicy { pacing_interval_micros: 2, max_in_flight: Some(2), on_failure: FailurePolicy::FailFast };
    let outcomes = harvest(spots(&["a", "b", "c", "d", "e", "f"]), answers, bounded).unwrap();
    assert_eq!(outcomes.len(), 6);
    for (at, outcome) in outcomes.iter().enumerate() {
        assert_eq!(outcome.location.location_id, ["a", "b", "c", "d", "e", "f"][at]);
        assert_eq!(outcome.result, ForecastResult::Success(at * 10));
    }
}

#[test]
fn replay_missing_answer_is_a_lost_task() {
    let answers: Vec<ForecastResult<u8>> = vec![ForecastResult::Success(1)];
    let soft = HarvestPolicy::unbounded(0, FailurePolicy::FailSoft);
    assert_eq!(
        harvest(spots(&["A", "B", "C"]), answers, soft),
        Err(HarvestError::Join { identifier: "B".to_string() })
    );
}

#[test]
fn replay_surplus_answers_are_ignored() {
    let answers: Vec<ForecastResult<u8>> = vec![ForecastResult::Success(1), ForecastResult::Success(2)];
    let outcomes = harvest(spots(&["A"]), answers, HarvestPolicy::default()).unwrap();
    assert_eq!(outcomes, vec![HarvestOutcome { location: spot("A"), result: ForecastResult::Success(1) }]);
}

#[test]
fn replay_bound_of_zero_has_no_capacity() {
    let answers: Vec<ForecastResult<u8>> = vec![ForecastResult::Success(1)];
    let blocked = HarvestPolicy { pacing_interval_micros: 0, max_in_flight: Some(0), on_failure: FailurePolicy::FailSoft };
    assert_eq!(harvest(spots(&["A"]), answers, blocked), Err(HarvestError::NoCapacity));
}
