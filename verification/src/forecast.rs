//! What the provider answers for one location.

use crate::location::Location;
use vstd::prelude::*;
use vstd::string::StringExecFns;

verus! {

/// Why the provider gave no forecast for a location.
#[derive(Debug, PartialEq, Eq)]
pub enum RemoteFailure {
    /// The provider knows no such location (its code 404).
    NotFound,
    /// The provider turned the request down for coming too fast (its code 429).
    RateLimited,
    /// The request or its answer was lost on the way; the text says how.
    Transport(String),
    /// Anything else the provider said.
    Other(String),
}

impl Clone for RemoteFailure {
    fn clone(&self) -> (copy: RemoteFailure)
        ensures
            copy == *self,
    {
        match self {
            RemoteFailure::NotFound => RemoteFailure::NotFound,
            RemoteFailure::RateLimited => RemoteFailure::RateLimited,
            RemoteFailure::Transport(text) => RemoteFailure::Transport(text.clone()),
            RemoteFailure::Other(text) => RemoteFailure::Other(text.clone()),
        }
    }
}

impl RemoteFailure {
    /// The failure that an error text of the provider stands for.
    pub open spec fn classified(text: String) -> RemoteFailure {
        if text@ == "404"@ {
            RemoteFailure::NotFound
        } else if text@ == "429"@ {
            RemoteFailure::RateLimited
        } else {
            RemoteFailure::Other(text)
        }
    }

    /// Sorts an error text of the provider: its codes 404 and 429 have
    /// variants of their own, every other text is kept as it came.
    pub fn from_provider(text: String) -> (failure: RemoteFailure)
        ensures
            failure == RemoteFailure::classified(text),
    {
        let not_found = String::from_str("404");
        let rate_limited = String::from_str("429");
        if text == not_found {
            RemoteFailure::NotFound
        } else if text == rate_limited {
            RemoteFailure::RateLimited
        } else {
            RemoteFailure::Other(text)
        }
    }

    /// The failure in the words of the provider.
    pub open spec fn reason_text(self) -> Seq<char> {
        match self {
            RemoteFailure::NotFound => "404"@,
            RemoteFailure::RateLimited => "429"@,
            RemoteFailure::Transport(text) => text@,
            RemoteFailure::Other(text) => text@,
        }
    }

    /// The failure in the words of the provider: the code of a variant that
    /// stands for one, else the text that came with it.
    pub fn reason(&self) -> (text: String)
        ensures
            text@ == self.reason_text(),
    {
        match self {
            RemoteFailure::NotFound => String::from_str("404"),
            RemoteFailure::RateLimited => String::from_str("429"),
            RemoteFailure::Transport(text) => text.clone(),
            RemoteFailure::Other(text) => text.clone(),
        }
    }
}

/// The provider's answer for one location: a forecast, which this crate
/// carries and never reads, or the reason why there is none.
#[derive(Clone, Debug, PartialEq, Eq)]
pub enum ForecastResult<P> {
    Success(P),
    Failure(RemoteFailure),
}

impl<P> ForecastResult<P> {
    /// Whether the answer holds a forecast.
    pub fn is_success(&self) -> (yes: bool)
        ensures
            yes == (*self is Success),
    {
        match self {
            ForecastResult::Success(_) => true,
            ForecastResult::Failure(_) => false,
        }
    }

    /// The reason of a failed answer.
    pub fn failure(&self) -> (reason: Option<&RemoteFailure>)
        ensures
            match *self {
                ForecastResult::Success(_) => reason is None,
                ForecastResult::Failure(failure) => reason == Some(&failure),
            },
    {
        match self {
            ForecastResult::Success(_) => None,
            ForecastResult::Failure(failure) => Some(failure),
        }
    }
}

/// A location together with the provider's answer for it.
#[derive(Clone, Debug, PartialEq, Eq)]
pub struct HarvestOutcome<P> {
    pub location: Location,
    pub result: ForecastResult<P>,
}

impl<P> HarvestOutcome<P> {
    /// Whether the location got its forecast.
    pub open spec fn succeeded(self) -> bool {
        self.result is Success
    }

    /// Whether the location got its forecast.
    pub fn is_success(&self) -> (yes: bool)
        ensures
            yes == self.succeeded(),
    {
        self.result.is_success()
    }
}

/// The identifiers of the locations of `outcomes`, in their order.
pub open spec fn outcome_identifiers<P>(outcomes: Seq<HarvestOutcome<P>>) -> Seq<Seq<char>> {
    outcomes.map_values(|o: HarvestOutcome<P>| o.location.location_id@)
}

/// How many of `results` are failures.
pub open spec fn failures<P>(results: Seq<ForecastResult<P>>) -> nat
    decreases results.len(),
{
    if results.len() == 0 {
        0
    } else {
        failures(results.drop_last()) + if results.last() is Failure {
            1nat
        } else {
            0nat
        }
    }
}

/// The answers of `outcomes`, in their order.
pub open spec fn results_of<P>(outcomes: Seq<HarvestOutcome<P>>) -> Seq<ForecastResult<P>> {
    outcomes.map_values(|o: HarvestOutcome<P>| o.result)
}

/// Counts the failed among `outcomes`.
pub fn count_failed<P>(outcomes: &Vec<HarvestOutcome<P>>) -> (failed: usize)
    ensures
        failed == failures(results_of(outcomes@)),
{
    let ghost results = results_of(outcomes@);
    let mut failed: usize = 0;
    let mut at: usize = 0;
    while at < outcomes.len()
        invariant
            results == results_of(outcomes@),
            at <= outcomes.len(),
            failed <= at,
            failed == failures(results.take(at as int)),
        decreases outcomes.len() - at,
    {
        proof {
            assert(results.take(at as int + 1).drop_last() == results.take(at as int));
            assert(results.take(at as int + 1).last() == outcomes[at as int].result);
        }
        if !outcomes[at].is_success() {
            failed += 1;
        }
        at += 1;
    }
    proof {
        assert(results.take(at as int) == results);
    }
    failed
}

} // verus!
