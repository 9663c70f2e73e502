//! The outcomes of a run, keyed by location identifier.

use crate::forecast::{outcome_identifiers, HarvestOutcome};
use crate::harvest::HarvestError;
use crate::location::distinct;
use crate::sequence::reversed;
use vstd::prelude::*;

verus! {

/// The map from identifier to outcome that `outcomes` spell out when read
/// first to last: of two outcomes with one identifier the later stays.
pub open spec fn keyed<P>(outcomes: Seq<HarvestOutcome<P>>) -> Map<Seq<char>, HarvestOutcome<P>>
    decreases outcomes.len(),
{
    if outcomes.len() == 0 {
        Map::empty()
    } else {
        keyed(outcomes.drop_last()).insert(
            outcomes.last().location.location_id@,
            outcomes.last(),
        )
    }
}

/// Some outcome of `outcomes` is for the location `identifier`.
pub open spec fn holds<P>(outcomes: Seq<HarvestOutcome<P>>, identifier: Seq<char>) -> bool {
    exists|k: int|
        0 <= k < outcomes.len() && (#[trigger] outcomes[k]).location.location_id@ == identifier
}

/// The identifiers that `keyed` maps are those of the outcomes.
pub proof fn lemma_keyed_domain<P>(outcomes: Seq<HarvestOutcome<P>>)
    ensures
        keyed(outcomes).dom().finite(),
        forall|identifier: Seq<char>|
            keyed(outcomes).dom().contains(identifier) <==> holds(outcomes, identifier),
    decreases outcomes.len(),
{
    if outcomes.len() > 0 {
        let front = outcomes.drop_last();
        lemma_keyed_domain(front);
        assert forall|identifier: Seq<char>|
            keyed(outcomes).dom().contains(identifier) <==> holds(
                outcomes,
                identifier,
            ) by {
            if holds(outcomes, identifier) {
                let k = choose|k: int|
                    0 <= k < outcomes.len() && (#[trigger] outcomes[k]).location.location_id@
                        == identifier;
                if k < front.len() {
                    assert(front[k].location.location_id@ == identifier);
                    assert(holds(front, identifier));
                }
            }
            if keyed(outcomes).dom().contains(identifier) {
                if holds(front, identifier) {
                    let k = choose|k: int|
                        0 <= k < front.len() && (#[trigger] front[k]).location.location_id@
                            == identifier;
                    assert(outcomes[k].location.location_id@ == identifier);
                } else {
                    assert(outcomes[outcomes.len() - 1].location.location_id@ == identifier);
                }
            }
        }
    }
}

/// Where no identifier occurs twice, every outcome is the one that `keyed`
/// has under its identifier, and `keyed` has as many entries as there are
/// outcomes.
pub proof fn lemma_keyed_distinct<P>(outcomes: Seq<HarvestOutcome<P>>)
    requires
        distinct(outcome_identifiers(outcomes)),
    ensures
        keyed(outcomes).dom().finite(),
        keyed(outcomes).dom().len() == outcomes.len(),
        forall|k: int|
            0 <= k < outcomes.len() ==> keyed(outcomes)[(
            #[trigger] outcomes[k]).location.location_id@] == outcomes[k],
    decreases outcomes.len(),
{
    lemma_keyed_domain(outcomes);
    if outcomes.len() > 0 {
        let front = outcomes.drop_last();
        let last = outcomes.last();
        let ids = outcome_identifiers(outcomes);
        assert forall|i: int, j: int| 0 <= i < j < front.len() implies outcome_identifiers(
            front,
        )[i] != outcome_identifiers(front)[j] by {
            assert(ids[i] != ids[j]);
        }
        lemma_keyed_distinct(front);
        lemma_keyed_domain(front);
        assert(!holds(front, last.location.location_id@)) by {
            if holds(front, last.location.location_id@) {
                let k = choose|k: int|
                    0 <= k < front.len() && (#[trigger] front[k]).location.location_id@
                        == last.location.location_id@;
                assert(ids[k] != ids[outcomes.len() - 1]);
            }
        }
        assert forall|k: int| 0 <= k < outcomes.len() implies keyed(outcomes)[(
        #[trigger] outcomes[k]).location.location_id@] == outcomes[k] by {
            if k < front.len() {
                assert(front[k] == outcomes[k]);
                assert(ids[k] != ids[outcomes.len() - 1]);
            }
        }
    }
}

/// Putting an outcome in the place of one with the same identifier is, for
/// `keyed`, putting it under that identifier.
proof fn lemma_keyed_update<P>(
    outcomes: Seq<HarvestOutcome<P>>,
    at: int,
    outcome: HarvestOutcome<P>,
)
    requires
        distinct(outcome_identifiers(outcomes)),
        0 <= at < outcomes.len(),
        outcomes[at].location.location_id@ == outcome.location.location_id@,
    ensures
        keyed(outcomes.update(at, outcome)) == keyed(outcomes).insert(
            outcome.location.location_id@,
            outcome,
        ),
        distinct(outcome_identifiers(outcomes.update(at, outcome))),
    decreases outcomes.len(),
{
    let ids = outcome_identifiers(outcomes);
    let changed = outcomes.update(at, outcome);
    let key = outcome.location.location_id@;
    assert forall|i: int, j: int| 0 <= i < j < changed.len() implies outcome_identifiers(
        changed,
    )[i] != outcome_identifiers(changed)[j] by {
        assert(ids[i] != ids[j]);
    }
    let front = outcomes.drop_last();
    if at == outcomes.len() - 1 {
        assert(changed.drop_last() == front);
        assert(keyed(changed) == keyed(front).insert(key, outcome));
        assert(keyed(outcomes).insert(key, outcome) == keyed(front).insert(key, outcome));
    } else {
        let last = outcomes.last();
        assert forall|i: int, j: int| 0 <= i < j < front.len() implies outcome_identifiers(
            front,
        )[i] != outcome_identifiers(front)[j] by {
            assert(ids[i] != ids[j]);
        }
        lemma_keyed_update(front, at, outcome);
        assert(changed.drop_last() == front.update(at, outcome));
        assert(changed.last() == last);
        assert(ids[at] != ids[outcomes.len() - 1]);
        assert(keyed(changed) == keyed(front).insert(key, outcome).insert(
            last.location.location_id@,
            last,
        ));
        assert(keyed(outcomes).insert(key, outcome) == keyed(front).insert(
            last.location.location_id@,
            last,
        ).insert(key, outcome));
    }
}

/// Where the outcome for `identifier` stands among `outcomes`.
pub open spec fn place_of<P>(outcomes: Seq<HarvestOutcome<P>>, identifier: Seq<char>) -> int {
    choose|k: int|
        0 <= k < outcomes.len() && (#[trigger] outcomes[k]).location.location_id@ == identifier
}

/// The outcomes with every location once: read first to last, an outcome
/// takes the place of the one before it for the same location, and goes to
/// the end where there is none.
pub open spec fn arranged<P>(outcomes: Seq<HarvestOutcome<P>>) -> Seq<HarvestOutcome<P>>
    decreases outcomes.len(),
{
    if outcomes.len() == 0 {
        Seq::empty()
    } else {
        let front = arranged(outcomes.drop_last());
        let last = outcomes.last();
        if holds(front, last.location.location_id@) {
            front.update(place_of(front, last.location.location_id@), last)
        } else {
            front.push(last)
        }
    }
}

proof fn lemma_push_distinct<P>(outcomes: Seq<HarvestOutcome<P>>, outcome: HarvestOutcome<P>)
    requires
        distinct(outcome_identifiers(outcomes)),
        !holds(outcomes, outcome.location.location_id@),
    ensures
        distinct(outcome_identifiers(outcomes.push(outcome))),
{
    let grown = outcomes.push(outcome);
    let ids = outcome_identifiers(grown);
    assert forall|i: int, j: int| 0 <= i < j < ids.len() implies ids[i] != ids[j] by {
        if j < outcomes.len() {
            assert(outcome_identifiers(outcomes)[i] != outcome_identifiers(outcomes)[j]);
        } else {
            assert(outcomes[i].location.location_id@ != outcome.location.location_id@);
        }
    }
}

proof fn lemma_place_is_unique<P>(
    outcomes: Seq<HarvestOutcome<P>>,
    identifier: Seq<char>,
    at: int,
)
    requires
        distinct(outcome_identifiers(outcomes)),
        0 <= at < outcomes.len(),
        outcomes[at].location.location_id@ == identifier,
    ensures
        place_of(outcomes, identifier) == at,
{
    let place = place_of(outcomes, identifier);
    let ids = outcome_identifiers(outcomes);
    assert(0 <= place < outcomes.len() && outcomes[place].location.location_id@ == identifier);
    if place < at {
        assert(ids[place] != ids[at]);
    } else if at < place {
        assert(ids[at] != ids[place]);
    }
}

/// `arranged` holds no location twice, and keys to the same map as the
/// outcomes it was made from.
pub proof fn lemma_arranged<P>(outcomes: Seq<HarvestOutcome<P>>)
    ensures
        distinct(outcome_identifiers(arranged(outcomes))),
        keyed(arranged(outcomes)) == keyed(outcomes),
    decreases outcomes.len(),
{
    if outcomes.len() > 0 {
        lemma_arranged(outcomes.drop_last());
        let front = arranged(outcomes.drop_last());
        let last = outcomes.last();
        if holds(front, last.location.location_id@) {
            let at = place_of(front, last.location.location_id@);
            lemma_keyed_update(front, at, last);
        } else {
            lemma_push_distinct(front, last);
            assert(front.push(last).drop_last() == front);
        }
    }
}

/// The outcomes of one run, one entry per location identifier.
pub struct Snapshot<P> {
    entries: Vec<HarvestOutcome<P>>,
}

impl<P> View for Snapshot<P> {
    type V = Map<Seq<char>, HarvestOutcome<P>>;

    closed spec fn view(&self) -> Map<Seq<char>, HarvestOutcome<P>> {
        keyed(self.entries@)
    }
}

/// Where the outcome for `identifier` stands among `entries`, if one does.
fn position<P>(entries: &Vec<HarvestOutcome<P>>, identifier: &String) -> (found: Option<usize>)
    ensures
        match found {
            Some(at) => at < entries.len() && entries[at as int].location.location_id@
                == identifier@,
            None => !holds(entries@, identifier@),
        },
{
    let mut at: usize = 0;
    while at < entries.len()
        invariant
            at <= entries.len(),
            forall|k: int| 0 <= k < at ==> entries[k].location.location_id@ != identifier@,
        decreases entries.len() - at,
    {
        if entries[at].location.location_id == *identifier {
            return Some(at);
        }
        at += 1;
    }
    None
}

impl<P> Snapshot<P> {
    #[verifier::type_invariant]
    spec fn inv(self) -> bool {
        distinct(outcome_identifiers(self.entries@))
    }

    /// The entries in the order in which the snapshot keeps them.
    pub closed spec fn listing(&self) -> Seq<HarvestOutcome<P>> {
        self.entries@
    }

    /// How many locations the snapshot holds.
    pub fn len(&self) -> (count: usize)
        ensures
            self@.dom().finite(),
            count == self@.dom().len(),
    {
        proof {
            use_type_invariant(self);
            lemma_keyed_distinct(self.entries@);
        }
        self.entries.len()
    }

    /// The outcome for the location `identifier`, if the snapshot has one.
    pub fn get(&self, identifier: &String) -> (entry: Option<&HarvestOutcome<P>>)
        ensures
            match entry {
                Some(outcome) => self@.dom().contains(identifier@) && self@[identifier@]
                    == *outcome,
                None => !self@.dom().contains(identifier@),
            },
    {
        proof {
            use_type_invariant(self);
            lemma_keyed_distinct(self.entries@);
            lemma_keyed_domain(self.entries@);
        }
        match position(&self.entries, identifier) {
            Some(at) => {
                assert(holds(self.entries@, identifier@));
                Some(&self.entries[at])
            },
            None => None,
        }
    }

    /// The entries, each location once, in the order in which the
    /// snapshot keeps them.
    pub fn entries(&self) -> (entries: &Vec<HarvestOutcome<P>>)
        ensures
            entries@ == self.listing(),
            distinct(outcome_identifiers(entries@)),
            keyed(entries@) == self@,
            entries.len() == self@.dom().len(),
    {
        proof {
            use_type_invariant(self);
            lemma_keyed_distinct(self.entries@);
        }
        &self.entries
    }
}

/// Keys the outcomes of a run by location identifier.
///
/// Every outcome is kept under the identifier of its location, in the order
/// in which the locations first came. Should two outcomes share an
/// identifier, the later takes the place of the earlier.
pub fn assemble<P>(outcomes: Vec<HarvestOutcome<P>>) -> (snapshot: Snapshot<P>)
    ensures
        snapshot@ == keyed(outcomes@),
        snapshot.listing() == arranged(outcomes@),
{
    let ghost whole = outcomes@;
    let mut unread = reversed(outcomes);
    let mut entries: Vec<HarvestOutcome<P>> = Vec::new();
    while unread.len() > 0
        invariant
            unread@.len() <= whole.len(),
            forall|k: int| 0 <= k < unread@.len() ==> unread@[k] == whole[whole.len() - 1 - k],
            distinct(outcome_identifiers(entries@)),
            keyed(entries@) == keyed(whole.take(whole.len() - unread@.len())),
            entries@ == arranged(whole.take(whole.len() - unread@.len())),
        decreases unread@.len(),
    {
        let ghost read = whole.len() - unread@.len();
        let ghost before = entries@;
        match unread.pop() {
            Some(outcome) => {
                proof {
                    assert(outcome == whole[read]);
                    assert(whole.take(read + 1).drop_last() == whole.take(read));
                    assert(whole.take(read + 1).last() == outcome);
                }
                match position(&entries, &outcome.location.location_id) {
                    Some(at) => {
                        proof {
                            lemma_keyed_update(before, at as int, outcome);
                            lemma_place_is_unique(
                                before,
                                outcome.location.location_id@,
                                at as int,
                            );
                            assert(holds(before, outcome.location.location_id@));
                        }
                        entries.set(at, outcome);
                    },
                    None => {
                        proof {
                            lemma_push_distinct(before, outcome);
                        }
                        entries.push(outcome);
                        proof {
                            assert(entries@.drop_last() == before);
                        }
                    },
                }
            },
            None => {},
        }
    }
    proof {
        assert(whole.take(whole.len() as int) == whole);
    }
    Snapshot { entries }
}

/// The snapshot of a run that has ended: assembled from its outcomes, or
/// none where the run failed.
pub fn snapshot_of<P>(ended: Result<Vec<HarvestOutcome<P>>, HarvestError>) -> (kept: Result<
    Snapshot<P>,
    HarvestError,
>)
    ensures
        match ended {
            Ok(outcomes) => kept matches Ok(snapshot) && snapshot@ == keyed(outcomes@)
                && snapshot.listing() == arranged(outcomes@),
            Err(error) => kept matches Err(same) && same == error,
        },
{
    match ended {
        Ok(outcomes) => Ok(assemble(outcomes)),
        Err(error) => Err(error),
    }
}

} // verus!
