//! Small helpers on vectors.

use vstd::prelude::*;

verus! {

/// The items of `items` in the opposite order, so that `pop` hands them
/// out first to last.
pub(crate) fn reversed<T>(items: Vec<T>) -> (turned: Vec<T>)
    ensures
        turned@.len() == items@.len(),
        forall|k: int| 0 <= k < turned@.len() ==> turned@[k] == items@[items@.len() - 1 - k],
{
    let ghost whole = items@;
    let mut items = items;
    let mut turned: Vec<T> = Vec::new();
    while items.len() > 0
        invariant
            items@.len() + turned@.len() == whole.len(),
            forall|k: int| 0 <= k < items@.len() ==> items@[k] == whole[k],
            forall|k: int| 0 <= k < turned@.len() ==> turned@[k] == whole[whole.len() - 1 - k],
        decreases items@.len(),
    {
        match items.pop() {
            Some(item) => turned.push(item),
            None => {},
        }
    }
    turned
}

} // verus!
