//! What a trigger yields, and which of several ready triggers wins.

use vstd::prelude::*;

verus! {

/// `serde_json::Value`: the opaque value that a trigger yields. The executor
/// carries it from the trigger to the transition function and never looks
/// inside.
#[verifier::external_type_specification]
#[verifier::external_body]
pub struct ExValue(serde_json::Value);

/// The index of the trigger that fires: the least one that is ready.
pub open spec fn first_ready(ready: Seq<Option<serde_json::Value>>) -> Option<int> {
    if exists|i: int| 0 <= i < ready.len() && (#[trigger] ready[i]) is Some {
        Some(
            choose|i: int|
                0 <= i < ready.len() && (#[trigger] ready[i]) is Some && forall|j: int|
                    0 <= j < i ==> (#[trigger] ready[j]) is None,
        )
    } else {
        None
    }
}

/// A ready trigger before which none is ready is the one that fires.
pub proof fn lemma_first_ready(ready: Seq<Option<serde_json::Value>>, index: int)
    requires
        0 <= index < ready.len(),
        ready[index] is Some,
        forall|j: int| 0 <= j < index ==> (#[trigger] ready[j]) is None,
    ensures
        first_ready(ready) == Some(index),
{
    let chosen = choose|i: int|
        0 <= i < ready.len() && (#[trigger] ready[i]) is Some && forall|j: int|
            0 <= j < i ==> (#[trigger] ready[j]) is None;
    if chosen < index {
        assert(ready[chosen] is None);
    } else if index < chosen {
        assert(ready[index] is None);
    }
}

/// Picks the trigger that fires: of those ready at one poll, the one with
/// the lowest index in the list of transitions. `ready[i]` holds what trigger
/// `i` yielded, or nothing while it is pending.
///
/// Gives the index with the value it yielded, or `None` while all are pending.
pub fn select_trigger(ready: Vec<Option<serde_json::Value>>) -> (winner: Option<
    (usize, serde_json::Value),
>)
    ensures
        match winner {
            Some((index, value)) => {
                &&& index < ready.len()
                &&& ready[index as int] == Some(value)
                &&& forall|j: int| 0 <= j < index ==> ready[j] is None
                &&& first_ready(ready@) == Some(index as int)
            },
            None => {
                &&& forall|j: int| 0 <= j < ready.len() ==> ready[j] is None
                &&& first_ready(ready@) is None
            },
        },
{
    let mut rest = ready;
    let mut i: usize = 0;
    while i < rest.len()
        invariant
            i <= rest.len(),
            rest@ == ready@,
            forall|j: int| 0 <= j < i ==> ready[j] is None,
        decreases rest.len() - i,
    {
        if rest[i].is_some() {
            proof {
                lemma_first_ready(ready@, i as int);
            }
            let taken = rest.swap_remove(i);
            return Some((i, taken.unwrap()));
        }
        i += 1;
    }
    None
}

} // verus!
