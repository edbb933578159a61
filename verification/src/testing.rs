//! Agreement checks for the answers of a federation's members.
//!
//! A test federation asks every member the same question and goes on with
//! the one answer they all gave.

use vstd::prelude::*;
use vstd::std_specs::cmp::PartialEqSpec;
use crate::ids::ModuleInstanceId;

verus! {

/// The first answer equals every later one.
pub open spec fn agree<T: PartialEq>(items: Seq<T>) -> bool {
    forall|i: int| 1 <= i < items.len() ==> items[0].eq_spec(&#[trigger] items[i])
}

/// Every later result is of the first one's kind and carries an equal value:
/// equal successes, or failures with the same rendering.
pub open spec fn results_agree<O: PartialEq>(items: Seq<Result<O, String>>) -> bool {
    forall|i: int|
        1 <= i < items.len() ==> match (items[0], #[trigger] items[i]) {
            (Ok(first), Ok(item)) => first.eq_spec(&item),
            (Err(first), Err(item)) => first@ == item@,
            _ => false,
        }
}

/// Tells whether the first answer equals every later one. A list of fewer
/// than two answers agrees.
pub fn all_equal<T: PartialEq>(items: &Vec<T>) -> (same: bool)
    ensures
        T::obeys_eq_spec() ==> same == agree(items@),
{
    let mut i: usize = 1;
    while i < items.len()
        invariant
            1 <= i,
            T::obeys_eq_spec() ==> forall|j: int|
                1 <= j < i && j < items.len() ==> items@[0].eq_spec(&#[trigger] items@[j]),
        decreases items.len() - i,
    {
        if !(items[0] == items[i]) {
            return false;
        }
        i += 1;
    }
    true
}

/// Tells whether every later result is of the first one's kind with an equal
/// value. A list of fewer than two results agrees.
pub fn all_equal_result<O: PartialEq>(items: &Vec<Result<O, String>>) -> (same: bool)
    ensures
        O::obeys_eq_spec() ==> same == results_agree(items@),
{
    let mut i: usize = 1;
    while i < items.len()
        invariant
            1 <= i,
            O::obeys_eq_spec() ==> forall|j: int|
                1 <= j < i && j < items.len() ==> match (items@[0], #[trigger] items@[j]) {
                    (Ok(first), Ok(item)) => first.eq_spec(&item),
                    (Err(first), Err(item)) => first@ == item@,
                    _ => false,
                },
        decreases items.len() - i,
    {
        let alike = match (&items[0], &items[i]) {
            (Ok(first), Ok(item)) => *first == *item,
            (Err(first), Err(item)) => *first == *item,
            _ => false,
        };
        if !alike {
            return false;
        }
        i += 1;
    }
    true
}

/// The answer that all members gave.
///
/// The members must have answered, and alike.
pub fn assert_all_equal<T: PartialEq>(items: Vec<T>) -> (first: T)
    requires
        items.len() > 0,
        agree(items@),
    ensures
        first == items[0],
{
    let mut rest = items;
    rest.swap_remove(0)
}

/// The result that all members gave, where a failure stands as its rendering.
///
/// The members must have answered, and alike.
pub fn assert_all_equal_result<O: PartialEq>(items: Vec<Result<O, String>>) -> (first: Result<
    O,
    String,
>)
    requires
        items.len() > 0,
        results_agree(items@),
    ensures
        first == items[0],
{
    let mut rest = items;
    rest.swap_remove(0)
}

/// The instance that the wallet module has in a test federation.
pub const LEGACY_HARDCODED_INSTANCE_ID_WALLET: ModuleInstanceId = 2;

/// The JSON value that `serde_json::to_value` makes of an unsigned 64-bit
/// number.
pub uninterp spec fn json_of_u64(number: u64) -> serde_json::Value;

/// `serde_json::to_value`, on a `u64`: the number as a JSON value. It
/// cannot fail on a number.
#[verifier::external_body]
fn to_json(number: u64) -> (value: serde_json::Value)
    ensures
        value == json_of_u64(number),
{
    serde_json::to_value(number).expect("encoding error")
}

/// What a test federation answers when a module asks another for the block
/// height: the height as a JSON number. Only the wallet module is asked, and
/// only for `/block_height`.
pub fn block_height_response(module_id: ModuleInstanceId, path: &str, height: u64) -> (response:
    serde_json::Value)
    requires
        module_id == LEGACY_HARDCODED_INSTANCE_ID_WALLET,
        path@ == "/block_height"@,
    ensures
        response == json_of_u64(height),
{
    to_json(height)
}

} // verus!
