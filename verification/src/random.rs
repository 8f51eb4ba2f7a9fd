//! Draws from the thread-local random number generator.
//!
//! Nothing here is proved: each function hands one call to the `rand` crate
//! and states what that crate documents of the result.

use rand::seq::SliceRandom;
use rand::Rng;
use vstd::prelude::*;

verus! {

/// Calls `Rng::gen_range(0, bound)` on `rand::thread_rng()`.
///
/// `rand` documents the result as a value in the half-open range from the
/// lower to the upper argument, and a panic where the range is empty; hence
/// the precondition. Nothing is claimed of which value comes.
#[verifier::external_body]
pub(crate) fn random_below(bound: i32) -> (n: i32)
    requires
        0 < bound,
    ensures
        0 <= n < bound,
{
    rand::thread_rng().gen_range(0, bound)
}

/// Calls `SliceRandom::choose` on the items, with `rand::thread_rng()`.
///
/// `rand` documents the result as one element of the slice, or `None` if the
/// slice is empty. Nothing is claimed of which element comes.
#[verifier::external_body]
pub(crate) fn pick_one<T: Copy>(items: &Vec<T>) -> (picked: Option<T>)
    ensures
        items@.len() == 0 ==> picked.is_none(),
        items@.len() > 0 ==> picked.is_some() && items@.contains(picked.unwrap()),
{
    items.choose(&mut rand::thread_rng()).copied()
}

} // verus!
