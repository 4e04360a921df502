//! The one source of random numbers.

use rand::Rng;
use vstd::prelude::*;

verus! {

/// Draws a whole number from `low` to `high`, both included.
///
/// Calls `rand::Rng::gen_range` with an inclusive range on the generator that
/// `rand::thread_rng` gives. That function panics on an empty range, which
/// `requires` leaves out, and returns a number within the range; which one is
/// left to chance.
#[verifier::external_body]
pub(crate) fn random_between(low: u64, high: u64) -> (drawn: u64)
    requires
        low <= high,
    ensures
        low <= drawn <= high,
{
    rand::thread_rng().gen_range(low..=high)
}

} // verus!
