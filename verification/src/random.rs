//! The simulation's one source of chance.

use rand::Rng;
use vstd::prelude::*;
use crate::fixed::ONE;

verus! {

/// Calls `rand::Rng::gen_range` on `rand::thread_rng()` with the range `0..bound`.
///
/// Trusted, not proved: for integers that method panics on an empty range, which
/// `requires` leaves out, and otherwise returns a value of the range, its lower
/// end included and its upper end not. Which value is left open: two calls may differ.
/// The generator is seeded by the system; where the system's source of
/// randomness fails, at first use or at a reseeding, the call panics whatever
/// the argument, as it would where memory runs out.
#[verifier::external_body]
pub(crate) fn random_below(bound: i64) -> (r: i64)
    requires
        bound > 0,
    ensures
        0 <= r < bound,
{
    rand::thread_rng().gen_range(0..bound)
}

/// Draws a fraction from `[0, ONE)`.
pub fn random_fraction() -> (r: i64)
    ensures
        0 <= r < ONE,
{
    random_below(ONE)
}

} // verus!
