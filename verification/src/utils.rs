//! The source of randomness.

use vstd::prelude::*;
use rand::Rng;

verus! {

/// A uniform draw from `min..=max`.
///
/// Calls `rand::Rng::random_range` with the inclusive range `min..=max` on the generator of
/// the current thread, `rand::rng()`. That function panics on a range that holds nothing,
/// which `requires` leaves out, and returns a member of the range; which member is not
/// stated, and two calls may differ.
#[verifier::external_body]
pub(crate) fn random_range_int(min: i32, max: i32) -> (r: i32)
    requires
        min <= max,
    ensures
        min <= r <= max,
{
    let mut rng = rand::rng();
    rng.random_range(min..=max)
}

} // verus!
