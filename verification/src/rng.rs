//! Randomness for board population, behind a trusted boundary around the
//! rand crate.

use vstd::prelude::*;

verus! {

/// Relies on rand's `RngExt::random_ratio` on the thread-local generator:
/// it returns true with probability `numerator / denominator`, is documented
/// to be guaranteed false when `numerator` is 0 and guaranteed true when
/// `numerator == denominator`, and panics only when `denominator` is 0 or
/// `numerator > denominator`, which the precondition rules out.
#[verifier::external_body]
pub(crate) fn random_bool_ratio(numerator: u32, denominator: u32) -> (r: bool)
    requires
        0 < denominator,
        numerator <= denominator,
    ensures
        numerator == 0 ==> !r,
        numerator == denominator ==> r,
{
    let mut rng = rand::rng();
    rand::RngExt::random_ratio(&mut rng, numerator, denominator)
}

} // verus!
