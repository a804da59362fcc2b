//! Trusted boundary to the pseudo-random generator.  The proposers and the
//! refiner take a caller-supplied `rand::rngs::SmallRng` so that one synthesis
//! run owns its generator and is reproducible under a fixed seed; nothing is
//! assumed of a sample beyond its range.

use vstd::prelude::*;

use rand::Rng;

verus! {

#[verifier::external_type_specification]
#[verifier::external_body]
pub struct ExSmallRng(rand::rngs::SmallRng);

/// Relies on rand's `Rng::random_range` over the inclusive range `lo..=hi`:
/// for a nonempty range the sample lies within it.  rand panics on an empty
/// range, which the precondition rules out.
#[verifier::external_body]
pub(crate) fn rng_range_i16(rng: &mut rand::rngs::SmallRng, lo: i16, hi: i16) -> (r: i16)
    requires
        lo <= hi,
    ensures
        lo <= r <= hi,
{
    rng.random_range(lo..=hi)
}

} // verus!
