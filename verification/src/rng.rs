//! Trusted boundary to the process-wide random number generator. The
//! simulation draws spawn rolls, wander turns and placement candidates
//! through these wrappers; everything done with the drawn values is
//! verified for every value the contracts admit.

use vstd::prelude::*;

verus! {

#[verifier::external_type_specification]
#[verifier::external_body]
pub struct ExThreadRng(rand::rngs::ThreadRng);

/// Relies on `Rng::gen_range` over a half-open integer range: it panics
/// exactly on an empty range, which the precondition rules out, and
/// returns a value inside the range. Nothing further can be promised of
/// a random value.
#[verifier::external_body]
pub(crate) fn gen_range_i64(rng: &mut rand::rngs::ThreadRng, lo: i64, hi: i64) -> (r: i64)
    requires
        lo < hi,
    ensures
        lo <= r < hi,
{
    rand::Rng::gen_range(rng, lo..hi)
}

/// Relies on `Rng::gen_ratio`: a biased coin that is true with
/// probability `num/den`. It panics exactly when `den == 0` or
/// `num > den`, which the precondition rules out; either answer can
/// come back.
#[verifier::external_body]
pub(crate) fn gen_ratio(rng: &mut rand::rngs::ThreadRng, num: u32, den: u32) -> (r: bool)
    requires
        0 < den,
        num <= den,
{
    rand::Rng::gen_ratio(rng, num, den)
}

} // verus!
