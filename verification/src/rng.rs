//! The randomness boundary: the one place where the library draws from an
//! outside random-number generator. Everything downstream is verified for
//! every value the generator can hand back.

use vstd::prelude::*;

verus! {

#[verifier::external_type_specification]
#[verifier::external_body]
pub struct ExStdRng(rand::rngs::StdRng);

/// Relies on rand's `RngExt::random_range` over `lo..hi`: it returns a value
/// drawn uniformly from the half-open range and panics only when the range
/// is empty, which the precondition rules out.
#[verifier::external_body]
pub(crate) fn rng_range_usize(rng: &mut rand::rngs::StdRng, lo: usize, hi: usize) -> (v: usize)
    requires
        lo < hi,
    ensures
        lo <= v < hi,
{
    rand::RngExt::random_range(rng, lo..hi)
}

} // verus!
