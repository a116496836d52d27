//! The engine's source of randomness: a fresh, securely seeded generator
//! per call, so that no generator state is shared across calls.

use rand::rngs::OsRng;
use rand::rngs::StdRng;
use rand::Rng;
use rand::SeedableRng;
use vstd::prelude::*;

verus! {

#[verifier::external_type_specification]
#[verifier::external_body]
pub struct ExStdRng(StdRng);

/// Relies on rand's `StdRng::from_rng`, seeded from `OsRng`: yields a fresh,
/// securely seeded generator, or nothing when the operating system's
/// randomness source fails.
#[verifier::external_body]
pub(crate) fn fresh_rng() -> (r: Option<StdRng>) {
    StdRng::from_rng(OsRng).ok()
}

/// Relies on rand's `Rng::gen_range` over the half-open range `0..n`: the
/// sample is always strictly below `n` (and the call panics only on an
/// empty range, which the precondition rules out).
#[verifier::external_body]
pub(crate) fn rng_below(rng: &mut StdRng, n: usize) -> (r: usize)
    requires
        n > 0,
    ensures
        r < n,
{
    rng.gen_range(0..n)
}

} // verus!
