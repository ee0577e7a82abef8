//! The pseudo-random source threaded through parent selection, simulated
//! binary crossover and niche tie-breaking.  The generator itself comes from
//! the `rand` crate; everything the library assumes of it is stated here.

use vstd::prelude::*;
use rand::Rng;
use rand::SeedableRng;

verus! {

#[verifier::external_type_specification]
#[verifier::external_body]
pub struct ExStdRng(rand::rngs::StdRng);

/// Relies on rand's `StdRng::seed_from_u64`: builds a generator from a seed,
/// so that identical seeds reproduce identical runs.
#[verifier::external_body]
pub fn rng_from_seed(seed: u64) -> rand::rngs::StdRng {
    rand::rngs::StdRng::seed_from_u64(seed)
}

/// Relies on rand's `Rng::gen_range` over `0..n`: uniform in the range, and
/// panics only on an empty range, which the precondition rules out.  Nothing
/// more is assumed of the value drawn.
#[verifier::external_body]
pub fn rand_below(rng: &mut rand::rngs::StdRng, n: u64) -> (r: u64)
    requires
        n >= 1,
    ensures
        r < n,
{
    rng.gen_range(0..n)
}

} // verus!
