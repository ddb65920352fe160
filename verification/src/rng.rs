//! Random sources. A run's rule set and palette are drawn from a seeded,
//! deterministic generator; `randomize` reseeds cell values from the
//! process-wide source. Nothing is assumed of a drawn value beyond its
//! range, so every caller is verified for every outcome.

use rand::Rng;
use rand::SeedableRng;
use vstd::prelude::*;

verus! {

#[verifier::external_type_specification]
#[verifier::external_body]
pub struct ExStdRng(rand::rngs::StdRng);

#[verifier::external_type_specification]
#[verifier::external_body]
pub struct ExThreadRng(rand::rngs::ThreadRng);

/// Relies on rand's `StdRng::seed_from_u64`: the run's pseudo-random source,
/// built from a 64-bit seed. Nothing is assumed of the values it will yield.
#[verifier::external_body]
pub(crate) fn rng_from_seed(seed: u64) -> rand::rngs::StdRng {
    rand::rngs::StdRng::seed_from_u64(seed)
}

/// Relies on rand's `Rng::gen_range` on a seeded source: a draw from the
/// non-empty range `0..bound` lies below `bound`.
#[verifier::external_body]
pub(crate) fn rng_below(rng: &mut rand::rngs::StdRng, bound: u32) -> (r: u32)
    requires
        bound >= 1,
    ensures
        r < bound,
{
    rng.gen_range(0..bound)
}

/// Relies on rand's `thread_rng`: a handle to the process-wide random
/// source, used where a run explicitly draws outside its own seed.
#[verifier::external_body]
pub(crate) fn process_rng() -> rand::rngs::ThreadRng {
    rand::thread_rng()
}

/// Relies on rand's `Rng::gen_range` on the process-wide source: a draw from
/// the non-empty range `0..bound` lies below `bound`.
#[verifier::external_body]
pub(crate) fn process_rng_below(rng: &mut rand::rngs::ThreadRng, bound: u32) -> (r: u32)
    requires
        bound >= 1,
    ensures
        r < bound,
{
    rng.gen_range(0..bound)
}

} // verus!
