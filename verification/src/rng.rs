use vstd::prelude::*;
use rand::{Rng, SeedableRng};
use rand::rngs::StdRng;

verus! {

/// The value that the seeded standard generator draws uniformly from
/// `[0, hi]`.  For a fixed version of the generator it depends on `seed` and
/// `hi` alone.
pub uninterp spec fn uniform_unit(seed: u64, hi: u64) -> u64;

/// Relies on `rand::rngs::StdRng::seed_from_u64` followed by
/// `Rng::random_range` over the inclusive range `0..=hi`: the draw is a
/// deterministic function of the seed and the bound, and lies within the
/// range.
#[verifier::external_body]
pub(crate) fn seeded_uniform(seed: u64, hi: u64) -> (r: u64)
    ensures
        r == uniform_unit(seed, hi),
        r <= hi,
{
    let mut rng: StdRng = StdRng::seed_from_u64(seed);
    rng.random_range(0..=hi)
}

/// Relies on `rand::random`: a fresh nondeterministic seed.  Nothing is
/// promised of the value.
#[verifier::external_body]
pub(crate) fn entropy_seed() -> u64 {
    rand::random()
}

/// Relies on `rand::rng` with `Rng::random_range` over `0..bound`: a
/// nondeterministic draw below the bound.
#[verifier::external_body]
pub(crate) fn random_below(bound: u64) -> (r: u64)
    requires
        1 <= bound,
    ensures
        r < bound,
{
    rand::rng().random_range(0..bound)
}

} // verus!
