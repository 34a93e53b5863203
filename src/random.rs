use rand::Rng;
use rand::SeedableRng;
use rand_chacha::ChaCha8Rng;
use vstd::prelude::*;

verus! {

#[verifier::external_type_specification]
#[verifier::external_body]
pub struct ExChaCha8Rng(ChaCha8Rng);

/// Seeded random source from which the piece kinds are drawn.
///
/// The generator is opaque to the proofs: nothing is assumed of its state
/// beyond what each draw promises about its result.
pub struct RandomSource(pub ChaCha8Rng);

impl RandomSource {
    /// Builds a reproducible source from an explicit seed.
    ///
    /// Relies on `rand_core::SeedableRng::seed_from_u64` for `ChaCha8Rng`,
    /// which expands the seed deterministically and never fails.
    #[verifier::external_body]
    pub fn from_seed(seed: u64) -> (r: RandomSource) {
        RandomSource(ChaCha8Rng::seed_from_u64(seed))
    }

    /// Draws a number in `[min, max)`.
    ///
    /// Relies on `rand::Rng::gen_range`, which returns a value inside the
    /// half-open range it is given and panics only when that range is empty.
    #[verifier::external_body]
    pub fn next(&mut self, min: u32, max: u32) -> (r: u32)
        requires
            min < max,
        ensures
            min <= r < max,
    {
        self.0.gen_range(min..max)
    }
}

} // verus!
