//! The trusted boundary to the `rand` crate. The generator draws every random
//! choice through the small wrappers here; each wrapper states only what holds
//! of every outcome, so everything proved about the generator holds for every
//! random stream.

use vstd::prelude::*;

verus! {

/// rand's seedable standard generator, opaque to verification.
#[verifier::external_type_specification]
#[verifier::external_body]
pub struct ExStdRng(rand::rngs::StdRng);

/// Relies on rand's `SeedableRng::seed_from_u64` for `StdRng`: builds a
/// generator whose stream is a function of the seed alone.
#[verifier::external_body]
pub(crate) fn rng_from_seed(seed: u64) -> rand::rngs::StdRng {
    <rand::rngs::StdRng as rand::SeedableRng>::seed_from_u64(seed)
}

/// Relies on rand's `Rng::gen_range` on `0..n`: returns a value below `n`,
/// and panics only on an empty range, which the precondition excludes.
#[verifier::external_body]
pub(crate) fn rng_below(rng: &mut rand::rngs::StdRng, n: usize) -> (r: usize)
    requires
        n > 0,
    ensures
        r < n,
{
    rand::Rng::gen_range(rng, 0..n)
}

/// Relies on rand's `Rng::gen` for `bool`: either value can come back.
#[verifier::external_body]
pub(crate) fn rng_bool(rng: &mut rand::rngs::StdRng) -> bool {
    rand::Rng::gen(rng)
}

/// Relies on rand's `Rng::gen` for `i32`: a full-range value on the bit
/// pattern.
#[verifier::external_body]
pub(crate) fn rng_i32(rng: &mut rand::rngs::StdRng) -> i32 {
    rand::Rng::gen(rng)
}

/// Relies on rand's `Rng::gen` for `u32`: a full-range value on the bit
/// pattern.
#[verifier::external_body]
pub(crate) fn rng_u32(rng: &mut rand::rngs::StdRng) -> u32 {
    rand::Rng::gen(rng)
}

} // verus!
