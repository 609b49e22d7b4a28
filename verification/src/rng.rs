//! Seeded pseudo-random generation for board population and maze carving.
//!
//! The generator itself comes from the `rand_chacha` crate; the library only
//! assumes that a draw below a bound stays below that bound.  Everything that
//! depends on *which* value was drawn is verified for every possible draw.

use vstd::prelude::*;

verus! {

#[verifier::external_type_specification]
#[verifier::external_body]
pub struct ExChaCha8Rng(rand_chacha::ChaCha8Rng);

/// Relies on `rand_chacha::ChaCha8Rng::seed_from_u64` (via `rand_core`'s
/// `SeedableRng`): builds a generator from a seed; never panics.
#[verifier::external_body]
pub(crate) fn rng_from_seed(seed: u64) -> rand_chacha::ChaCha8Rng {
    <rand_chacha::ChaCha8Rng as rand::SeedableRng>::seed_from_u64(seed)
}

/// Relies on `rand::Rng::gen_range` over `0..n`: returns a value of the
/// (nonempty) range, so the result is below `n`; panics only on an empty
/// range, which `n >= 1` rules out.
#[verifier::external_body]
pub(crate) fn rng_below(rng: &mut rand_chacha::ChaCha8Rng, n: u64) -> (r: u64)
    requires
        n >= 1,
    ensures
        r < n,
{
    rand::Rng::gen_range(rng, 0..n)
}

} // verus!
