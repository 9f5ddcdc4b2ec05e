use rand::Rng;
use rand::SeedableRng;
use vstd::prelude::*;

use crate::chance::SCALE;

verus! {

/// `rand_pcg::Lcg64Xsh32`, the PCG generator with 32-bit output that is also
/// named `Pcg32`. Its state is not read.
#[verifier::external_type_specification]
#[verifier::external_body]
pub struct ExPcg32(rand_pcg::Lcg64Xsh32);

/// The generator that every model owns.
pub type PRng = rand_pcg::Pcg32;

/// `Pcg32::seed_from_u64` builds a generator from a 64-bit seed. Nothing is
/// claimed of the generator.
#[verifier::external_body]
pub(crate) fn seeded_rng(seed: u64) -> PRng {
    PRng::seed_from_u64(seed)
}

/// `Rng::gen_range(low, high)` on `u32` panics unless `low < high`, and
/// otherwise returns a value in `[low, high)`. Which value is not claimed.
#[verifier::external_body]
pub(crate) fn draw_below(rng: &mut PRng, low: u32, high: u32) -> (r: u32)
    requires
        low < high,
    ensures
        low <= r < high,
{
    rng.gen_range(low, high)
}

/// Draws a probability sample, in millionths, from `[0, 1)`.
pub fn draw_chance(rng: &mut PRng) -> (r: u32)
    ensures
        r < SCALE,
{
    draw_below(rng, 0, SCALE)
}

} // verus!
