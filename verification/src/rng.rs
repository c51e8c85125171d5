//! The seeded random stream that the procedural world is drawn from.

use vstd::prelude::*;
use rand_pcg::Pcg64;
use rand::SeedableRng;
use rand::RngCore;

verus! {

/// The `index`-th `u32` that `rand_pcg::Pcg64` yields through `next_u32` after
/// being created with `SeedableRng::seed_from_u64(seed)`.
pub uninterp spec fn pcg64_draw(seed: u64, index: int) -> u32;

/// The first six `u32` values of the `Pcg64` stream seeded with `seed`.
///
/// Trusted: calls `rand_pcg::Pcg64::seed_from_u64` (from `rand_core::SeedableRng`) and
/// then `RngCore::next_u32` six times. The contract names the values: the
/// generator is a pure function of its seed, so the same seed always gives the
/// same six values, and the `i`-th entry is the `i`-th draw of that stream.
#[verifier::external_body]
pub(crate) fn pcg64_first_draws(seed: u64) -> (r: [u32; 6])
    ensures
        forall|i: int| 0 <= i < 6 ==> #[trigger] r@[i] == pcg64_draw(seed, i),
{
    let mut rng = Pcg64::seed_from_u64(seed);
    [rng.next_u32(), rng.next_u32(), rng.next_u32(), rng.next_u32(), rng.next_u32(), rng.next_u32()]
}

} // verus!
