//! Trusted boundary around the `rand` crate: a seeded generator and a
//! bounded-range sample. The dungeon generator is verified for every value
//! these can return; nothing about the distribution is assumed.

use vstd::prelude::*;

use rand::Rng;
use rand::SeedableRng;
use rand::rngs::StdRng;

verus! {

#[verifier::external_type_specification]
#[verifier::external_body]
pub struct ExStdRng(StdRng);

/// Relies on `rand::SeedableRng::seed_from_u64` to build a generator from a
/// word-sized seed. Nothing is assumed about the state it returns.
#[verifier::external_body]
pub(crate) fn rng_from_seed(seed: u64) -> StdRng {
    StdRng::seed_from_u64(seed)
}

/// Relies on `rand::Rng::gen_range` over a half-open `usize` range: the
/// sample lies in `[lo, hi)`. The call panics on an empty range, so one is
/// excluded here.
#[verifier::external_body]
pub(crate) fn rand_range(rng: &mut StdRng, lo: usize, hi: usize) -> (r: usize)
    requires
        lo < hi,
    ensures
        lo <= r < hi,
{
    rng.gen_range(lo..hi)
}

} // verus!
