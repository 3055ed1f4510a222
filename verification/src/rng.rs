use vstd::prelude::*;

verus! {

#[verifier::external_type_specification]
#[verifier::external_body]
pub struct ExStdRng(rand::rngs::StdRng);

/// Relies on rand's `SeedableRng::seed_from_u64` for `StdRng`: it builds a
/// generator whose draw sequence is a function of the seed alone.
#[verifier::external_body]
fn seeded_generator(seed: u64) -> rand::rngs::StdRng {
    <rand::rngs::StdRng as rand::SeedableRng>::seed_from_u64(seed)
}

/// Relies on rand's `Rng::gen_range` over `lo..hi`: for a non-empty range it
/// returns a uniform sample in `[lo, hi)`; nothing further can be promised
/// of a random draw.
#[verifier::external_body]
fn sample_half_open(source: &mut rand::rngs::StdRng, lo: u64, hi: u64) -> (r: u64)
    requires
        lo < hi,
    ensures
        lo <= r < hi,
{
    rand::Rng::gen_range(source, lo..hi)
}

/// Relies on rand's `Rng::gen_range` over `lo..=hi`: for a non-empty range
/// it returns a uniform sample in `[lo, hi]`; nothing further can be
/// promised of a random draw.
#[verifier::external_body]
fn sample_closed(source: &mut rand::rngs::StdRng, lo: u64, hi: u64) -> (r: u64)
    requires
        lo <= hi,
    ensures
        lo <= r <= hi,
{
    rand::Rng::gen_range(source, lo..=hi)
}

/// A seeded uniform-range integer sampler, threaded explicitly through
/// generation and rasterization so that layouts are reproducible from the
/// seed. Most draws use inclusive-low, exclusive-high ranges; the
/// percentage rolls of door placement use ranges inclusive on both ends.
pub struct DungeonRng {
    source: rand::rngs::StdRng,
}

impl DungeonRng {
    /// A fresh sampler whose whole draw sequence is determined by `seed`.
    pub fn new(seed: u64) -> DungeonRng {
        DungeonRng { source: seeded_generator(seed) }
    }

    /// A uniform sample in `[lo, hi)`.
    pub fn sample(&mut self, lo: u64, hi: u64) -> (r: u64)
        requires
            lo < hi,
        ensures
            lo <= r < hi,
    {
        sample_half_open(&mut self.source, lo, hi)
    }

    /// A uniform sample in `[lo, hi]`.
    pub fn sample_inclusive(&mut self, lo: u64, hi: u64) -> (r: u64)
        requires
            lo <= hi,
        ensures
            lo <= r <= hi,
    {
        sample_closed(&mut self.source, lo, hi)
    }
}

} // verus!
