//! Replay tokens for reproducible random draws.
//!
//! A draw is identified by a `(seed, index)` pair; the pair is mixed into a
//! single 64-bit key (SplitMix64-style finalizer) which then seeds the
//! generator.  The mixing is pure 64-bit arithmetic and is verified against
//! the spec-level definition below, so equal tokens provably yield equal
//! keys.

use vstd::prelude::*;

verus! {

/// SplitMix64 finalizer, spec level: two xor-shift rounds interleaved with
/// wrapping multiplications by fixed odd constants.
pub open spec fn mix64(x0: u64) -> u64 {
    let x1 = x0 ^ (x0 >> 30);
    let x2 = vstd::wrapping::u64_specs::wrapping_mul(x1, 0xbf58476d1ce4e5b9);
    let x3 = x2 ^ (x2 >> 27);
    let x4 = vstd::wrapping::u64_specs::wrapping_mul(x3, 0x94d049bb133111eb);
    x4 ^ (x4 >> 31)
}

/// The 64-bit key a token mixes down to: the index is offset by the golden
/// gamma, mixed, folded into the seed, and mixed once more.
pub open spec fn replay_key(seed: u64, index: u64) -> u64 {
    mix64(seed ^ mix64(vstd::wrapping::u64_specs::wrapping_add(index, 0x9e3779b97f4a7c15)))
}

/// Replay token to make draws reproducible and indexable.
#[derive(Clone, Copy, Debug, PartialEq, Eq, Structural)]
pub struct ReplayToken {
    pub seed: u64,
    pub index: u64,
}

/// SplitMix64 finalizer, executable form.
pub fn mix(x: u64) -> (r: u64)
    ensures
        r == mix64(x),
{
    let a: u64 = x ^ (x >> 30);
    let b: u64 = a.wrapping_mul(0xbf58476d1ce4e5b9);
    let c: u64 = b ^ (b >> 27);
    let d: u64 = c.wrapping_mul(0x94d049bb133111eb);
    d ^ (d >> 31)
}

impl ReplayToken {
    /// The mixed 64-bit key that seeds this token's generator.
    pub fn key(self) -> (r: u64)
        ensures
            r == replay_key(self.seed, self.index),
    {
        let offset: u64 = self.index.wrapping_add(0x9e3779b97f4a7c15);
        mix(self.seed ^ mix(offset))
    }

    /// The generator this token stands for: the standard generator seeded
    /// with the token's mixed key.
    pub fn to_std_rng(self) -> rand::rngs::StdRng {
        seeded_rng(self.key())
    }
}

#[verifier::external_type_specification]
#[verifier::external_body]
pub struct ExStdRng(rand::rngs::StdRng);

/// Relies on `rand::SeedableRng::seed_from_u64` for `StdRng`: it derives a
/// generator from the 64-bit state and never fails.  Nothing is assumed about
/// the values the generator will produce.
#[verifier::external_body]
fn seeded_rng(seed: u64) -> rand::rngs::StdRng {
    <rand::rngs::StdRng as rand::SeedableRng>::seed_from_u64(seed)
}

/// Relies on `rand::Rng::gen_range` on an inclusive range: the sample lies in
/// the range.  The call panics on an empty range, which `lo <= hi` rules out.
#[verifier::external_body]
pub(crate) fn sample_range_inclusive(rng: &mut rand::rngs::StdRng, lo: usize, hi: usize) -> (r: usize)
    requires
        lo <= hi,
    ensures
        lo <= r <= hi,
{
    rand::Rng::gen_range(rng, lo..=hi)
}

} // verus!
