//! Shared pieces of the reproducible polytope generators.
//!
//! The generators themselves draw floating-point coordinates and live outside
//! this library.  What is verified here is everything they decide exactly:
//! the error taxonomy, the replay tokens that make every sample addressable,
//! the vertex-count distribution, and the index arithmetic of the enumerator
//! of polygon-product pairs.

use vstd::prelude::*;
use vstd::string::StringExecFns;
use crate::replay::ReplayToken;
use crate::replay::sample_range_inclusive;

verus! {

/// Error type shared by all generators.
#[derive(Debug)]
pub enum GeneratorError {
    InvalidParams { reason: String },
    DegenerateSample { reason: String },
}

impl GeneratorError {
    /// The reason string carried by either variant.
    pub open spec fn spec_reason(self) -> Seq<char> {
        match self {
            GeneratorError::InvalidParams { reason } => reason@,
            GeneratorError::DegenerateSample { reason } => reason@,
        }
    }

    /// An invalid-parameters error with the given reason.
    pub fn invalid(reason: String) -> (r: Self)
        ensures
            r is InvalidParams,
            r.spec_reason() == reason@,
    {
        Self::InvalidParams { reason }
    }

    /// A degenerate-sample error with the given reason.
    pub fn degenerate(reason: String) -> (r: Self)
        ensures
            r is DegenerateSample,
            r.spec_reason() == reason@,
    {
        Self::DegenerateSample { reason }
    }

    /// Human-readable message: a fixed prefix naming the variant, then the
    /// reason.
    pub fn message(&self) -> (r: String)
        ensures
            self is InvalidParams ==> r@ == "invalid generator params: "@ + self.spec_reason(),
            self is DegenerateSample ==> r@ == "degenerate sample: "@ + self.spec_reason(),
    {
        match self {
            GeneratorError::InvalidParams { reason } => {
                let mut s = "invalid generator params: ".to_owned();
                s.append(reason.as_str());
                s
            },
            GeneratorError::DegenerateSample { reason } => {
                let mut s = "degenerate sample: ".to_owned();
                s.append(reason.as_str());
                s
            },
        }
    }
}

/// Replay token for the random-vertices generator.
#[derive(Clone, Copy, Debug, PartialEq, Eq, Structural)]
pub struct VerticesReplay {
    pub seed: u64,
}

/// Replay token for the random-faces generator.
#[derive(Clone, Copy, Debug, PartialEq, Eq, Structural)]
pub struct FacesReplay {
    pub seed: u64,
}

/// Replay token storing the seed that regenerates the same halfspace sample.
#[derive(Clone, Copy, Debug, PartialEq, Eq, Structural)]
pub struct SeedReplay {
    pub seed: u64,
}

/// Replay token for Mahler samples (wraps the 2D polygon token).
#[derive(Clone, Copy, Debug, PartialEq, Eq, Structural)]
pub struct MahlerReplay {
    pub polygon: ReplayToken,
}

/// Replay token storing the index pair for a deterministic tuple.
#[derive(Clone, Copy, Debug, PartialEq, Eq, Structural)]
pub struct RegularProductReplay {
    pub index_a: usize,
    pub index_b: usize,
}

/// Vertex count distribution for the 2D polygon sampler.  A polygon needs at
/// least 3 vertices, so both forms are clamped from below by 3.
#[derive(Clone, Copy, Debug)]
pub enum VertexCount {
    Fixed(usize),
    Uniform { min: usize, max: usize },
}

impl VertexCount {
    /// The inclusive range a sample is drawn from, after clamping: a fixed
    /// count collapses to a one-point range.
    pub open spec fn sample_bounds(self) -> (usize, usize) {
        match self {
            VertexCount::Fixed(n) => {
                let m = if n >= 3 { n } else { 3 };
                (m, m)
            },
            VertexCount::Uniform { min, max } => {
                let lo = if min >= 3 { min } else { 3 };
                let hi = if max >= lo { max } else { lo };
                (lo, hi)
            },
        }
    }

    /// Draw a vertex count: the clamped fixed value, or a uniform draw from
    /// the clamped range.
    pub fn sample(&self, rng: &mut rand::rngs::StdRng) -> (n: usize)
        ensures
            self.sample_bounds().0 <= n <= self.sample_bounds().1,
            self is Fixed ==> n == self.sample_bounds().0,
    {
        match *self {
            VertexCount::Fixed(n) => if n >= 3 { n } else { 3 },
            VertexCount::Uniform { min, max } => {
                let lo: usize = if min >= 3 { min } else { 3 };
                let hi: usize = if max >= lo { max } else { lo };
                sample_range_inclusive(rng, lo, hi)
            },
        }
    }
}

/// Total number of pairs the product enumerator walks, or `None` where the
/// product overflows the machine word.
pub fn total_pairs(len_a: usize, len_b: usize) -> (r: Option<usize>)
    ensures
        len_a * len_b <= usize::MAX ==> r == Some((len_a * len_b) as usize),
        len_a * len_b > usize::MAX ==> r is None,
{
    len_a.checked_mul(len_b)
}

/// The pair the product enumerator visits at a given linear position:
/// row-major order over the two factor lists.
pub fn pair_at(linear: usize, len_b: usize) -> (r: RegularProductReplay)
    requires
        len_b > 0,
    ensures
        r.index_a == linear as int / len_b as int,
        r.index_b == linear as int % len_b as int,
        r.index_b < len_b,
{
    RegularProductReplay { index_a: linear / len_b, index_b: linear % len_b }
}

/// The product enumerator's step decision: the pair to yield at the current
/// cursor, or `None` once the yield limit or the end of the grid is reached.
pub fn next_pair(
    linear: usize,
    yielded: usize,
    len_a: usize,
    len_b: usize,
    max_pairs: Option<usize>,
) -> (r: Option<RegularProductReplay>)
    requires
        len_b > 0,
        len_a * len_b <= usize::MAX,
    ensures
        match r {
            Some(p) => {
                &&& (match max_pairs {
                    Some(limit) => yielded < limit,
                    None => true,
                })
                &&& linear < len_a * len_b
                &&& p.index_a == linear as int / len_b as int
                &&& p.index_b == linear as int % len_b as int
            },
            None => {
                ||| (match max_pairs {
                    Some(limit) => yielded >= limit,
                    None => false,
                })
                ||| linear >= len_a * len_b
            },
        },
{
    if let Some(limit) = max_pairs {
        if yielded >= limit {
            return None;
        }
    }
    if linear >= len_a * len_b {
        return None;
    }
    Some(pair_at(linear, len_b))
}

} // verus!
