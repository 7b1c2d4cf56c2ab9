//! Combinatorial core of a symplectic-capacity engine for convex 4D polytopes.
//!
//! The numerical layers of the engine (half-plane sweeps, chart maps, the
//! branch-and-bound search) work in floating point and live outside this
//! library.  What lives here is everything the engine decides by exact
//! integer combinatorics: subset enumeration for H/V conversion and face
//! enumeration, grouping of vertices into the face lattice by their tight
//! facet sets, facet-visit bookkeeping for the depth-first search, replay
//! tokens and seed mixing for the reproducible polytope generators, and the
//! error taxonomy those generators and the volume routine report.

pub mod combos;
pub mod dedup;
pub mod faces;
pub mod generators;
pub mod graph;
pub mod replay;
pub mod volume;

pub use replay::ReplayToken;
