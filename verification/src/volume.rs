//! Error taxonomy of the 4D volume computation.
//!
//! The volume routine triangulates each facet through its incident 2-faces
//! and cones the tetrahedra to the centroid.  It fails only on structurally
//! malformed input, and reports which face or facet is at fault.

use vstd::prelude::*;

verus! {

/// Errors surfaced by the volume algorithm.
#[derive(Clone, Copy, Debug, PartialEq, Eq)]
pub enum VolumeError {
    /// Not enough half-spaces to enclose a H-rep polytope.
    NeedHalfspaces,
    /// Enumeration could not recover enough vertices (degenerate input).
    NeedVertices,
    /// A 2-face could not be ordered into a polygon.
    DegenerateFace2 { facets: (usize, usize) },
    /// A facet is missing incident 2-faces or has too few distinct vertices.
    DegenerateFacet { facet: usize },
}

impl VolumeError {
    /// Human-readable description of the failure class.
    pub fn message(&self) -> (r: String)
        ensures
            *self is NeedHalfspaces ==> r@ == "polytope has no half-spaces (empty volume)"@,
            *self is NeedVertices ==> r@
                == "polytope has insufficient vertices for a 4D volume"@,
            *self is DegenerateFace2 ==> r@
                == "2-face is degenerate (needs at least 3 unique vertices)"@,
            *self is DegenerateFacet ==> r@
                == "facet is degenerate (needs at least 4 vertices and an incident 2-face)"@,
    {
        match self {
            VolumeError::NeedHalfspaces => "polytope has no half-spaces (empty volume)".to_owned(),
            VolumeError::NeedVertices =>
                "polytope has insufficient vertices for a 4D volume".to_owned(),
            VolumeError::DegenerateFace2 { .. } =>
                "2-face is degenerate (needs at least 3 unique vertices)".to_owned(),
            VolumeError::DegenerateFacet { .. } =>
                "facet is degenerate (needs at least 4 vertices and an incident 2-face)".to_owned(),
        }
    }
}

} // verus!
