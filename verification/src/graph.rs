//! Identifiers and search bookkeeping for the oriented-edge graph.
//!
//! Ridges (2-faces) are the nodes of the graph and facets label its edges;
//! both are referred to by index.  The depth-first search walks the graph
//! under the rule that no facet is traversed twice on a walk; `FacetMarks`
//! is the mask that enforces it, restored on backtrack.

use vstd::prelude::*;

verus! {

/// Identifier of a ridge (a node of the oriented-edge graph).
#[derive(Clone, Copy, Debug, PartialEq, Eq, Hash, Structural)]
pub struct RidgeId(pub usize);

/// Identifier of a facet (an edge label of the oriented-edge graph).
#[derive(Clone, Copy, Debug, PartialEq, Eq, Hash, Structural)]
pub struct FacetId(pub usize);

/// The set of facets a search walk has already traversed, as a mask over
/// facet indices.
pub struct FacetMarks {
    marks: Vec<bool>,
}

impl View for FacetMarks {
    type V = Seq<bool>;

    closed spec fn view(&self) -> Seq<bool> {
        self.marks@
    }
}

impl FacetMarks {
    /// A mask over `n` facets with nothing marked.
    pub fn new(n: usize) -> (r: Self)
        ensures
            r@.len() == n,
            forall|i: int| 0 <= i < n ==> !(#[trigger] r@[i]),
    {
        let mut marks: Vec<bool> = Vec::new();
        for i in 0..n
            invariant
                marks@.len() == i,
                forall|j: int| 0 <= j < i ==> !(#[trigger] marks@[j]),
        {
            marks.push(false);
        }
        FacetMarks { marks }
    }

    /// The number of facets the mask covers.
    pub fn len(&self) -> (r: usize)
        ensures
            r == self@.len(),
    {
        self.marks.len()
    }

    /// Whether facet `f` has been traversed.
    pub fn is_marked(&self, f: FacetId) -> (r: bool)
        requires
            f.0 < self@.len(),
        ensures
            r == self@[f.0 as int],
    {
        self.marks[f.0]
    }

    /// Record that facet `f` is traversed.
    pub fn mark(&mut self, f: FacetId)
        requires
            f.0 < old(self)@.len(),
        ensures
            final(self)@ == old(self)@.update(f.0 as int, true),
    {
        self.marks.set(f.0, true);
    }

    /// Release facet `f` on backtrack.
    pub fn unmark(&mut self, f: FacetId)
        requires
            f.0 < old(self)@.len(),
        ensures
            final(self)@ == old(self)@.update(f.0 as int, false),
    {
        self.marks.set(f.0, false);
    }
}

} // verus!
