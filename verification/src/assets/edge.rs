//! Wireframe edges derived from faces.
//!
//! An edge is an unordered pair of mesh-space points: it is never stored in
//! a project file, but derived from a face's vertex walk.  Two edges are
//! equal when their endpoints match in either order.

use vstd::prelude::*;
use crate::assets::point::Point3D;

verus! {

/// An undirected edge between two mesh-space points.
#[derive(Debug, Copy, Clone)]
pub struct Edge {
    pub start: Point3D<i64>,
    pub end: Point3D<i64>,
}

impl Edge {
    /// Creates the edge with the given endpoints.
    pub fn new(start: Point3D<i64>, end: Point3D<i64>) -> (r: Edge)
        ensures
            r.start == start,
            r.end == end,
    {
        Edge { start, end }
    }

    /// Undirected equality: the endpoints match in either order.
    pub open spec fn spec_eq(self, other: Edge) -> bool {
        (self.start == other.start && self.end == other.end) || (self.start == other.end
            && self.end == other.start)
    }
}

impl PartialEq for Edge {
    /// Compares edges without regard to direction.
    fn eq(&self, other: &Self) -> (r: bool) {
        (self.start == other.start && self.end == other.end) || (self.start == other.end
            && self.end == other.start)
    }
}

impl vstd::std_specs::cmp::PartialEqSpecImpl for Edge {
    open spec fn obeys_eq_spec() -> bool {
        true
    }

    open spec fn eq_spec(&self, other: &Edge) -> bool {
        self.spec_eq(*other)
    }
}

/// Edge equality ignores direction: for all points A and B, the edge from
/// A to B equals the edge from B to A, and equality itself is symmetric.
pub proof fn lemma_edge_undirected(a: Point3D<i64>, b: Point3D<i64>)
    ensures
        (Edge { start: a, end: b }).spec_eq((Edge { start: b, end: a })),
        forall|e1: Edge, e2: Edge| e1.spec_eq(e2) == e2.spec_eq(e1),
{
}

} // verus!
