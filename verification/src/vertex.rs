//! The vertices of a puzzle.

use vstd::prelude::*;
use crate::geometry::Point;

verus! {

/// A vertex: where it lies, and how many of the solution edges at it the
/// player has drawn and has yet to draw.
#[derive(Clone, Copy, Debug, PartialEq, Eq, Structural)]
pub struct Vertex {
    pub pos: Point,
    pub visible_count: usize,
    pub invisible_count: usize,
}

/// The vertex at `pos` with both counters at zero.
pub open spec fn fresh_vertex(pos: Point) -> Vertex {
    Vertex { pos, visible_count: 0, invisible_count: 0 }
}

impl Vertex {
    pub fn new(pos: Point) -> (v: Vertex)
        ensures
            v == fresh_vertex(pos),
    {
        Vertex { pos, visible_count: 0, invisible_count: 0 }
    }
}

} // verus!
