//! The triangles that the edges of a puzzle close.

use vstd::prelude::*;
use crate::color::Color;

verus! {

/// What a closed triangle carries: its fill colour.
#[derive(Clone, Copy, Debug, PartialEq, Eq, Structural)]
pub struct Triangle {
    pub color: Color,
}

impl Triangle {
    pub fn new(color: Color) -> (t: Triangle)
        ensures
            t.color == color,
    {
        Triangle { color }
    }
}

/// The three vertex ids of a triangle, smallest first.
pub type TriangleKey = (usize, usize, usize);

/// The edge set `edges` holds the three sides of `k`, and the ids of `k`
/// ascend.
pub open spec fn closed_in(edges: Set<(usize, usize)>, k: TriangleKey) -> bool {
    &&& k.0 < k.1 < k.2
    &&& edges.contains((k.0, k.1))
    &&& edges.contains((k.1, k.2))
    &&& edges.contains((k.0, k.2))
}

/// The three ids in ascending order.
pub open spec fn sorted_key(a: usize, b: usize, c: usize) -> TriangleKey {
    if a <= b {
        if b <= c {
            (a, b, c)
        } else if a <= c {
            (a, c, b)
        } else {
            (c, a, b)
        }
    } else {
        if a <= c {
            (b, a, c)
        } else if b <= c {
            (b, c, a)
        } else {
            (c, b, a)
        }
    }
}

/// The key of the triangle with the corners `a`, `b` and `c`.
pub fn triangle_key(a: usize, b: usize, c: usize) -> (k: TriangleKey)
    ensures
        k == sorted_key(a, b, c),
        k.0 <= k.1 <= k.2,
{
    if a <= b {
        if b <= c {
            (a, b, c)
        } else if a <= c {
            (a, c, b)
        } else {
            (c, a, b)
        }
    } else {
        if a <= c {
            (b, a, c)
        } else if b <= c {
            (b, c, a)
        } else {
            (c, b, a)
        }
    }
}

/// Vertex `id` is a corner of `k`.
pub open spec fn has_corner(k: TriangleKey, id: usize) -> bool {
    k.0 == id || k.1 == id || k.2 == id
}

} // verus!
