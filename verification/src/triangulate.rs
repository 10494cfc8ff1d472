//! Delaunay triangulation of a vertex subset, folded into an edge set.

use vstd::prelude::*;
use crate::edge::{not_inner_fn, order_with, spec_normalize, without_inner};
use crate::geometry::{dist_sq, Point};

verus! {

/// The longest edge that a triangulation commits, in world units.
pub const MAX_EDGE_LENGTH: u32 = 100;

/// The point indices that `delaunator::triangulate` returns in the field
/// `triangles` for the given points, three for each triangle.
pub uninterp spec fn delaunay(points: Seq<Point>) -> Seq<usize>;

/// Calls `delaunator::triangulate` on the points, each coordinate converted
/// to the crate's floating-point type without loss, and hands back the field
/// `triangles` of the result. The contract names that result, which the
/// crate computes from the points alone, and claims of it what the crate's
/// source shows: triangles are added three indices at a time, every index is
/// that of a point, and without a seed triangle, for which three points are
/// needed, there is no triangle.
#[verifier::external_body]
pub(crate) fn delaunay_triangles(points: &Vec<Point>) -> (triangles: Vec<usize>)
    ensures
        triangles@ == delaunay(points@),
        triangles@.len() % 3 == 0,
        forall|i: int| 0 <= i < triangles@.len() ==> #[trigger] triangles@[i] < points@.len(),
        points@.len() < 3 ==> triangles@.len() == 0,
{
    let mut input: Vec<delaunator::Point> = Vec::new();
    for p in points.iter() {
        input.push(delaunator::Point { x: p.x.into(), y: p.y.into() });
    }
    delaunator::triangulate(&input).triangles
}

/// The two ends are at most `MAX_EDGE_LENGTH` apart.
pub open spec fn short_enough(a: Point, b: Point) -> bool {
    dist_sq(a, b) <= MAX_EDGE_LENGTH * MAX_EDGE_LENGTH
}

/// Triple number `t` of `tris` is complete and each of its three indices
/// points into `ids`.
pub open spec fn triple_ok(ids: Seq<usize>, tris: Seq<usize>, t: int) -> bool {
    &&& 0 <= t
    &&& 3 * t + 2 < tris.len()
    &&& tris[3 * t] < ids.len()
    &&& tris[3 * t + 1] < ids.len()
    &&& tris[3 * t + 2] < ids.len()
}

/// `e` is one of the three sides of triple number `t`, between two different
/// vertices that are stored in `pos` and at most `MAX_EDGE_LENGTH` apart.
pub open spec fn triple_gives(
    ids: Seq<usize>,
    pos: Map<usize, Point>,
    tris: Seq<usize>,
    t: int,
    e: (usize, usize),
) -> bool {
    triple_ok(ids, tris, t) && {
        let a = ids[tris[3 * t] as int];
        let b = ids[tris[3 * t + 1] as int];
        let c = ids[tris[3 * t + 2] as int];
        side_gives(pos, a, b, e) || side_gives(pos, b, c, e) || side_gives(pos, a, c, e)
    }
}

/// `e` is the edge between `a` and `b`, two different vertices that are
/// stored in `pos` and at most `MAX_EDGE_LENGTH` apart.
pub open spec fn side_gives(pos: Map<usize, Point>, a: usize, b: usize, e: (usize, usize)) -> bool {
    &&& a != b
    &&& e == spec_normalize(a, b)
    &&& pos.dom().contains(a)
    &&& pos.dom().contains(b)
    &&& short_enough(pos[a], pos[b])
}

/// `e` is a side of one of the first `n` triples.
pub open spec fn given_before(
    ids: Seq<usize>,
    pos: Map<usize, Point>,
    tris: Seq<usize>,
    n: int,
    e: (usize, usize),
) -> bool {
    exists|t: int| 0 <= t < n && #[trigger] triple_gives(ids, pos, tris, t, e)
}

/// The edge set after the vertices `ids`, which lie at `pos`, were
/// triangulated with the triples `tris`: the edges among `ids` are replaced
/// by the sides of the triples that are not too long; all other edges stay.
pub open spec fn triangulated(
    before: Set<(usize, usize)>,
    ids: Seq<usize>,
    pos: Map<usize, Point>,
    tris: Seq<usize>,
) -> Set<(usize, usize)> {
    Set::new(
        |e: (usize, usize)|
            without_inner(before, ids.to_set()).contains(e) || given_before(
                ids,
                pos,
                tris,
                tris.len() as int,
                e,
            ),
    )
}

/// `a` and `b` are two different vertices that are stored in `pos` and at
/// most `MAX_EDGE_LENGTH` apart.
pub open spec fn side_ok(pos: Map<usize, Point>, a: usize, b: usize) -> bool {
    &&& a != b
    &&& pos.dom().contains(a)
    &&& pos.dom().contains(b)
    &&& short_enough(pos[a], pos[b])
}

/// The order of the edges after the side between `a` and `b` was committed.
pub open spec fn order_committed(
    order: Seq<(usize, usize)>,
    pos: Map<usize, Point>,
    a: usize,
    b: usize,
) -> Seq<(usize, usize)> {
    if side_ok(pos, a, b) {
        order_with(order, a, b)
    } else {
        order
    }
}

/// The order of the edges after the sides of the first `n` triples were
/// committed, triple by triple, the three sides of each in turn.
pub open spec fn order_after_triples(
    order: Seq<(usize, usize)>,
    ids: Seq<usize>,
    pos: Map<usize, Point>,
    tris: Seq<usize>,
    n: nat,
) -> Seq<(usize, usize)>
    decreases n,
{
    if n == 0 {
        order
    } else {
        let prev = order_after_triples(order, ids, pos, tris, (n - 1) as nat);
        let t = n - 1;
        if triple_ok(ids, tris, t) {
            let a = ids[tris[3 * t] as int];
            let b = ids[tris[3 * t + 1] as int];
            let c = ids[tris[3 * t + 2] as int];
            order_committed(order_committed(order_committed(prev, pos, a, b), pos, b, c), pos, a, c)
        } else {
            prev
        }
    }
}

/// The order of the edges after a triangulation: the edges that stay, in
/// their order, then the new sides in the order of the triples.
pub open spec fn triangulated_order(
    before: Seq<(usize, usize)>,
    ids: Seq<usize>,
    pos: Map<usize, Point>,
    tris: Seq<usize>,
) -> Seq<(usize, usize)> {
    order_after_triples(
        before.filter(not_inner_fn(ids.to_set())),
        ids,
        pos,
        tris,
        (tris.len() / 3) as nat,
    )
}

} // verus!
