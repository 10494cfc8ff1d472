//! Lattice points and the exact predicates on them.

use vstd::prelude::*;

verus! {

/// A position in world units.
#[derive(Clone, Copy, Debug, PartialEq, Eq, Structural)]
pub struct Point {
    pub x: i32,
    pub y: i32,
}

/// Squared Euclidean distance between two points.
pub open spec fn dist_sq(p: Point, q: Point) -> int {
    (p.x - q.x) * (p.x - q.x) + (p.y - q.y) * (p.y - q.y)
}

/// Twice the signed area of the triangle `a`, `b`, `c`: the common
/// denominator of the barycentric coordinates.
pub open spec fn bary_den(a: Point, b: Point, c: Point) -> int {
    (b.y - c.y) * (a.x - c.x) + (c.x - b.x) * (a.y - c.y)
}

/// Numerator of the barycentric coordinate of `t` that belongs to `a`.
pub open spec fn bary_alpha(t: Point, b: Point, c: Point) -> int {
    (b.y - c.y) * (t.x - c.x) + (c.x - b.x) * (t.y - c.y)
}

/// Numerator of the barycentric coordinate of `t` that belongs to `b`.
pub open spec fn bary_beta(t: Point, a: Point, c: Point) -> int {
    (c.y - a.y) * (t.x - c.x) + (a.x - c.x) * (t.y - c.y)
}

/// `t` lies strictly inside the triangle `a`, `b`, `c`: the triangle is not
/// degenerate and each of the three barycentric coordinates of `t`, a
/// numerator over `bary_den`, is strictly positive. Points on an edge or a
/// corner are outside.
pub open spec fn strictly_inside(t: Point, a: Point, b: Point, c: Point) -> bool {
    let d = bary_den(a, b, c);
    let al = bary_alpha(t, b, c);
    let be = bary_beta(t, a, c);
    let ga = d - al - be;
    d != 0 && al * d > 0 && be * d > 0 && ga * d > 0
}

/// The midpoint of the segment `p`, `q`, each coordinate rounded down.
pub open spec fn midpoint_spec(p: Point, q: Point) -> Point {
    Point { x: ((p.x + q.x) / 2) as i32, y: ((p.y + q.y) / 2) as i32 }
}

proof fn lemma_product_bound(a: int, b: int)
    requires
        -0x1_0000_0000 <= a <= 0x1_0000_0000,
        -0x1_0000_0000 <= b <= 0x1_0000_0000,
    ensures
        -0x1_0000_0000_0000_0000 <= a * b <= 0x1_0000_0000_0000_0000,
{
    assert(-0x1_0000_0000_0000_0000 <= a * b <= 0x1_0000_0000_0000_0000) by (nonlinear_arith)
        requires
            -0x1_0000_0000 <= a <= 0x1_0000_0000,
            -0x1_0000_0000 <= b <= 0x1_0000_0000,
    ;
}

proof fn lemma_sign_of_product(n: int, d: int)
    ensures
        n * d > 0 <==> (n > 0 && d > 0) || (n < 0 && d < 0),
{
    assert(n * d > 0 <==> (n > 0 && d > 0) || (n < 0 && d < 0)) by (nonlinear_arith);
}

/// The product of two coordinate differences.
fn mul_wide(a: i64, b: i64) -> (r: i128)
    requires
        -0x1_0000_0000 <= a <= 0x1_0000_0000,
        -0x1_0000_0000 <= b <= 0x1_0000_0000,
    ensures
        r == a * b,
        -0x1_0000_0000_0000_0000 <= r <= 0x1_0000_0000_0000_0000,
{
    proof {
        lemma_product_bound(a as int, b as int);
    }
    let wa: i128 = a as i128;
    let wb: i128 = b as i128;
    wa * wb
}

impl Point {
    pub fn new(x: i32, y: i32) -> (p: Point)
        ensures
            p == (Point { x, y }),
    {
        Point { x, y }
    }

    /// Squared distance to `other`; no two points are too far apart for it.
    pub fn distance_squared(self, other: Point) -> (d: u128)
        ensures
            d == dist_sq(self, other),
    {
        let dx: i64 = self.x as i64 - other.x as i64;
        let dy: i64 = self.y as i64 - other.y as i64;
        let sx: i128 = mul_wide(dx, dx);
        let sy: i128 = mul_wide(dy, dy);
        assert(sx >= 0 && sy >= 0) by (nonlinear_arith)
            requires
                sx == dx * dx,
                sy == dy * dy,
        ;
        (sx + sy) as u128
    }

    /// Whether `other` lies within `radius` of `self`, the rim included.
    pub fn within(self, other: Point, radius: u32) -> (b: bool)
        ensures
            b == (dist_sq(self, other) <= radius * radius),
    {
        let r: u128 = radius as u128;
        assert(r * r <= 0xffff_ffff * 0xffff_ffff) by (nonlinear_arith)
            requires
                0 <= r <= 0xffff_ffff,
        ;
        self.distance_squared(other) <= r * r
    }

    /// Whether `other` lies less than `radius` from `self`.
    pub fn closer_than(self, other: Point, radius: u32) -> (b: bool)
        ensures
            b == (dist_sq(self, other) < radius * radius),
    {
        let r: u128 = radius as u128;
        assert(r * r <= 0xffff_ffff * 0xffff_ffff) by (nonlinear_arith)
            requires
                0 <= r <= 0xffff_ffff,
        ;
        self.distance_squared(other) < r * r
    }

    /// The midpoint of the segment to `other`, rounded down.
    pub fn midpoint(self, other: Point) -> (m: Point)
        ensures
            m == midpoint_spec(self, other),
    {
        Point { x: half_sum(self.x, other.x), y: half_sum(self.y, other.y) }
    }
}

/// `floor((a + b) / 2)`.
fn half_sum(a: i32, b: i32) -> (h: i32)
    ensures
        h == (a + b) / 2,
{
    let s: i64 = a as i64 + b as i64;
    if s >= 0 {
        (s / 2) as i32
    } else {
        let t: i64 = -((1 - s) / 2);
        t as i32
    }
}

/// The barycentric sign test: `test` is strictly inside the triangle `a`,
/// `b`, `c`. A degenerate triangle contains nothing.
pub fn point_in_triangle(test: Point, a: Point, b: Point, c: Point) -> (inside: bool)
    ensures
        inside == strictly_inside(test, a, b, c),
{
    let bcy: i64 = b.y as i64 - c.y as i64;
    let cbx: i64 = c.x as i64 - b.x as i64;
    let cay: i64 = c.y as i64 - a.y as i64;
    let acx: i64 = a.x as i64 - c.x as i64;
    let acy: i64 = a.y as i64 - c.y as i64;
    let tcx: i64 = test.x as i64 - c.x as i64;
    let tcy: i64 = test.y as i64 - c.y as i64;
    let d: i128 = mul_wide(bcy, acx) + mul_wide(cbx, acy);
    let al: i128 = mul_wide(bcy, tcx) + mul_wide(cbx, tcy);
    let be: i128 = mul_wide(cay, tcx) + mul_wide(acx, tcy);
    let ga: i128 = d - al - be;
    proof {
        assert(d == bary_den(a, b, c));
        assert(al == bary_alpha(test, b, c));
        assert(be == bary_beta(test, a, c));
        lemma_sign_of_product(al as int, d as int);
        lemma_sign_of_product(be as int, d as int);
        lemma_sign_of_product(ga as int, d as int);
    }
    if d > 0 {
        al > 0 && be > 0 && ga > 0
    } else if d < 0 {
        al < 0 && be < 0 && ga < 0
    } else {
        false
    }
}

} // verus!
