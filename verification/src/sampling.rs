//! Colouring triangles from samples of a picture: where to sample, and what
//! the samples give.

use vstd::prelude::*;
use vstd::arithmetic::div_mod::{
    lemma_div_is_ordered_by_denominator, lemma_div_pos_is_pos, lemma_fundamental_div_mod,
    lemma_fundamental_div_mod_converse,
};
use crate::color::Color;
use crate::geometry::Point;
use crate::puzzle::Puzzle;
use crate::triangle::Triangle;

verus! {

/// `floor(v / d)` for a positive `d`.
fn floor_div_wide(v: i64, d: i64) -> (q: i64)
    requires
        0 < d <= 0x1_0000,
        -0x4000_0000_0000_0000 <= v <= 0x4000_0000_0000_0000,
    ensures
        q == v as int / d as int,
{
    if v >= 0 {
        v / d
    } else {
        let w: i64 = -v;
        let up: i64 = (w + (d - 1)) / d;
        let rest: i64 = (w + (d - 1)) % d;
        proof {
            lemma_fundamental_div_mod(w + d - 1, d as int);
            lemma_div_pos_is_pos(w + d - 1, d as int);
            lemma_div_is_ordered_by_denominator(w + d - 1, 1, d as int);
            assert(d * up == up * d) by (nonlinear_arith);
            assert((-up) * d == -(up * d)) by (nonlinear_arith);
            lemma_fundamental_div_mod_converse(v as int, d as int, -up, d - 1 - rest);
        }
        -up
    }
}

/// One coordinate of a point between `from` and `to`: `num` of `den` parts
/// of the way, rounded down.
pub open spec fn lerp_coord(from: int, to: int, num: int, den: int) -> int {
    from + ((to - from) * num) / den
}

/// The point `num` of `den` parts of the way from `from` to `to`.
pub open spec fn lerp_spec(from: Point, to: Point, num: int, den: int) -> Point {
    Point {
        x: lerp_coord(from.x as int, to.x as int, num, den) as i32,
        y: lerp_coord(from.y as int, to.y as int, num, den) as i32,
    }
}

/// The centroid of three points, each coordinate rounded down.
pub open spec fn centroid_spec(a: Point, b: Point, c: Point) -> Point {
    Point { x: ((a.x + b.x + c.x) / 3) as i32, y: ((a.y + b.y + c.y) / 3) as i32 }
}

/// A coordinate between `from` and `to` lies between them.
proof fn lemma_lerp_between(from: int, to: int, num: int, den: int)
    requires
        0 <= num <= den,
        0 < den,
    ensures
        from <= to ==> from <= lerp_coord(from, to, num, den) <= to,
        to <= from ==> to <= lerp_coord(from, to, num, den) <= from,
{
    let d = to - from;
    let q = (d * num) / den;
    lemma_fundamental_div_mod(d * num, den);
    let r = (d * num) % den;
    assert(0 <= r < den) by {
        vstd::arithmetic::div_mod::lemma_mod_bound(d * num, den);
    }
    assert(den * q == q * den) by (nonlinear_arith);
    if d >= 0 {
        assert(0 <= d * num <= d * den) by (nonlinear_arith)
            requires
                d >= 0,
                0 <= num <= den,
        ;
        assert(0 <= q <= d) by (nonlinear_arith)
            requires
                d * num == q * den + r,
                0 <= r < den,
                0 <= d * num <= d * den,
                den > 0,
        ;
    } else {
        assert(d * den <= d * num <= 0) by (nonlinear_arith)
            requires
                d < 0,
                0 <= num <= den,
        ;
        assert(d <= q <= 0) by (nonlinear_arith)
            requires
                d * num == q * den + r,
                0 <= r < den,
                d * den <= d * num <= 0,
                den > 0,
        ;
    }
}

fn lerp_one(from: i32, to: i32, num: u16, den: u16) -> (r: i32)
    requires
        0 < den,
        num <= den,
    ensures
        r == lerp_coord(from as int, to as int, num as int, den as int),
{
    let d: i64 = to as i64 - from as i64;
    assert(-0x1_0000_0000_0000 <= d * (num as i64) <= 0x1_0000_0000_0000) by (nonlinear_arith)
        requires
            -0x1_0000_0000 <= d <= 0x1_0000_0000,
            0 <= num <= 0xffff,
    ;
    let q: i64 = floor_div_wide(d * (num as i64), den as i64);
    proof {
        lemma_lerp_between(from as int, to as int, num as int, den as int);
    }
    (from as i64 + q) as i32
}

/// The point `num` of `den` parts of the way from `from` to `to`, each
/// coordinate rounded down.
pub fn lerp(from: Point, to: Point, num: u16, den: u16) -> (p: Point)
    requires
        0 < den,
        num <= den,
    ensures
        p == lerp_spec(from, to, num as int, den as int),
{
    Point { x: lerp_one(from.x, to.x, num, den), y: lerp_one(from.y, to.y, num, den) }
}

/// The centroid of three points, each coordinate rounded down.
pub fn centroid(a: Point, b: Point, c: Point) -> (m: Point)
    ensures
        m == centroid_spec(a, b, c),
{
    let x: i64 = floor_div_wide(a.x as i64 + b.x as i64 + c.x as i64, 3);
    let y: i64 = floor_div_wide(a.y as i64 + b.y as i64 + c.y as i64, 3);
    Point { x: x as i32, y: y as i32 }
}

/// Where a triangle is sampled: at its centroid, and on the way from the
/// centroid to each corner.
#[derive(Clone, Copy, Debug)]
pub struct SamplePoints {
    pub center: Point,
    pub toward: [Point; 3],
}

/// The sample points of the triangle `a`, `b`, `c`: the centroid, and the
/// points `num` of `den` parts of the way from the centroid to each corner.
pub fn sample_points(a: Point, b: Point, c: Point, num: u16, den: u16) -> (s: SamplePoints)
    requires
        0 < den,
        num <= den,
    ensures
        s.center == centroid_spec(a, b, c),
        s.toward@ == seq![
            lerp_spec(s.center, a, num as int, den as int),
            lerp_spec(s.center, b, num as int, den as int),
            lerp_spec(s.center, c, num as int, den as int),
        ],
{
    let center = centroid(a, b, c);
    let toward = [lerp(center, a, num, den), lerp(center, b, num, den), lerp(center, c, num, den)];
    assert(toward@ =~= seq![
        lerp_spec(center, a, num as int, den as int),
        lerp_spec(center, b, num as int, den as int),
        lerp_spec(center, c, num as int, den as int),
    ]);
    SamplePoints { center, toward }
}

/// The sum of one channel of the first `n` samples.
pub open spec fn channel_sum(samples: Seq<Color>, pick: spec_fn(Color) -> u8, n: int) -> int
    decreases n,
{
    if n <= 0 {
        0
    } else {
        channel_sum(samples, pick, n - 1) + pick(samples[n - 1])
    }
}

/// The opaque colour whose red, green and blue are the means of the
/// samples, rounded down.
pub open spec fn blend_spec(samples: Seq<Color>) -> Color {
    let n = samples.len() as int;
    Color {
        red: (channel_sum(samples, |c: Color| c.red, n) / n) as u8,
        green: (channel_sum(samples, |c: Color| c.green, n) / n) as u8,
        blue: (channel_sum(samples, |c: Color| c.blue, n) / n) as u8,
        alpha: 255,
    }
}

/// The mean of the samples as an opaque colour; none without a sample.
pub fn blend(samples: &Vec<Color>) -> (mean: Option<Color>)
    ensures
        mean == if samples@.len() == 0 {
            None
        } else {
            Some(blend_spec(samples@))
        },
{
    let n = samples.len();
    if n == 0 {
        return None;
    }
    let ghost red = |c: Color| c.red;
    let ghost green = |c: Color| c.green;
    let ghost blue = |c: Color| c.blue;
    let mut r: u128 = 0;
    let mut g: u128 = 0;
    let mut b: u128 = 0;
    let mut i: usize = 0;
    while i < n
        invariant
            0 <= i <= n,
            n == samples@.len(),
            red == |c: Color| c.red,
            green == |c: Color| c.green,
            blue == |c: Color| c.blue,
            r == channel_sum(samples@, red, i as int),
            g == channel_sum(samples@, green, i as int),
            b == channel_sum(samples@, blue, i as int),
            r <= 255 * i,
            g <= 255 * i,
            b <= 255 * i,
        decreases n - i,
    {
        let c = samples[i];
        r = r + c.red as u128;
        g = g + c.green as u128;
        b = b + c.blue as u128;
        i += 1;
    }
    let count: u128 = n as u128;
    proof {
        lemma_mean_bound(r as int, count as int);
        lemma_mean_bound(g as int, count as int);
        lemma_mean_bound(b as int, count as int);
    }
    Some(Color { red: (r / count) as u8, green: (g / count) as u8, blue: (b / count) as u8, alpha: 255 })
}

/// The mean of `n` numbers of at most 255 is at most 255.
proof fn lemma_mean_bound(sum: int, n: int)
    requires
        n > 0,
        0 <= sum <= 255 * n,
    ensures
        0 <= sum / n <= 255,
{
    lemma_fundamental_div_mod(sum, n);
    vstd::arithmetic::div_mod::lemma_mod_bound(sum, n);
    let q = sum / n;
    let r = sum % n;
    assert(n * q == q * n) by (nonlinear_arith);
    assert(0 <= q <= 255) by (nonlinear_arith)
        requires
            sum == q * n + r,
            0 <= r < n,
            0 <= sum <= 255 * n,
            n > 0,
    ;
}

/// Where the shown triangles of `puzzle` are sampled, in the order of
/// `triangle_keys`.
pub fn sample_plan(puzzle: &Puzzle, num: u16, den: u16) -> (plan: Vec<SamplePoints>)
    requires
        puzzle.wf(),
        0 < den,
        num <= den,
    ensures
        plan@.len() == puzzle.triangle_keys().filter_map(puzzle.face_fn(false)).len(),
        forall|i: int|
            0 <= i < plan@.len() ==> {
                let face = puzzle.triangle_keys().filter_map(puzzle.face_fn(false))[i];
                let s = #[trigger] plan@[i];
                &&& s.center == centroid_spec(face.0, face.1, face.2)
                &&& s.toward@ == seq![
                    lerp_spec(s.center, face.0, num as int, den as int),
                    lerp_spec(s.center, face.1, num as int, den as int),
                    lerp_spec(s.center, face.2, num as int, den as int),
                ]
            },
{
    let faces = puzzle.triangles(false);
    let mut plan: Vec<SamplePoints> = Vec::new();
    let mut i: usize = 0;
    while i < faces.len()
        invariant
            0 <= i <= faces@.len(),
            0 < den,
            num <= den,
            plan@.len() == i,
            forall|j: int|
                0 <= j < i ==> {
                    let face = faces@[j];
                    let s = #[trigger] plan@[j];
                    &&& s.center == centroid_spec(face.0, face.1, face.2)
                    &&& s.toward@ == seq![
                        lerp_spec(s.center, face.0, num as int, den as int),
                        lerp_spec(s.center, face.1, num as int, den as int),
                        lerp_spec(s.center, face.2, num as int, den as int),
                    ]
                },
        decreases faces@.len() - i,
    {
        let face = faces[i];
        plan.push(sample_points(face.0, face.1, face.2, num, den));
        i += 1;
    }
    plan
}

/// Gives the triangle that covers `center` the mean of the samples as its
/// colour. Nothing changes without a sample or where no triangle covers
/// `center`.
pub fn paint_sampled(puzzle: &mut Puzzle, center: Point, samples: &Vec<Color>)
    requires
        old(puzzle).wf(),
    ensures
        final(puzzle).wf(),
        final(puzzle).same_graph(old(puzzle)),
        final(puzzle).triangle_keys() == old(puzzle).triangle_keys(),
        final(puzzle).triangle_map() == match old(puzzle).hit(center) {
            Some(k) => if samples@.len() > 0 {
                old(puzzle).triangle_map().insert(k, Triangle { color: blend_spec(samples@) })
            } else {
                old(puzzle).triangle_map()
            },
            None => old(puzzle).triangle_map(),
        },
{
    match blend(samples) {
        Some(color) => {
            puzzle.set_triangle_color(center, color);
        },
        None => {},
    }
}

} // verus!
