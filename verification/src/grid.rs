//! The uniform grid that sorts positions into square cells.

use vstd::prelude::*;
use crate::geometry::{dist_sq, midpoint_spec, Point};
use crate::puzzle::Puzzle;
use crate::seq_facts::{lemma_occurs_before, lemma_push_fresh, occurs_before};
use crate::vec_map::{Key, VecMap};

verus! {

/// The side of a grid cell in world units.
pub const GRID_SIZE: i32 = 100;

/// The square of half the diagonal of a cell: `GRID_SIZE * GRID_SIZE / 2`.
pub const HALF_DIAGONAL_SQ: i32 = 5000;

/// A grid cell, named by its column and row.
#[derive(Clone, Copy, Debug, PartialEq, Eq, Structural)]
pub struct Cell {
    pub x: i32,
    pub y: i32,
}

impl Key for Cell {
    fn same(&self, other: &Cell) -> (b: bool) {
        self.x == other.x && self.y == other.y
    }
}

/// The cell that holds `p`: each coordinate divided by the cell size and
/// rounded down.
pub open spec fn cell_of(p: Point) -> Cell {
    Cell { x: (p.x as int / GRID_SIZE as int) as i32, y: (p.y as int / GRID_SIZE as int) as i32 }
}

/// The cells whose corners are positions.
pub open spec fn cell_in_world(g: Cell) -> bool {
    &&& i32::MIN <= g.x * GRID_SIZE && (g.x + 1) * GRID_SIZE <= i32::MAX
    &&& i32::MIN <= g.y * GRID_SIZE && (g.y + 1) * GRID_SIZE <= i32::MAX
}

/// One coordinate of the centre of a cell.
pub open spec fn center_coord(c: int) -> int {
    c * GRID_SIZE + GRID_SIZE / 2
}

/// Squared distance from the centre of cell `c` to `p`.
pub open spec fn center_dist_sq(c: Cell, p: Point) -> int {
    let dx = center_coord(c.x as int) - p.x;
    let dy = center_coord(c.y as int) - p.y;
    dx * dx + dy * dy
}

/// How many cells a radius spans: `radius / GRID_SIZE`, rounded up.
pub open spec fn reach_offset(radius: int) -> int {
    (radius + GRID_SIZE - 1) / (GRID_SIZE as int)
}

/// How far a query looks beyond the cells that a radius spans.
pub const WINDOW_MARGIN: i64 = 2;

/// Cell `c` is at most `reach_offset(radius) + WINDOW_MARGIN` columns and
/// rows away from the cell of `p`. Every cell that a query lists lies in this
/// window, which is what a query has to look through.
pub open spec fn in_window(c: Cell, p: Point, radius: int) -> bool {
    let g = cell_of(p);
    let off = reach_offset(radius) + WINDOW_MARGIN;
    g.x - off <= c.x <= g.x + off && g.y - off <= c.y <= g.y + off
}

/// A squared distance `d` is within half a cell diagonal plus `radius`:
/// `sqrt(d) <= sqrt(HALF_DIAGONAL_SQ) + radius`, stated without roots. With
/// `t = d - radius^2 - HALF_DIAGONAL_SQ` the inequality reads
/// `t <= 2 * radius * sqrt(HALF_DIAGONAL_SQ)`.
pub open spec fn reaches(d: int, radius: int) -> bool {
    let t = d - radius * radius - HALF_DIAGONAL_SQ;
    t <= 0 || t * t <= 4 * HALF_DIAGONAL_SQ * (radius * radius)
}

/// A cell that a query around `p` with `radius` lists: its centre lies
/// within half a cell diagonal plus `radius` of `p`.
pub open spec fn listed(c: Cell, p: Point, radius: int) -> bool {
    reaches(center_dist_sq(c, p), radius)
}

/// Column first, then row.
pub open spec fn lex_before(a: Cell, b: Cell) -> bool {
    a.x < b.x || (a.x == b.x && a.y < b.y)
}

/// The cell that holds `p`.
pub fn to_grid(p: Point) -> (g: Cell)
    ensures
        g == cell_of(p),
{
    Cell { x: floor_div(p.x), y: floor_div(p.y) }
}

/// The cell that holds `p` in a grid of cells of side `size`.
pub open spec fn cell_of_sized(p: Point, size: int) -> Cell {
    Cell { x: (p.x as int / size) as i32, y: (p.y as int / size) as i32 }
}

/// `floor(v / size)`.
fn floor_div_by(v: i32, size: i32) -> (q: i32)
    requires
        size > 0,
    ensures
        q == v as int / size as int,
{
    let d: i64 = size as i64;
    if v >= 0 {
        let q: i64 = v as i64 / d;
        proof {
            vstd::arithmetic::div_mod::lemma_div_pos_is_pos(v as int, d as int);
            vstd::arithmetic::div_mod::lemma_div_is_ordered_by_denominator(v as int, 1, d as int);
        }
        q as i32
    } else {
        let w: i64 = -(v as i64);
        let up: i64 = (w + d - 1) / d;
        let rest: i64 = (w + d - 1) % d;
        proof {
            vstd::arithmetic::div_mod::lemma_fundamental_div_mod(w + d - 1, d as int);
            vstd::arithmetic::div_mod::lemma_div_pos_is_pos(w + d - 1, d as int);
            vstd::arithmetic::div_mod::lemma_div_is_ordered_by_denominator(w + d - 1, 1, d as int);
            assert(d * up == up * d) by (nonlinear_arith);
            assert((-up) * d == -(up * d)) by (nonlinear_arith);
            vstd::arithmetic::div_mod::lemma_fundamental_div_mod_converse(
                v as int,
                d as int,
                -up,
                d - 1 - rest,
            );
            assert(up >= 1) by {
                if up == 0 {
                    assert(w + d - 1 == rest);
                }
            }
            assert(up <= w) by {
                assert(up * d <= w + d - 1);
                if up > w {
                    assert(up * d >= w + d) by (nonlinear_arith)
                        requires
                            up >= w + 1,
                            w >= 0,
                            d >= 1,
                    ;
                }
            }
        }
        (-up) as i32
    }
}

/// `floor(v / GRID_SIZE)`.
fn floor_div(v: i32) -> (q: i32)
    ensures
        q == v as int / GRID_SIZE as int,
{
    floor_div_by(v, GRID_SIZE)
}

/// The cell that holds `p` in a grid of cells of side `size`.
pub fn to_grid_sized(p: Point, size: i32) -> (g: Cell)
    requires
        size > 0,
    ensures
        g == cell_of_sized(p, size as int),
        size == GRID_SIZE ==> g == cell_of(p),
{
    Cell { x: floor_div_by(p.x, size), y: floor_div_by(p.y, size) }
}

/// The lower and the upper corner of a cell.
pub fn grid_bounds(g: Cell) -> (b: (Point, Point))
    requires
        cell_in_world(g),
    ensures
        b.0.x == g.x * GRID_SIZE,
        b.0.y == g.y * GRID_SIZE,
        b.1.x == (g.x + 1) * GRID_SIZE,
        b.1.y == (g.y + 1) * GRID_SIZE,
        cell_of(b.0) == g,
{
    let lower = Point { x: g.x * GRID_SIZE, y: g.y * GRID_SIZE };
    let upper = Point { x: (g.x + 1) * GRID_SIZE, y: (g.y + 1) * GRID_SIZE };
    (lower, upper)
}

/// The centre of a cell.
pub fn grid_center(g: Cell) -> (c: Point)
    requires
        cell_in_world(g),
    ensures
        c.x == center_coord(g.x as int),
        c.y == center_coord(g.y as int),
        cell_of(c) == g,
{
    let (lower, upper) = grid_bounds(g);
    lower.midpoint(upper)
}

/// One coordinate of `p` within its cell: `0 <= l < GRID_SIZE`.
fn local_coord(v: i32) -> (l: i32)
    ensures
        l == v as int % GRID_SIZE as int,
        0 <= l < GRID_SIZE,
{
    let q: i64 = floor_div(v) as i64;
    (v as i64 - q * 100) as i32
}

/// The neighbour of `g` on the side on which `l`, a coordinate within the
/// cell, lies: the next cell for the upper half, the previous for the rest.
pub open spec fn toward(g: int, l: int) -> int {
    if l > GRID_SIZE / 2 {
        g + 1
    } else {
        g - 1
    }
}

/// The cell of `p` and the three cells next to the quarter of that cell in
/// which `p` lies: the neighbour in x, the neighbour in y, and the diagonal
/// one.
pub open spec fn local_quad_spec(p: Point) -> Seq<Cell> {
    let g = cell_of(p);
    let nx = toward(g.x as int, p.x as int % GRID_SIZE as int) as i32;
    let ny = toward(g.y as int, p.y as int % GRID_SIZE as int) as i32;
    seq![g, Cell { x: nx, y: g.y }, Cell { x: g.x, y: ny }, Cell { x: nx, y: ny }]
}

/// The cell of `p` and its three neighbours on the side of `p`.
pub fn local_quad(p: Point) -> (quad: [Cell; 4])
    ensures
        quad@ == local_quad_spec(p),
{
    let g = to_grid(p);
    let nx: i32 = if local_coord(p.x) > GRID_SIZE / 2 {
        g.x + 1
    } else {
        g.x - 1
    };
    let ny: i32 = if local_coord(p.y) > GRID_SIZE / 2 {
        g.y + 1
    } else {
        g.y - 1
    };
    let quad = [g, Cell { x: nx, y: g.y }, Cell { x: g.x, y: ny }, Cell { x: nx, y: ny }];
    assert(quad@ =~= local_quad_spec(p));
    quad
}

/// Whether the centre of `g` is within half a cell diagonal plus `radius`
/// of `p`.
fn center_reaches(g: Cell, p: Point, radius: u32) -> (b: bool)
    ensures
        b == reaches(center_dist_sq(g, p), radius as int),
{
    let dx: i128 = (g.x as i128) * 100 + 50 - (p.x as i128);
    let dy: i128 = (g.y as i128) * 100 + 50 - (p.y as i128);
    assert(0 <= dx * dx <= 0x1_0000_0000_0000_0000_0000 && 0 <= dy * dy
        <= 0x1_0000_0000_0000_0000_0000) by (nonlinear_arith)
        requires
            -0x100_0000_0000 <= dx <= 0x100_0000_0000,
            -0x100_0000_0000 <= dy <= 0x100_0000_0000,
    ;
    let d: i128 = dx * dx + dy * dy;
    let r: i128 = radius as i128;
    assert(0 <= r * r <= 0xffff_ffff * 0xffff_ffff) by (nonlinear_arith)
        requires
            0 <= r <= 0xffff_ffff,
    ;
    let rr: i128 = r * r;
    let t: i128 = d - rr - 5000;
    if t <= 0 {
        true
    } else if t >= 0x100_0000_0000 {
        assert(t * t > 20000 * rr) by (nonlinear_arith)
            requires
                t >= 0x100_0000_0000,
                0 <= rr <= 0xffff_ffff * 0xffff_ffff,
        ;
        false
    } else {
        assert(0 <= t * t <= 0x100_0000_0000 * 0x100_0000_0000) by (nonlinear_arith)
            requires
                0 < t < 0x100_0000_0000,
        ;
        t * t <= 20000 * rr
    }
}

/// The cells that may hold a position within `radius` of `p`: every cell
/// whose centre lies within half a cell diagonal plus `radius` of `p`, and
/// no other. They come column by column, each column from the lowest row
/// up. The cell of every position within `radius` of `p` is among them.
pub fn grids_in_radius(p: Point, radius: u32) -> (cells: Vec<Cell>)
    ensures
        forall|c: Cell|
            #[trigger] cells@.contains(c) <==> reaches(center_dist_sq(c, p), radius as int),
        forall|i: int, j: int|
            0 <= i < j < cells@.len() ==> lex_before(#[trigger] cells@[i], #[trigger] cells@[j]),
        cells@.no_duplicates(),
        forall|v: Point|
            dist_sq(v, p) <= radius * radius ==> cells@.contains(#[trigger] cell_of(v)),
{
    let center = to_grid(p);
    let off: i64 = ((radius as u64 + 99) / 100) as i64 + WINDOW_MARGIN;
    let cx: i64 = center.x as i64;
    let cy: i64 = center.y as i64;
    let mut cells: Vec<Cell> = Vec::new();
    let mut xoff: i64 = -off;
    while xoff <= off
        invariant
            center == cell_of(p),
            off == reach_offset(radius as int) + WINDOW_MARGIN,
            0 <= off <= 42949675,
            cx == center.x,
            cy == center.y,
            -off <= xoff <= off + 1,
            forall|c: Cell| #[trigger]
                cells@.contains(c) <==> listed(c, p, radius as int) && in_window(
                    c,
                    p,
                    radius as int,
                ) && c.x < cx + xoff,
            forall|i: int, j: int|
                0 <= i < j < cells@.len() ==> lex_before(
                    #[trigger] cells@[i],
                    #[trigger] cells@[j],
                ),
        decreases off + 1 - xoff,
    {
        let mut yoff: i64 = -off;
        while yoff <= off
            invariant
                center == cell_of(p),
                off == reach_offset(radius as int) + WINDOW_MARGIN,
                0 <= off <= 42949675,
                cx == center.x,
                cy == center.y,
                -off <= xoff <= off,
                -off <= yoff <= off + 1,
                forall|c: Cell| #[trigger]
                    cells@.contains(c) <==> listed(c, p, radius as int) && in_window(
                        c,
                        p,
                        radius as int,
                    ) && (c.x < cx + xoff || (c.x == cx + xoff && c.y < cy + yoff)),
                forall|i: int, j: int|
                    0 <= i < j < cells@.len() ==> lex_before(
                        #[trigger] cells@[i],
                        #[trigger] cells@[j],
                    ),
            decreases off + 1 - yoff,
        {
            let g = Cell { x: (cx + xoff) as i32, y: (cy + yoff) as i32 };
            let ghost before = cells@;
            if center_reaches(g, p, radius) {
                cells.push(g);
                proof {
                    assert forall|c: Cell| #[trigger]
                        cells@.contains(c) <==> (before.contains(c) || c == g) by {
                        if before.contains(c) {
                            let k = choose|k: int| 0 <= k < before.len() && before[k] == c;
                            assert(cells@[k] == c);
                        }
                        if c == g {
                            assert(cells@[before.len() as int] == g);
                        }
                    }
                    assert forall|i: int, j: int| 0 <= i < j < cells@.len() implies lex_before(
                        #[trigger] cells@[i],
                        #[trigger] cells@[j],
                    ) by {
                        if j == before.len() {
                            assert(before.contains(before[i]));
                        }
                    }
                }
            }
            yoff += 1;
        }
        xoff += 1;
    }
    proof {
        assert forall|i: int, j: int| 0 <= i < cells@.len() && 0 <= j < cells@.len() && i
            != j implies cells@[i] != cells@[j] by {
            if i < j {
                assert(lex_before(cells@[i], cells@[j]));
            } else {
                assert(lex_before(cells@[j], cells@[i]));
            }
        }
        assert forall|c: Cell|
            #[trigger] cells@.contains(c) <==> reaches(center_dist_sq(c, p), radius as int) by {
            if listed(c, p, radius as int) {
                lemma_listed_in_window(c, p, radius);
            }
        }
        assert forall|v: Point| dist_sq(v, p) <= radius * radius implies cells@.contains(
            #[trigger] cell_of(v),
        ) by {
            lemma_query_covers_disc(p, radius, v);
        }
    }
    cells
}

/// A coordinate difference of more than `radius + 71` puts a squared
/// distance out of reach: half a cell diagonal is less than 71.
proof fn lemma_far_is_out_of_reach(dx: int, dy: int, r: int)
    requires
        r >= 0,
        dx > r + 71 || dx < -(r + 71),
    ensures
        !reaches(dx * dx + dy * dy, r),
{
    let rr = r * r;
    assert(dx * dx >= (r + 72) * (r + 72)) by (nonlinear_arith)
        requires
            r >= 0,
            dx >= r + 72 || dx <= -(r + 72),
    ;
    assert((r + 72) * (r + 72) == rr + 144 * r + 5184) by (nonlinear_arith)
        requires
            rr == r * r,
    ;
    assert(dy * dy >= 0) by (nonlinear_arith);
    let t = dx * dx + dy * dy - rr - HALF_DIAGONAL_SQ;
    assert(t >= 144 * r + 184);
    let tt = t * t;
    assert(tt >= (144 * r + 184) * (144 * r + 184)) by (nonlinear_arith)
        requires
            t >= 144 * r + 184,
            r >= 0,
            tt == t * t,
    ;
    assert((144 * r + 184) * (144 * r + 184) == 20736 * rr + 52992 * r + 33856) by (nonlinear_arith)
        requires
            rr == r * r,
    ;
    assert(rr >= 0) by (nonlinear_arith)
        requires
            rr == r * r,
    ;
    assert(tt > 20000 * rr);
    assert(!(tt <= 4 * HALF_DIAGONAL_SQ * rr)) by (nonlinear_arith)
        requires
            tt > 20000 * rr,
            HALF_DIAGONAL_SQ == 5000,
    ;
}

/// Every cell that a query lists lies in the window that the query looks
/// through.
pub proof fn lemma_listed_in_window(c: Cell, p: Point, radius: u32)
    requires
        listed(c, p, radius as int),
    ensures
        in_window(c, p, radius as int),
{
    let r = radius as int;
    let g = cell_of(p);
    let dx = center_coord(c.x as int) - p.x;
    let dy = center_coord(c.y as int) - p.y;
    if dx > r + 71 || dx < -(r + 71) {
        lemma_far_is_out_of_reach(dx, dy, r);
    }
    if dy > r + 71 || dy < -(r + 71) {
        lemma_far_is_out_of_reach(dy, dx, r);
    }
    assert(-(r + 71) <= dx <= r + 71);
    assert(-(r + 71) <= dy <= r + 71);
    let off = reach_offset(r);
    assert(100 * off >= r);
    assert(0 <= p.x - 100 * g.x < 100);
    assert(0 <= p.y - 100 * g.y < 100);
    assert(dx == 100 * (c.x - g.x) + 50 - (p.x - 100 * g.x));
    assert(dy == 100 * (c.y - g.y) + 50 - (p.y - 100 * g.y));
}

/// The product of two sums of two squares bounds the square of the inner
/// product.
proof fn lemma_inner_product_bound(ax: int, ay: int, bx: int, by: int)
    ensures
        (ax * bx + ay * by) * (ax * bx + ay * by) <= (ax * ax + ay * ay) * (bx * bx + by * by),
{
    let pxx = ax * bx;
    let pyy = ay * by;
    let pxy = ax * by;
    let pyx = ay * bx;
    assert(pxx * pyy == pxy * pyx) by (nonlinear_arith)
        requires
            pxx == ax * bx,
            pyy == ay * by,
            pxy == ax * by,
            pyx == ay * bx,
    ;
    assert(pxx * pxx == (ax * ax) * (bx * bx)) by (nonlinear_arith)
        requires
            pxx == ax * bx,
    ;
    assert(pyy * pyy == (ay * ay) * (by * by)) by (nonlinear_arith)
        requires
            pyy == ay * by,
    ;
    assert(pxy * pxy == (ax * ax) * (by * by)) by (nonlinear_arith)
        requires
            pxy == ax * by,
    ;
    assert(pyx * pyx == (ay * ay) * (bx * bx)) by (nonlinear_arith)
        requires
            pyx == ay * bx,
    ;
    let sa = ax * ax;
    let ta = ay * ay;
    let sb = bx * bx;
    let tb = by * by;
    assert((sa + ta) * (sb + tb) == sa * sb + sa * tb + ta * sb + ta * tb) by (nonlinear_arith);
    assert((pxx + pyy) * (pxx + pyy) == pxx * pxx + 2 * (pxx * pyy) + pyy * pyy) by (nonlinear_arith);
    assert((pxy - pyx) * (pxy - pyx) == pxy * pxy - 2 * (pxy * pyx) + pyx * pyx) by (nonlinear_arith);
    assert((pxy - pyx) * (pxy - pyx) >= 0) by (nonlinear_arith);
}

/// A query never misses: the cell of every position within `radius` of `p`
/// is among the cells that the query around `p` lists.
pub proof fn lemma_query_covers_disc(p: Point, radius: u32, v: Point)
    requires
        dist_sq(v, p) <= radius * radius,
    ensures
        listed(cell_of(v), p, radius as int),
{
    let r = radius as int;
    let c = cell_of(v);
    let ax = center_coord(c.x as int) - v.x;
    let ay = center_coord(c.y as int) - v.y;
    let bx = v.x - p.x;
    let by = v.y - p.y;
    assert(-50 < ax <= 50 && -50 < ay <= 50);
    assert(ax * ax <= 2500 && ay * ay <= 2500) by (nonlinear_arith)
        requires
            -50 < ax <= 50,
            -50 < ay <= 50,
    ;
    assert(ax * ax >= 0 && ay * ay >= 0) by (nonlinear_arith);
    let aa = ax * ax + ay * ay;
    let bb = bx * bx + by * by;
    let ab = ax * bx + ay * by;
    assert(bb == dist_sq(v, p));
    assert(bx * bx >= 0 && by * by >= 0) by (nonlinear_arith);
    assert(-r <= bx <= r && -r <= by <= r) by (nonlinear_arith)
        requires
            bx * bx <= r * r,
            by * by <= r * r,
            r >= 0,
    ;
    let d = center_dist_sq(c, p);
    assert(d == (ax + bx) * (ax + bx) + (ay + by) * (ay + by));
    assert(d == aa + bb + 2 * ab) by (nonlinear_arith)
        requires
            d == (ax + bx) * (ax + bx) + (ay + by) * (ay + by),
            aa == ax * ax + ay * ay,
            bb == bx * bx + by * by,
            ab == ax * bx + ay * by,
    ;
    let t = d - r * r - 5000;
    assert(t <= 2 * ab);
    if t > 0 {
        lemma_inner_product_bound(ax, ay, bx, by);
        assert(ab * ab <= aa * bb);
        assert(aa * bb <= 5000 * (r * r)) by (nonlinear_arith)
            requires
                0 <= aa <= 5000,
                0 <= bb <= r * r,
        ;
        assert(t * t <= 4 * (ab * ab)) by (nonlinear_arith)
            requires
                0 < t <= 2 * ab,
        ;
        let rr = r * r;
        let ab2 = ab * ab;
        let tt = t * t;
        assert(tt <= 4 * ab2);
        assert(ab2 <= 5000 * rr);
        assert(tt <= 20000 * rr);
        assert(tt <= 4 * HALF_DIAGONAL_SQ * rr) by (nonlinear_arith)
            requires
                tt <= 20000 * rr,
                HALF_DIAGONAL_SQ == 5000,
        ;
    }
}

/// What a bucket map holds for cell `g`: nothing if the cell has no bucket.
pub open spec fn bucket_at<T>(buckets: Map<Cell, Vec<T>>, g: Cell) -> Set<T> {
    if buckets.dom().contains(g) {
        buckets[g]@.to_set()
    } else {
        Set::empty()
    }
}

/// Every bucket holds something and nothing twice.
pub open spec fn buckets_wf<T>(buckets: Map<Cell, Vec<T>>) -> bool {
    forall|g: Cell| #[trigger]
        buckets.dom().contains(g) ==> buckets[g]@.len() > 0 && buckets[g]@.no_duplicates()
}

/// Whether `val` is in `bucket`.
fn bucket_has<T: Key + Copy>(bucket: &Vec<T>, val: &T) -> (found: bool)
    ensures
        found == bucket@.contains(*val),
{
    let mut i: usize = 0;
    while i < bucket.len()
        invariant
            i <= bucket.len(),
            forall|j: int| 0 <= j < i ==> bucket@[j] != *val,
        decreases bucket.len() - i,
    {
        if bucket[i].same(val) {
            return true;
        }
        i += 1;
    }
    false
}

/// Puts `val` into the bucket of cell `key`, which is made if there is none.
fn put_in_bucket<T: Key + Copy>(map: &mut VecMap<Cell, Vec<T>>, key: Cell, val: T)
    requires
        old(map).wf(),
        buckets_wf(old(map).map()),
    ensures
        final(map).wf(),
        buckets_wf(final(map).map()),
        final(map).map().dom() == old(map).map().dom().insert(key),
        forall|g: Cell|
            #[trigger] bucket_at(final(map).map(), g) == if g == key {
                bucket_at(old(map).map(), g).insert(val)
            } else {
                bucket_at(old(map).map(), g)
            },
{
    let ghost before = map.map();
    match map.position(&key) {
        Some(i) => {
            proof {
                map.lemma_entries();
            }
            let mut bucket = map.swap_value(i, Vec::new());
            assert(bucket == before[key]);
            if !bucket_has(&bucket, &val) {
                proof {
                    lemma_push_fresh(bucket@, val);
                }
                bucket.push(val);
            } else {
                assert(bucket@.to_set().insert(val) =~= bucket@.to_set());
            }
            let _ = map.swap_value(i, bucket);
            proof {
                assert(map.map() =~= before.insert(key, bucket));
                assert(map.map().dom() =~= before.dom().insert(key));
                assert forall|g: Cell|
                    #[trigger] bucket_at(map.map(), g) == if g == key {
                        bucket_at(before, g).insert(val)
                    } else {
                        bucket_at(before, g)
                    } by {}
            }
        },
        None => {
            proof {
                map.lemma_entries();
            }
            let mut bucket: Vec<T> = Vec::new();
            bucket.push(val);
            proof {
                assert(bucket@ =~= seq![val]);
                assert(bucket@.to_set() =~= Set::<T>::empty().insert(val)) by {
                    assert forall|x: T| bucket@.to_set().contains(x) <==> x == val by {
                        if x == val {
                            assert(bucket@[0] == val);
                        }
                    }
                }
            }
            map.insert(key, bucket);
            proof {
                assert forall|g: Cell|
                    #[trigger] bucket_at(map.map(), g) == if g == key {
                        bucket_at(before, g).insert(val)
                    } else {
                        bucket_at(before, g)
                    } by {}
            }
        },
    }
}

/// The cells of a bucket map in the order in which they were first used.
fn occupied<T>(map: &VecMap<Cell, Vec<T>>) -> (cells: Vec<Cell>)
    requires
        map.wf(),
    ensures
        cells@ == map.keys(),
        cells@.no_duplicates(),
        cells@.to_set() == map.map().dom(),
{
    let mut cells: Vec<Cell> = Vec::new();
    let n = map.len();
    let mut i: usize = 0;
    while i < n
        invariant
            0 <= i <= n,
            n == map.keys().len(),
            cells@ == map.keys().take(i as int),
        decreases n - i,
    {
        cells.push(map.key_at(i));
        assert(map.keys().take(i + 1) =~= map.keys().take(i as int).push(map.keys()[i as int]));
        i += 1;
    }
    proof {
        assert(map.keys().take(n as int) =~= map.keys());
        map.lemma_entries();
    }
    cells
}

/// An index of vertex ids and of edges by grid cell: a vertex under the cell
/// of its position, an edge under the cell of the midpoint of its ends.
pub struct SpatialLookup {
    vertex_cells: VecMap<Cell, Vec<usize>>,
    edge_cells: VecMap<Cell, Vec<(usize, usize)>>,
}

impl SpatialLookup {
    /// The vertex ids that are indexed under cell `g`.
    pub closed spec fn vertices_at(&self, g: Cell) -> Set<usize> {
        bucket_at(self.vertex_cells.map(), g)
    }

    /// The edges that are indexed under cell `g`.
    pub closed spec fn edges_at(&self, g: Cell) -> Set<(usize, usize)> {
        bucket_at(self.edge_cells.map(), g)
    }

    /// The cells under which a vertex id is indexed.
    pub closed spec fn vertex_cells_used(&self) -> Set<Cell> {
        self.vertex_cells.map().dom()
    }

    /// The cells under which an edge is indexed.
    pub closed spec fn edge_cells_used(&self) -> Set<Cell> {
        self.edge_cells.map().dom()
    }

    /// No cell and no entry of a cell is held twice, and no cell is held
    /// without an entry.
    pub closed spec fn wf(&self) -> bool {
        &&& self.vertex_cells.wf()
        &&& self.edge_cells.wf()
        &&& buckets_wf(self.vertex_cells.map())
        &&& buckets_wf(self.edge_cells.map())
    }

    /// A cell is in use if and only if something is indexed under it.
    pub proof fn lemma_used(&self, g: Cell)
        requires
            self.wf(),
        ensures
            self.vertex_cells_used().contains(g) <==> self.vertices_at(g).len() > 0,
            self.edge_cells_used().contains(g) <==> self.edges_at(g).len() > 0,
            self.vertices_at(g).finite(),
            self.edges_at(g).finite(),
    {
        if self.vertex_cells.map().dom().contains(g) {
            let b = self.vertex_cells.map()[g]@;
            b.unique_seq_to_set();
            vstd::seq_lib::seq_to_set_is_finite(b);
        }
        if self.edge_cells.map().dom().contains(g) {
            let b = self.edge_cells.map()[g]@;
            b.unique_seq_to_set();
            vstd::seq_lib::seq_to_set_is_finite(b);
        }
    }

    /// An index that holds nothing.
    pub fn new() -> (lut: SpatialLookup)
        ensures
            lut.wf(),
            forall|g: Cell| #[trigger] lut.vertices_at(g) == Set::<usize>::empty(),
            forall|g: Cell| #[trigger] lut.edges_at(g) == Set::<(usize, usize)>::empty(),
            lut.vertex_cells_used() == Set::<Cell>::empty(),
            lut.edge_cells_used() == Set::<Cell>::empty(),
    {
        SpatialLookup { vertex_cells: VecMap::new(), edge_cells: VecMap::new() }
    }

    /// Empties the index.
    pub fn clear(&mut self)
        ensures
            final(self).wf(),
            forall|g: Cell| #[trigger] final(self).vertices_at(g) == Set::<usize>::empty(),
            forall|g: Cell| #[trigger] final(self).edges_at(g) == Set::<(usize, usize)>::empty(),
            final(self).vertex_cells_used() == Set::<Cell>::empty(),
            final(self).edge_cells_used() == Set::<Cell>::empty(),
    {
        self.vertex_cells.clear();
        self.edge_cells.clear();
    }

    /// The cells under which a vertex id is indexed.
    pub fn occupied_vertex(&self) -> (cells: Vec<Cell>)
        requires
            self.wf(),
        ensures
            cells@.no_duplicates(),
            cells@.to_set() == self.vertex_cells_used(),
    {
        occupied(&self.vertex_cells)
    }

    /// The cells under which an edge is indexed.
    pub fn occupied_edge(&self) -> (cells: Vec<Cell>)
        requires
            self.wf(),
        ensures
            cells@.no_duplicates(),
            cells@.to_set() == self.edge_cells_used(),
    {
        occupied(&self.edge_cells)
    }

    /// The vertex ids that are indexed under cell `g`, if there are any.
    pub fn lup_vertex(&self, g: Cell) -> (ids: Option<&Vec<usize>>)
        requires
            self.wf(),
        ensures
            match ids {
                Some(ids) => ids@.to_set() == self.vertices_at(g) && ids@.no_duplicates()
                    && ids@.len() > 0,
                None => self.vertices_at(g) == Set::<usize>::empty(),
            },
            ids.is_some() == self.vertex_cells_used().contains(g),
    {
        self.vertex_cells.get(&g)
    }

    /// The edges that are indexed under cell `g`, if there are any.
    pub fn lup_edge(&self, g: Cell) -> (edges: Option<&Vec<(usize, usize)>>)
        requires
            self.wf(),
        ensures
            match edges {
                Some(edges) => edges@.to_set() == self.edges_at(g) && edges@.no_duplicates()
                    && edges@.len() > 0,
                None => self.edges_at(g) == Set::<(usize, usize)>::empty(),
            },
            edges.is_some() == self.edge_cells_used().contains(g),
    {
        self.edge_cells.get(&g)
    }

    /// Indexes vertex `id`, which lies at `p`.
    pub fn update_vertex(&mut self, id: usize, p: Point)
        requires
            old(self).wf(),
        ensures
            final(self).wf(),
            forall|g: Cell|
                #[trigger] final(self).vertices_at(g) == if g == cell_of(p) {
                    old(self).vertices_at(g).insert(id)
                } else {
                    old(self).vertices_at(g)
                },
            forall|g: Cell| #[trigger] final(self).edges_at(g) == old(self).edges_at(g),
            final(self).vertex_cells_used() == old(self).vertex_cells_used().insert(cell_of(p)),
            final(self).edge_cells_used() == old(self).edge_cells_used(),
    {
        let g = to_grid(p);
        put_in_bucket(&mut self.vertex_cells, g, id);
    }

    /// Indexes the edge between the vertices `u` and `v`, each given with
    /// its position, under the cell of their midpoint.
    pub fn update_edge(&mut self, u: (usize, Point), v: (usize, Point))
        requires
            old(self).wf(),
        ensures
            final(self).wf(),
            forall|g: Cell|
                #[trigger] final(self).edges_at(g) == if g == cell_of(midpoint_spec(u.1, v.1)) {
                    old(self).edges_at(g).insert((u.0, v.0))
                } else {
                    old(self).edges_at(g)
                },
            forall|g: Cell| #[trigger] final(self).vertices_at(g) == old(self).vertices_at(g),
            final(self).edge_cells_used() == old(self).edge_cells_used().insert(
                cell_of(midpoint_spec(u.1, v.1)),
            ),
            final(self).vertex_cells_used() == old(self).vertex_cells_used(),
    {
        let center = u.1.midpoint(v.1);
        let g = to_grid(center);
        put_in_bucket(&mut self.edge_cells, g, (u.0, v.0));
    }
}

impl SpatialLookup {
    /// The index holds what `puzzle` holds: each stored vertex under the
    /// cell of its position and nowhere else, and each solution edge whose
    /// two ends are stored under the cell of the midpoint of its ends and
    /// nowhere else.
    pub open spec fn indexes(&self, puzzle: &Puzzle) -> bool {
        &&& forall|g: Cell, id: usize| #[trigger]
            self.vertices_at(g).contains(id) <==> vertex_cell(puzzle, id) == Some(g)
        &&& forall|g: Cell, e: (usize, usize)| #[trigger]
            self.edges_at(g).contains(e) <==> edge_cell(puzzle, e) == Some(g)
    }

    /// Empties the index and fills it from `puzzle`.
    pub fn rebuild(&mut self, puzzle: &Puzzle)
        requires
            puzzle.wf(),
        ensures
            final(self).wf(),
            final(self).indexes(puzzle),
    {
        self.clear();
        let vertices = puzzle.vertices();
        let ghost ids = puzzle.vertex_ids();
        proof {
            puzzle.lemma_wf();
        }
        let mut i: usize = 0;
        while i < vertices.len()
            invariant
                0 <= i <= vertices@.len(),
                self.wf(),
                puzzle.wf(),
                ids == puzzle.vertex_ids(),
                ids.to_set() == puzzle.vertex_map().dom(),
                vertices@.len() == ids.len(),
                forall|j: int|
                    0 <= j < vertices@.len() ==> (#[trigger] vertices@[j]).0 == ids[j]
                        && vertices@[j].1 == puzzle.vertex_map()[ids[j]],
                forall|g: Cell, id: usize| #[trigger]
                    self.vertices_at(g).contains(id) <==> vertex_cell(puzzle, id) == Some(g)
                        && occurs_before(ids, id, i as int),
                forall|g: Cell| #[trigger] self.edges_at(g) == Set::<(usize, usize)>::empty(),
            decreases vertices@.len() - i,
        {
            let (id, vertex) = vertices[i];
            let ghost before = *self;
            proof {
                assert(ids.contains(ids[i as int]));
                assert(vertex_cell(puzzle, id) == Some(cell_of(vertex.pos)));
            }
            self.update_vertex(id, vertex.pos);
            proof {
                assert forall|g: Cell, x: usize| #[trigger]
                    self.vertices_at(g).contains(x) <==> vertex_cell(puzzle, x) == Some(g)
                        && occurs_before(ids, x, i + 1) by {
                    lemma_occurs_before(ids, x, i as int);
                    assert(before.vertices_at(g).contains(x) <==> vertex_cell(puzzle, x) == Some(g)
                        && occurs_before(ids, x, i as int));
                }
            }
            i += 1;
        }
        proof {
            assert forall|g: Cell, x: usize| #[trigger]
                self.vertices_at(g).contains(x) <==> vertex_cell(puzzle, x) == Some(g) by {
                lemma_occurs_before(ids, x, i as int);
            }
        }
        let pairs = puzzle.solution_pairs();
        let ghost order = puzzle.solution_order();
        let mut j: usize = 0;
        while j < pairs.len()
            invariant
                0 <= j <= pairs@.len(),
                self.wf(),
                puzzle.wf(),
                pairs@ == order,
                order == puzzle.solution_order(),
                order.to_set() == puzzle.solution(),
                forall|g: Cell, id: usize| #[trigger]
                    self.vertices_at(g).contains(id) <==> vertex_cell(puzzle, id) == Some(g),
                forall|g: Cell, e: (usize, usize)| #[trigger]
                    self.edges_at(g).contains(e) <==> edge_cell(puzzle, e) == Some(g)
                        && occurs_before(order, e, j as int),
            decreases pairs@.len() - j,
        {
            let e = pairs[j];
            let ghost before = *self;
            proof {
                assert(order.contains(order[j as int]));
                assert(puzzle.solution().contains(e));
            }
            match puzzle.vertex_n(e.0) {
                Some(u) => {
                    match puzzle.vertex_n(e.1) {
                        Some(v) => {
                            self.update_edge((e.0, u.pos), (e.1, v.pos));
                            assert(edge_cell(puzzle, e) == Some(
                                cell_of(midpoint_spec(u.pos, v.pos)),
                            ));
                        },
                        None => {
                            assert(edge_cell(puzzle, e).is_none());
                        },
                    }
                },
                None => {
                    assert(edge_cell(puzzle, e).is_none());
                },
            }
            proof {
                assert forall|g: Cell, x: (usize, usize)| #[trigger]
                    self.edges_at(g).contains(x) <==> edge_cell(puzzle, x) == Some(g)
                        && occurs_before(order, x, j + 1) by {
                    lemma_occurs_before(order, x, j as int);
                    assert(before.edges_at(g).contains(x) <==> edge_cell(puzzle, x) == Some(g)
                        && occurs_before(order, x, j as int));
                }
                assert forall|g: Cell, id: usize| #[trigger]
                    self.vertices_at(g).contains(id) <==> vertex_cell(puzzle, id) == Some(g) by {
                    assert(self.vertices_at(g) == before.vertices_at(g));
                }
            }
            j += 1;
        }
        proof {
            assert forall|g: Cell, x: (usize, usize)| #[trigger]
                self.edges_at(g).contains(x) <==> edge_cell(puzzle, x) == Some(g) by {
                lemma_occurs_before(order, x, j as int);
            }
        }
    }
}

/// The cell of the position of vertex `id`, if it is stored.
pub open spec fn vertex_cell(puzzle: &Puzzle, id: usize) -> Option<Cell> {
    if puzzle.vertex_map().dom().contains(id) {
        Some(cell_of(puzzle.vertex_map()[id].pos))
    } else {
        None
    }
}

/// The midpoint of the ends of the solution edge `e`, if both are stored.
pub open spec fn edge_midpoint(puzzle: &Puzzle, e: (usize, usize)) -> Option<Point> {
    if puzzle.solution().contains(e) && puzzle.vertex_map().dom().contains(e.0)
        && puzzle.vertex_map().dom().contains(e.1) {
        Some(midpoint_spec(puzzle.vertex_map()[e.0].pos, puzzle.vertex_map()[e.1].pos))
    } else {
        None
    }
}

/// The cell of the midpoint of the solution edge `e`, if both its ends are
/// stored.
pub open spec fn edge_cell(puzzle: &Puzzle, e: (usize, usize)) -> Option<Cell> {
    match edge_midpoint(puzzle, e) {
        Some(m) => Some(cell_of(m)),
        None => None,
    }
}

impl Default for SpatialLookup {
    fn default() -> (lut: SpatialLookup)
        ensures
            lut.wf(),
            forall|g: Cell| #[trigger] lut.vertices_at(g) == Set::<usize>::empty(),
            forall|g: Cell| #[trigger] lut.edges_at(g) == Set::<(usize, usize)>::empty(),
    {
        SpatialLookup::new()
    }
}

} // verus!
