//! Whether the ink of two closed polylines meets.
//!
//! A glyph's outline is flattened into closed polylines before it gets
//! here. Two polylines meet where an edge of one crosses an edge of the
//! other; the edge from the last point back to the first counts.

use crate::geometry::Point;
use itertools::Itertools;
use vstd::prelude::*;

verus! {

/// Largest absolute coordinate that the crossing test accepts.
pub const PLACED_LIMIT: i64 = 0x100_0000_0000;

/// How many times the horizontal scale the flattening tolerance is.
pub const FLATTENING_FACTOR: i64 = 10;

/// The tolerance at which outlines are to be flattened for the crossing
/// test, in font units: ten times the horizontal scale.
pub fn flattening_tolerance(x_scale: i32) -> (tolerance: i64)
    ensures
        tolerance == FLATTENING_FACTOR * x_scale,
{
    FLATTENING_FACTOR * (x_scale as i64)
}

/// A closed polyline: its corners in order. The edge from the last
/// corner back to the first is understood.
#[derive(Clone, Debug, PartialEq, Eq)]
pub struct Polyline {
    pub points: Vec<Point>,
}

/// Every point lies in `-limit ..= limit`.
pub open spec fn points_within(points: Seq<Point>, limit: int) -> bool {
    forall|i: int| 0 <= i < points.len() ==> (#[trigger] points[i]).within(limit)
}

/// The points moved by `(dx, dy)`.
pub open spec fn points_moved(points: Seq<Point>, dx: int, dy: int) -> Seq<Point> {
    Seq::new(points.len(), |i: int| points[i].moved(dx, dy))
}

/// `num / den` lies between 0 and 1, both included, for a `den` other
/// than zero.
pub open spec fn in_unit_interval(num: int, den: int) -> bool {
    if den > 0 {
        0 <= num <= den
    } else {
        den <= num <= 0
    }
}

/// The determinant of the directions of the edges `a0 a1` and `b0 b1`.
/// It is zero exactly where the edges are parallel.
pub open spec fn crossing_det(a0: Point, a1: Point, b0: Point, b1: Point) -> int {
    (b1.x - b0.x) * (a1.y - a0.y) - (b1.y - b0.y) * (a1.x - a0.x)
}

/// Where the lines through the two edges meet, measured along `a0 a1`
/// and multiplied by the determinant.
pub open spec fn crossing_on_first(a0: Point, a1: Point, b0: Point, b1: Point) -> int {
    (b1.x - b0.x) * (b0.y - a0.y) - (b1.y - b0.y) * (b0.x - a0.x)
}

/// Where the lines through the two edges meet, measured along `b0 b1`
/// and multiplied by the determinant.
pub open spec fn crossing_on_second(a0: Point, a1: Point, b0: Point, b1: Point) -> int {
    (a0.x - b0.x) * (a1.y - a0.y) - (a0.y - b0.y) * (a1.x - a0.x)
}

/// The edges `a0 a1` and `b0 b1` cross: they are not parallel, and the
/// point where their lines meet lies on both. Parallel edges never
/// cross, even where they overlap.
pub open spec fn edges_cross(a0: Point, a1: Point, b0: Point, b1: Point) -> bool {
    let det = crossing_det(a0, a1, b0, b1);
    &&& det != 0
    &&& in_unit_interval(crossing_on_first(a0, a1, b0, b1), det)
    &&& in_unit_interval(crossing_on_second(a0, a1, b0, b1), det)
}

/// The product of two numbers of at most 42 bits.
fn wide_product(a: i64, b: i64) -> (p: i128)
    requires
        -0x200_0000_0000 <= a <= 0x200_0000_0000,
        -0x200_0000_0000 <= b <= 0x200_0000_0000,
    ensures
        p == a * b,
        -0x4_0000_0000_0000_0000_0000 <= p <= 0x4_0000_0000_0000_0000_0000,
{
    assert(-0x4_0000_0000_0000_0000_0000 <= a * b <= 0x4_0000_0000_0000_0000_0000)
        by (nonlinear_arith)
        requires
            -0x200_0000_0000 <= a <= 0x200_0000_0000,
            -0x200_0000_0000 <= b <= 0x200_0000_0000,
    ;
    (a as i128) * (b as i128)
}

/// Tells whether `num / den` lies between 0 and 1.
fn within_unit(num: i128, den: i128) -> (ok: bool)
    ensures
        ok == in_unit_interval(num as int, den as int),
{
    if den > 0 {
        0 <= num && num <= den
    } else {
        den <= num && num <= 0
    }
}

/// Tells whether the edge from `a0` to `a1` crosses the edge from `b0`
/// to `b1`.
pub fn segments_cross(a0: &Point, a1: &Point, b0: &Point, b1: &Point) -> (crossing: bool)
    requires
        a0.within(PLACED_LIMIT as int),
        a1.within(PLACED_LIMIT as int),
        b0.within(PLACED_LIMIT as int),
        b1.within(PLACED_LIMIT as int),
    ensures
        crossing == edges_cross(*a0, *a1, *b0, *b1),
{
    let dx: i64 = b1.x - b0.x;
    let dy: i64 = b1.y - b0.y;
    let ex: i64 = a1.x - a0.x;
    let ey: i64 = a1.y - a0.y;
    let det: i128 = wide_product(dx, ey) - wide_product(dy, ex);
    if det == 0 {
        return false;
    }
    let on_first: i128 = wide_product(dx, b0.y - a0.y) - wide_product(dy, b0.x - a0.x);
    if !within_unit(on_first, det) {
        return false;
    }
    let on_second: i128 = wide_product(a0.x - b0.x, ey) - wide_product(a0.y - b0.y, ex);
    within_unit(on_second, det)
}

/// The corner that follows corner `i` of a closed polyline of `len`
/// corners.
pub open spec fn next_corner(i: int, len: int) -> int {
    (i + 1) % len
}

/// Edge `i` of the closed polyline `p` crosses edge `j` of `q`.
pub open spec fn edge_pair_crosses(p: Seq<Point>, q: Seq<Point>, i: int, j: int) -> bool {
    edges_cross(p[i], p[next_corner(i, p.len() as int)], q[j], q[next_corner(j, q.len() as int)])
}

/// Some edge of the closed polyline `p` crosses some edge of `q`.
pub open spec fn polylines_cross(p: Seq<Point>, q: Seq<Point>) -> bool {
    exists|i: int, j: int|
        0 <= i < p.len() && 0 <= j < q.len() && #[trigger] edge_pair_crosses(p, q, i, j)
}

/// The edges of a closed polyline: each corner paired with the one that
/// follows it, the last with the first.
///
/// Calls `Itertools::circular_tuple_windows` on the corners. The contract
/// claims that it yields as many pairs as there are corners, and that
/// pair `i` holds corner `i` and corner `i + 1`, counted round the
/// polyline.
#[verifier::external_body]
fn closed_edges(points: &Vec<Point>) -> (edges: Vec<(Point, Point)>)
    ensures
        edges@.len() == points@.len(),
        forall|i: int|
            0 <= i < points@.len() ==> #[trigger] edges@[i] == (
                points@[i],
                points@[next_corner(i, points@.len() as int)],
            ),
{
    points.iter().copied().circular_tuple_windows().collect()
}

/// Tells whether some edge of one closed polyline crosses some edge of
/// the other.
pub fn intersects(p: &Polyline, q: &Polyline) -> (crossing: bool)
    requires
        points_within(p.points@, PLACED_LIMIT as int),
        points_within(q.points@, PLACED_LIMIT as int),
    ensures
        crossing == polylines_cross(p.points@, q.points@),
{
    let p_edges = closed_edges(&p.points);
    let q_edges = closed_edges(&q.points);
    let ghost ps = p.points@;
    let ghost qs = q.points@;
    let mut i: usize = 0;
    while i < p_edges.len()
        invariant
            ps == p.points@,
            qs == q.points@,
            points_within(ps, PLACED_LIMIT as int),
            points_within(qs, PLACED_LIMIT as int),
            p_edges@.len() == ps.len(),
            q_edges@.len() == qs.len(),
            forall|k: int|
                0 <= k < ps.len() ==> #[trigger] p_edges@[k] == (
                    ps[k],
                    ps[next_corner(k, ps.len() as int)],
                ),
            forall|k: int|
                0 <= k < qs.len() ==> #[trigger] q_edges@[k] == (
                    qs[k],
                    qs[next_corner(k, qs.len() as int)],
                ),
            i <= ps.len(),
            forall|i2: int, j2: int|
                0 <= i2 < i && 0 <= j2 < qs.len() ==> !#[trigger] edge_pair_crosses(ps, qs, i2, j2),
        decreases ps.len() - i,
    {
        let mut j: usize = 0;
        while j < q_edges.len()
            invariant
                ps == p.points@,
                qs == q.points@,
                points_within(ps, PLACED_LIMIT as int),
                points_within(qs, PLACED_LIMIT as int),
                p_edges@.len() == ps.len(),
                q_edges@.len() == qs.len(),
                forall|k: int|
                    0 <= k < ps.len() ==> #[trigger] p_edges@[k] == (
                        ps[k],
                        ps[next_corner(k, ps.len() as int)],
                    ),
                forall|k: int|
                    0 <= k < qs.len() ==> #[trigger] q_edges@[k] == (
                        qs[k],
                        qs[next_corner(k, qs.len() as int)],
                    ),
                i < ps.len(),
                j <= qs.len(),
                forall|i2: int, j2: int|
                    0 <= i2 < i && 0 <= j2 < qs.len() ==> !#[trigger] edge_pair_crosses(
                        ps,
                        qs,
                        i2,
                        j2,
                    ),
                forall|j2: int| 0 <= j2 < j ==> !#[trigger] edge_pair_crosses(ps, qs, i as int, j2),
            decreases qs.len() - j,
        {
            let a = p_edges[i];
            let b = q_edges[j];
            proof {
                let ni = next_corner(i as int, ps.len() as int);
                let nj = next_corner(j as int, qs.len() as int);
                assert(0 <= ni < ps.len());
                assert(0 <= nj < qs.len());
                assert(a == (ps[i as int], ps[ni]));
                assert(b == (qs[j as int], qs[nj]));
                assert(ps[i as int].within(PLACED_LIMIT as int));
                assert(ps[ni].within(PLACED_LIMIT as int));
                assert(qs[j as int].within(PLACED_LIMIT as int));
                assert(qs[nj].within(PLACED_LIMIT as int));
            }
            if segments_cross(&a.0, &a.1, &b.0, &b.1) {
                assert(edge_pair_crosses(ps, qs, i as int, j as int));
                return true;
            }
            j = j + 1;
        }
        i = i + 1;
    }
    false
}

} // verus!
