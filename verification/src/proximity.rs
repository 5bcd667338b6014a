//! How far apart two sets of outlines are.
//!
//! The measurement has two phases. A coarse phase looks at every pair of
//! segments, one from each side, and estimates their distance from three
//! sample points on each. The pair with the smallest estimate wins; among
//! equal estimates the pair met first wins. A fine phase then measures the
//! winning pair alone, by a rule that depends on the shapes of its two
//! segments. Distances between straight lines are computed here. Distances
//! that involve a curve need a numeric search, which the caller supplies.

use crate::geometry::{dist_sq, segments_within, Point, Segment, COORD_LIMIT};
use vstd::prelude::*;

verus! {

/// The smallest of three integers.
pub open spec fn min3(a: int, b: int, c: int) -> int {
    if a <= b && a <= c {
        a
    } else if b <= c {
        b
    } else {
        c
    }
}

/// Squared distance, in units of 1/64, between sample `i` of `a` and
/// sample `j` of `b`. Sample 0 is the start of a segment, 1 its middle
/// and 2 its end.
pub open spec fn sample_gap(a: Segment, i: int, b: Segment, j: int) -> int {
    dist_sq(a.sample_x8(i), a.sample_y8(i), b.sample_x8(j), b.sample_y8(j))
}

/// The smallest gap between sample `i` of `a` and the three samples of `b`.
pub open spec fn sample_row(a: Segment, i: int, b: Segment) -> int {
    min3(sample_gap(a, i, b, 0), sample_gap(a, i, b, 1), sample_gap(a, i, b, 2))
}

/// The coarse estimate for a pair of segments: the smallest of the nine
/// gaps between a sample of `a` and a sample of `b`.
pub open spec fn estimate(a: Segment, b: Segment) -> int {
    min3(sample_row(a, 0, b), sample_row(a, 1, b), sample_row(a, 2, b))
}

/// The estimate is one of the nine gaps and no larger than any of them.
pub proof fn lemma_estimate_is_least_gap(a: Segment, b: Segment)
    ensures
        forall|i: int, j: int|
            0 <= i <= 2 && 0 <= j <= 2 ==> estimate(a, b) <= #[trigger] sample_gap(a, i, b, j),
        exists|i: int, j: int|
            0 <= i <= 2 && 0 <= j <= 2 && estimate(a, b) == #[trigger] sample_gap(a, i, b, j),
        0 <= estimate(a, b),
{
    assert forall|i: int, j: int| 0 <= i <= 2 && 0 <= j <= 2 implies estimate(a, b)
        <= #[trigger] sample_gap(a, i, b, j) by {
        assert(sample_row(a, i, b) <= sample_gap(a, i, b, j));
    }
    let e = estimate(a, b);
    let i = if e == sample_row(a, 0, b) {
        0int
    } else if e == sample_row(a, 1, b) {
        1int
    } else {
        2int
    };
    let j = if e == sample_gap(a, i, b, 0) {
        0int
    } else if e == sample_gap(a, i, b, 1) {
        1int
    } else {
        2int
    };
    assert(e == sample_gap(a, i, b, j));
    lemma_dist_sq_nonnegative(
        a.sample_x8(i),
        a.sample_y8(i),
        b.sample_x8(j),
        b.sample_y8(j),
    );
}

/// A squared distance is never negative.
pub proof fn lemma_dist_sq_nonnegative(ax: int, ay: int, bx: int, by: int)
    ensures
        0 <= dist_sq(ax, ay, bx, by),
{
    assert(0 <= (ax - bx) * (ax - bx)) by (nonlinear_arith);
    assert(0 <= (ay - by) * (ay - by)) by (nonlinear_arith);
}

/// A squared distance does not depend on the order of its two points.
pub proof fn lemma_dist_sq_symmetric(ax: int, ay: int, bx: int, by: int)
    ensures
        dist_sq(ax, ay, bx, by) == dist_sq(bx, by, ax, ay),
{
    assert((ax - bx) * (ax - bx) == (bx - ax) * (bx - ax)) by (nonlinear_arith);
    assert((ay - by) * (ay - by) == (by - ay) * (by - ay)) by (nonlinear_arith);
}

/// The coarse estimate does not depend on the order of the two segments.
pub proof fn lemma_estimate_symmetric(a: Segment, b: Segment)
    ensures
        estimate(a, b) == estimate(b, a),
{
    assert forall|i: int, j: int| sample_gap(a, i, b, j) == sample_gap(b, j, a, i) by {
        lemma_dist_sq_symmetric(
            a.sample_x8(i),
            a.sample_y8(i),
            b.sample_x8(j),
            b.sample_y8(j),
        );
    }
    assert(sample_gap(a, 0, b, 0) == sample_gap(b, 0, a, 0));
    assert(sample_gap(a, 0, b, 1) == sample_gap(b, 1, a, 0));
    assert(sample_gap(a, 0, b, 2) == sample_gap(b, 2, a, 0));
    assert(sample_gap(a, 1, b, 0) == sample_gap(b, 0, a, 1));
    assert(sample_gap(a, 1, b, 1) == sample_gap(b, 1, a, 1));
    assert(sample_gap(a, 1, b, 2) == sample_gap(b, 2, a, 1));
    assert(sample_gap(a, 2, b, 0) == sample_gap(b, 0, a, 2));
    assert(sample_gap(a, 2, b, 1) == sample_gap(b, 1, a, 2));
    assert(sample_gap(a, 2, b, 2) == sample_gap(b, 2, a, 2));
}

/// Squared distance between two sample points, each given eightfold.
fn gap_between(p: (i64, i64), q: (i64, i64)) -> (g: u64)
    requires
        -8 * COORD_LIMIT <= p.0 <= 8 * COORD_LIMIT,
        -8 * COORD_LIMIT <= p.1 <= 8 * COORD_LIMIT,
        -8 * COORD_LIMIT <= q.0 <= 8 * COORD_LIMIT,
        -8 * COORD_LIMIT <= q.1 <= 8 * COORD_LIMIT,
    ensures
        g == dist_sq(p.0 as int, p.1 as int, q.0 as int, q.1 as int),
{
    let dx: i64 = p.0 - q.0;
    let dy: i64 = p.1 - q.1;
    assert(0 <= dx * dx <= 0x1000_0000_0000_0000) by (nonlinear_arith)
        requires
            -0x4000_0000 <= dx <= 0x4000_0000,
    ;
    assert(0 <= dy * dy <= 0x1000_0000_0000_0000) by (nonlinear_arith)
        requires
            -0x4000_0000 <= dy <= 0x4000_0000,
    ;
    (dx * dx + dy * dy) as u64
}

/// The smallest of three numbers.
fn least_of_three(a: u64, b: u64, c: u64) -> (m: u64)
    ensures
        m == min3(a as int, b as int, c as int),
{
    if a <= b && a <= c {
        a
    } else if b <= c {
        b
    } else {
        c
    }
}

/// The coarse estimate for a pair of segments: the smallest squared
/// distance, in units of 1/64, between the start, middle or end of one
/// and the start, middle or end of the other.
pub fn coarse_estimate(a: &Segment, b: &Segment) -> (e: u64)
    requires
        a.within(COORD_LIMIT as int),
        b.within(COORD_LIMIT as int),
    ensures
        e == estimate(*a, *b),
{
    let a0 = a.sample8(0);
    let a1 = a.sample8(1);
    let a2 = a.sample8(2);
    let b0 = b.sample8(0);
    let b1 = b.sample8(1);
    let b2 = b.sample8(2);
    let r0 = least_of_three(gap_between(a0, b0), gap_between(a0, b1), gap_between(a0, b2));
    let r1 = least_of_three(gap_between(a1, b0), gap_between(a1, b1), gap_between(a1, b2));
    let r2 = least_of_three(gap_between(a2, b0), gap_between(a2, b1), gap_between(a2, b2));
    least_of_three(r0, r1, r2)
}

/// Pair `(i, j)` is met no later than pair `(i2, j2)` when the left side
/// is walked in the outer loop and the right side in the inner one.
pub open spec fn met_no_later(i: int, j: int, i2: int, j2: int) -> bool {
    i < i2 || (i == i2 && j <= j2)
}

/// Pair `(i, j)` wins against pair `(i2, j2)`: its estimate is smaller, or
/// equal and met no later.
pub open spec fn wins_against(
    left: Seq<Segment>,
    right: Seq<Segment>,
    i: int,
    j: int,
    i2: int,
    j2: int,
) -> bool {
    let e = estimate(left[i], right[j]);
    let e2 = estimate(left[i2], right[j2]);
    e < e2 || (e == e2 && met_no_later(i, j, i2, j2))
}

/// Pair `(i, j)` is the winner of the coarse phase: it wins against every
/// pair of a left and a right segment.
pub open spec fn is_closest_pair(left: Seq<Segment>, right: Seq<Segment>, i: int, j: int) -> bool {
    &&& 0 <= i < left.len()
    &&& 0 <= j < right.len()
    &&& forall|i2: int, j2: int|
        0 <= i2 < left.len() && 0 <= j2 < right.len() ==> #[trigger] wins_against(
            left,
            right,
            i,
            j,
            i2,
            j2,
        )
}

/// The coarse phase has at most one winner.
pub proof fn lemma_closest_pair_unique(
    left: Seq<Segment>,
    right: Seq<Segment>,
    i: int,
    j: int,
    i2: int,
    j2: int,
)
    requires
        is_closest_pair(left, right, i, j),
        is_closest_pair(left, right, i2, j2),
    ensures
        i == i2,
        j == j2,
{
    assert(wins_against(left, right, i, j, i2, j2));
    assert(wins_against(left, right, i2, j2, i, j));
}

/// Among the first `n` right segments, some wins against all of them
/// for the left segment `i`.
proof fn lemma_row_winner(left: Seq<Segment>, right: Seq<Segment>, i: int, n: int) -> (j: int)
    requires
        0 <= i < left.len(),
        1 <= n <= right.len(),
    ensures
        0 <= j < n,
        forall|j2: int| 0 <= j2 < n ==> #[trigger] wins_against(left, right, i, j, i, j2),
    decreases n,
{
    if n == 1 {
        0
    } else {
        let j = lemma_row_winner(left, right, i, n - 1);
        if estimate(left[i], right[n - 1]) < estimate(left[i], right[j]) {
            assert forall|j2: int| 0 <= j2 < n implies #[trigger] wins_against(
                left,
                right,
                i,
                n - 1,
                i,
                j2,
            ) by {
                if j2 < n - 1 {
                    assert(wins_against(left, right, i, j, i, j2));
                }
            }
            n - 1
        } else {
            assert forall|j2: int| 0 <= j2 < n implies #[trigger] wins_against(
                left,
                right,
                i,
                j,
                i,
                j2,
            ) by {
                if j2 < n - 1 {
                    assert(wins_against(left, right, i, j, i, j2));
                }
            }
            j
        }
    }
}

/// Among the pairs of the first `m` left segments with any right
/// segment, some pair wins against all of them.
proof fn lemma_winner_upto(left: Seq<Segment>, right: Seq<Segment>, m: int) -> (pair: (int, int))
    requires
        1 <= m <= left.len(),
        1 <= right.len(),
    ensures
        0 <= pair.0 < m,
        0 <= pair.1 < right.len(),
        forall|i2: int, j2: int|
            0 <= i2 < m && 0 <= j2 < right.len() ==> #[trigger] wins_against(
                left,
                right,
                pair.0,
                pair.1,
                i2,
                j2,
            ),
    decreases m,
{
    let j = lemma_row_winner(left, right, m - 1, right.len() as int);
    if m == 1 {
        (0, j)
    } else {
        let before = lemma_winner_upto(left, right, m - 1);
        if estimate(left[m - 1], right[j]) < estimate(left[before.0], right[before.1]) {
            assert forall|i2: int, j2: int|
                0 <= i2 < m && 0 <= j2 < right.len() implies #[trigger] wins_against(
                left,
                right,
                m - 1,
                j,
                i2,
                j2,
            ) by {
                if i2 < m - 1 {
                    assert(wins_against(left, right, before.0, before.1, i2, j2));
                } else {
                    assert(wins_against(left, right, m - 1, j, m - 1, j2));
                }
            }
            (m - 1, j)
        } else {
            assert forall|i2: int, j2: int|
                0 <= i2 < m && 0 <= j2 < right.len() implies #[trigger] wins_against(
                left,
                right,
                before.0,
                before.1,
                i2,
                j2,
            ) by {
                if i2 < m - 1 {
                    assert(wins_against(left, right, before.0, before.1, i2, j2));
                } else {
                    assert(wins_against(left, right, m - 1, j, m - 1, j2));
                }
            }
            before
        }
    }
}

/// Where both sides have a segment, the coarse phase has a winner.
pub proof fn lemma_closest_pair_exists(left: Seq<Segment>, right: Seq<Segment>)
    requires
        left.len() > 0,
        right.len() > 0,
    ensures
        exists|pair: (int, int)| is_closest_pair(left, right, pair.0, pair.1),
{
    let pair = lemma_winner_upto(left, right, left.len() as int);
    assert(is_closest_pair(left, right, pair.0, pair.1));
}

/// Where no other pair has an estimate as small as that of the winner,
/// the winner stays the winner when the two sides change places.
pub proof fn lemma_single_winner_both_ways(
    left: Seq<Segment>,
    right: Seq<Segment>,
    i: int,
    j: int,
)
    requires
        0 <= i < left.len(),
        0 <= j < right.len(),
        forall|i2: int, j2: int|
            0 <= i2 < left.len() && 0 <= j2 < right.len() && (i2 != i || j2 != j) ==> estimate(
                left[i],
                right[j],
            ) < #[trigger] estimate(left[i2], right[j2]),
    ensures
        is_closest_pair(left, right, i, j),
        is_closest_pair(right, left, j, i),
{
    assert forall|i2: int, j2: int|
        0 <= i2 < left.len() && 0 <= j2 < right.len() implies #[trigger] wins_against(
        left,
        right,
        i,
        j,
        i2,
        j2,
    ) by {
        if i2 != i || j2 != j {
            assert(estimate(left[i], right[j]) < estimate(left[i2], right[j2]));
        }
    }
    assert forall|j2: int, i2: int|
        0 <= j2 < right.len() && 0 <= i2 < left.len() implies #[trigger] wins_against(
        right,
        left,
        j,
        i,
        j2,
        i2,
    ) by {
        lemma_estimate_symmetric(left[i], right[j]);
        lemma_estimate_symmetric(left[i2], right[j2]);
        if i2 != i || j2 != j {
            assert(estimate(left[i], right[j]) < estimate(left[i2], right[j2]));
        }
    }
}

/// The coarse phase: the pair of a left and a right segment with the
/// smallest estimate, the one met first among equals. There is none
/// exactly where one side has no segment.
pub fn closest_pair(left: &Vec<Segment>, right: &Vec<Segment>) -> (pair: Option<(usize, usize)>)
    requires
        segments_within(left@, COORD_LIMIT as int),
        segments_within(right@, COORD_LIMIT as int),
    ensures
        pair is None <==> (left@.len() == 0 || right@.len() == 0),
        pair matches Some((i, j)) ==> is_closest_pair(left@, right@, i as int, j as int),
{
    if left.len() == 0 || right.len() == 0 {
        return None;
    }
    let mut bi: usize = 0;
    let mut bj: usize = 0;
    let mut be: u64 = coarse_estimate(&left[0], &right[0]);
    let mut i: usize = 0;
    while i < left.len()
        invariant
            segments_within(left@, COORD_LIMIT as int),
            segments_within(right@, COORD_LIMIT as int),
            right@.len() > 0,
            i <= left@.len(),
            bi < left@.len(),
            bj < right@.len(),
            bi < i || (bi == 0 && bj == 0),
            be == estimate(left@[bi as int], right@[bj as int]),
            forall|i2: int, j2: int|
                0 <= i2 < i && 0 <= j2 < right@.len() ==> #[trigger] wins_against(
                    left@,
                    right@,
                    bi as int,
                    bj as int,
                    i2,
                    j2,
                ),
        decreases left@.len() - i,
    {
        let mut j: usize = 0;
        while j < right.len()
            invariant
                segments_within(left@, COORD_LIMIT as int),
                segments_within(right@, COORD_LIMIT as int),
                i < left@.len(),
                j <= right@.len(),
                bi < left@.len(),
                bj < right@.len(),
                bi < i || (bi == i && bj < j) || (bi == 0 && bj == 0),
                be == estimate(left@[bi as int], right@[bj as int]),
                forall|i2: int, j2: int|
                    0 <= i2 < i && 0 <= j2 < right@.len() ==> #[trigger] wins_against(
                        left@,
                        right@,
                        bi as int,
                        bj as int,
                        i2,
                        j2,
                    ),
                forall|j2: int|
                    0 <= j2 < j ==> #[trigger] wins_against(
                        left@,
                        right@,
                        bi as int,
                        bj as int,
                        i as int,
                        j2,
                    ),
            decreases right@.len() - j,
        {
            let e = coarse_estimate(&left[i], &right[j]);
            let ghost pi = bi as int;
            let ghost pj = bj as int;
            if e < be {
                bi = i;
                bj = j;
                be = e;
            }
            proof {
                assert forall|i2: int, j2: int|
                    0 <= i2 < i && 0 <= j2 < right@.len() implies #[trigger] wins_against(
                    left@,
                    right@,
                    bi as int,
                    bj as int,
                    i2,
                    j2,
                ) by {
                    assert(wins_against(left@, right@, pi, pj, i2, j2));
                }
                assert forall|j2: int| 0 <= j2 < j + 1 implies #[trigger] wins_against(
                    left@,
                    right@,
                    bi as int,
                    bj as int,
                    i as int,
                    j2,
                ) by {
                    if j2 < j {
                        assert(wins_against(left@, right@, pi, pj, i as int, j2));
                    }
                }
            }
            j = j + 1;
        }
        i = i + 1;
    }
    Some((bi, bj))
}

/// `r` is the integer part of the square root of `n`.
pub open spec fn is_integer_sqrt(n: int, r: int) -> bool {
    0 <= r && r * r <= n < (r + 1) * (r + 1)
}

/// The integer part of the square root of `n`.
pub open spec fn integer_sqrt_of(n: int) -> int {
    choose|r: int| is_integer_sqrt(n, r)
}

/// A number has at most one integer square root.
pub proof fn lemma_integer_sqrt_unique(n: int, r1: int, r2: int)
    requires
        is_integer_sqrt(n, r1),
        is_integer_sqrt(n, r2),
    ensures
        r1 == r2,
{
    if r1 < r2 {
        assert((r1 + 1) * (r1 + 1) <= r2 * r2) by (nonlinear_arith)
            requires
                0 <= r1 + 1 <= r2,
        ;
    }
    if r2 < r1 {
        assert((r2 + 1) * (r2 + 1) <= r1 * r1) by (nonlinear_arith)
            requires
                0 <= r2 + 1 <= r1,
        ;
    }
}

/// Every number that is not negative has an integer square root.
pub proof fn lemma_integer_sqrt_exists(n: int)
    requires
        0 <= n,
    ensures
        is_integer_sqrt(n, integer_sqrt_of(n)),
    decreases n,
{
    if n == 0 {
        assert(is_integer_sqrt(0, 0));
    } else {
        lemma_integer_sqrt_exists(n - 1);
        let r = integer_sqrt_of(n - 1);
        if (r + 1) * (r + 1) <= n {
            assert(n < (r + 2) * (r + 2)) by (nonlinear_arith)
                requires
                    n - 1 < (r + 1) * (r + 1),
                    0 <= r,
            ;
            assert(is_integer_sqrt(n, r + 1));
        } else {
            assert(is_integer_sqrt(n, r));
        }
    }
}

/// The integer part of the square root of `n`.
pub fn integer_sqrt(n: u128) -> (r: u64)
    requires
        n < 0x1_0000_0000_0000_0000_0000_0000_0000,
    ensures
        is_integer_sqrt(n as int, r as int),
        r == integer_sqrt_of(n as int),
{
    let mut lo: u128 = 0;
    let mut hi: u128 = 0x100_0000_0000_0000;
    while hi - lo > 1
        invariant
            lo < hi <= 0x100_0000_0000_0000,
            lo * lo <= n < hi * hi,
        decreases hi - lo,
    {
        let mid: u128 = lo + (hi - lo) / 2;
        assert(mid * mid < 0x1_0000_0000_0000_0000_0000_0000_0000) by (nonlinear_arith)
            requires
                0 <= mid < 0x100_0000_0000_0000,
        ;
        if mid * mid <= n {
            lo = mid;
        } else {
            hi = mid;
        }
    }
    proof {
        assert(hi == lo + 1);
        assert(is_integer_sqrt(n as int, lo as int));
        lemma_integer_sqrt_unique(n as int, lo as int, integer_sqrt_of(n as int));
    }
    lo as u64
}

/// The integer part of the squared distance from point `p` to the line
/// segment from `a` to `b`. The nearest point of the segment is `a` where
/// `p` projects before it, `b` where `p` projects behind it, and the foot
/// of the perpendicular otherwise.
pub open spec fn point_segment_gap_sq(p: Point, a: Point, b: Point) -> int {
    let dx = b.x - a.x;
    let dy = b.y - a.y;
    let wx = p.x - a.x;
    let wy = p.y - a.y;
    let along = wx * dx + wy * dy;
    let len2 = dx * dx + dy * dy;
    if along <= 0 {
        wx * wx + wy * wy
    } else if along >= len2 {
        dist_sq(p.x as int, p.y as int, b.x as int, b.y as int)
    } else {
        ((wx * dy - wy * dx) * (wx * dy - wy * dx)) / len2
    }
}

/// The smallest of four integers.
pub open spec fn min4(a: int, b: int, c: int, d: int) -> int {
    let ab = if a <= b {
        a
    } else {
        b
    };
    let cd = if c <= d {
        c
    } else {
        d
    };
    if ab <= cd {
        ab
    } else {
        cd
    }
}

/// The integer part of the squared distance between two line segments
/// that do not cross: the smallest of the four squared distances from an
/// end of one to the other.
pub open spec fn line_gap_sq(a0: Point, a1: Point, b0: Point, b1: Point) -> int {
    min4(
        point_segment_gap_sq(b0, a0, a1),
        point_segment_gap_sq(b1, a0, a1),
        point_segment_gap_sq(a0, b0, b1),
        point_segment_gap_sq(a1, b0, b1),
    )
}

/// The integer part of the distance between two line segments.
pub open spec fn line_gap(a0: Point, a1: Point, b0: Point, b1: Point) -> int {
    integer_sqrt_of(line_gap_sq(a0, a1, b0, b1))
}

/// The distance from a point to a line segment is never negative.
pub proof fn lemma_point_segment_gap_nonnegative(p: Point, a: Point, b: Point)
    ensures
        0 <= point_segment_gap_sq(p, a, b),
{
    let dx = b.x - a.x;
    let dy = b.y - a.y;
    let wx = p.x - a.x;
    let wy = p.y - a.y;
    let along = wx * dx + wy * dy;
    let len2 = dx * dx + dy * dy;
    if along <= 0 {
        assert(0 <= wx * wx) by (nonlinear_arith);
        assert(0 <= wy * wy) by (nonlinear_arith);
    } else if along >= len2 {
        lemma_dist_sq_nonnegative(p.x as int, p.y as int, b.x as int, b.y as int);
    } else {
        let c = wx * dy - wy * dx;
        assert(0 <= c * c) by (nonlinear_arith);
        assert(0 <= (c * c) / len2) by (nonlinear_arith)
            requires
                0 <= c * c,
                len2 > 0,
        ;
    }
}

/// A point that is an end of a line segment has no distance from it.
pub proof fn lemma_end_touches_segment(p: Point, a: Point, b: Point)
    requires
        p == a || p == b,
    ensures
        point_segment_gap_sq(p, a, b) == 0,
{
    let dx = b.x - a.x;
    let dy = b.y - a.y;
    let wx = p.x - a.x;
    let wy = p.y - a.y;
    let along = wx * dx + wy * dy;
    let len2 = dx * dx + dy * dy;
    if p == a {
        assert(wx * dx == 0 && wy * dy == 0 && wx * wx == 0 && wy * wy == 0) by (nonlinear_arith)
            requires
                wx == 0,
                wy == 0,
        ;
    } else {
        assert(along == len2);
        assert(0 <= dx * dx) by (nonlinear_arith);
        assert(0 <= dy * dy) by (nonlinear_arith);
        if along <= 0 {
            assert(dx * dx == 0 && dy * dy == 0);
            assert(wx * wx + wy * wy == 0);
        } else {
            assert((p.x - b.x) * (p.x - b.x) == 0 && (p.y - b.y) * (p.y - b.y) == 0)
                by (nonlinear_arith)
                requires
                    p.x == b.x,
                    p.y == b.y,
            ;
        }
    }
}

/// Two line segments that share an end have no distance.
pub proof fn lemma_shared_end_has_no_gap(a0: Point, a1: Point, b0: Point, b1: Point)
    requires
        a0 == b0 || a0 == b1 || a1 == b0 || a1 == b1,
    ensures
        line_gap_sq(a0, a1, b0, b1) == 0,
        line_gap(a0, a1, b0, b1) == 0,
{
    lemma_point_segment_gap_nonnegative(b0, a0, a1);
    lemma_point_segment_gap_nonnegative(b1, a0, a1);
    lemma_point_segment_gap_nonnegative(a0, b0, b1);
    lemma_point_segment_gap_nonnegative(a1, b0, b1);
    if a0 == b0 || a1 == b0 {
        lemma_end_touches_segment(b0, a0, a1);
    } else {
        lemma_end_touches_segment(b1, a0, a1);
    }
    assert(is_integer_sqrt(0, 0));
    lemma_integer_sqrt_exists(0);
    lemma_integer_sqrt_unique(0, 0, integer_sqrt_of(0));
}

/// The distance between two line segments does not depend on their
/// order, and is never negative.
pub proof fn lemma_line_gap_symmetric(a0: Point, a1: Point, b0: Point, b1: Point)
    ensures
        line_gap_sq(a0, a1, b0, b1) == line_gap_sq(b0, b1, a0, a1),
        line_gap(a0, a1, b0, b1) == line_gap(b0, b1, a0, a1),
        0 <= line_gap_sq(a0, a1, b0, b1),
        0 <= line_gap(a0, a1, b0, b1),
{
    lemma_point_segment_gap_nonnegative(b0, a0, a1);
    lemma_point_segment_gap_nonnegative(b1, a0, a1);
    lemma_point_segment_gap_nonnegative(a0, b0, b1);
    lemma_point_segment_gap_nonnegative(a1, b0, b1);
    lemma_integer_sqrt_exists(line_gap_sq(a0, a1, b0, b1));
}

/// The product of two numbers of at most 28 bits.
fn small_product(a: i64, b: i64) -> (p: i128)
    requires
        -0x800_0000 <= a <= 0x800_0000,
        -0x800_0000 <= b <= 0x800_0000,
    ensures
        p == a * b,
        -0x40_0000_0000_0000 <= p <= 0x40_0000_0000_0000,
{
    assert(-0x40_0000_0000_0000 <= a * b <= 0x40_0000_0000_0000) by (nonlinear_arith)
        requires
            -0x800_0000 <= a <= 0x800_0000,
            -0x800_0000 <= b <= 0x800_0000,
    ;
    (a as i128) * (b as i128)
}

/// The integer part of the squared distance from point `p` to the line
/// segment from `a` to `b`.
pub fn point_segment_distance_sq(p: &Point, a: &Point, b: &Point) -> (g: u128)
    requires
        p.within(COORD_LIMIT as int),
        a.within(COORD_LIMIT as int),
        b.within(COORD_LIMIT as int),
    ensures
        g == point_segment_gap_sq(*p, *a, *b),
        g < 0x1_0000_0000_0000_0000_0000_0000_0000,
{
    let dx: i64 = b.x - a.x;
    let dy: i64 = b.y - a.y;
    let wx: i64 = p.x - a.x;
    let wy: i64 = p.y - a.y;
    let along: i128 = small_product(wx, dx) + small_product(wy, dy);
    let len2: i128 = small_product(dx, dx) + small_product(dy, dy);
    if along <= 0 {
        let g: i128 = small_product(wx, wx) + small_product(wy, wy);
        assert(0 <= wx * wx) by (nonlinear_arith);
        assert(0 <= wy * wy) by (nonlinear_arith);
        g as u128
    } else if along >= len2 {
        let ex: i64 = p.x - b.x;
        let ey: i64 = p.y - b.y;
        let g: i128 = small_product(ex, ex) + small_product(ey, ey);
        assert(0 <= ex * ex) by (nonlinear_arith);
        assert(0 <= ey * ey) by (nonlinear_arith);
        g as u128
    } else {
        let c: i128 = small_product(wx, dy) - small_product(wy, dx);
        assert(0 <= c * c <= 0x4000_0000_0000_0000_0000_0000_0000) by (nonlinear_arith)
            requires
                -0x80_0000_0000_0000 <= c <= 0x80_0000_0000_0000,
        ;
        let c2: u128 = (c * c) as u128;
        let q: u128 = c2 / (len2 as u128);
        assert(q <= c2) by (nonlinear_arith)
            requires
                q == c2 / (len2 as u128),
                len2 >= 1,
        ;
        q
    }
}

/// The smaller of two numbers.
fn smaller(a: u128, b: u128) -> (m: u128)
    ensures
        m == if a <= b {
            a
        } else {
            b
        },
{
    if a <= b {
        a
    } else {
        b
    }
}

/// The integer part of the distance between two line segments, from
/// `a0` to `a1` and from `b0` to `b1`: each end of one is projected onto
/// the other, and the shortest of the four distances is taken.
pub fn line_line_distance(a0: &Point, a1: &Point, b0: &Point, b1: &Point) -> (d: u64)
    requires
        a0.within(COORD_LIMIT as int),
        a1.within(COORD_LIMIT as int),
        b0.within(COORD_LIMIT as int),
        b1.within(COORD_LIMIT as int),
    ensures
        d == line_gap(*a0, *a1, *b0, *b1),
        is_integer_sqrt(line_gap_sq(*a0, *a1, *b0, *b1), d as int),
{
    let g1 = point_segment_distance_sq(b0, a0, a1);
    let g2 = point_segment_distance_sq(b1, a0, a1);
    let g3 = point_segment_distance_sq(a0, b0, b1);
    let g4 = point_segment_distance_sq(a1, b0, b1);
    let least = smaller(smaller(g1, g2), smaller(g3, g4));
    integer_sqrt(least)
}

} // verus!
