//! Points, curve segments and rectangles on the integer grid.
//!
//! Coordinates are whole device units. Everything that compares or
//! measures does so with integer arithmetic; nothing is rounded except
//! where a result is a square root, which is cut to its integer part.

use vstd::prelude::*;

verus! {

/// Largest absolute coordinate that the measuring functions accept.
pub const COORD_LIMIT: i64 = 0x400_0000;

/// A point of the grid.
#[derive(Clone, Copy, Debug, PartialEq, Eq, Structural)]
pub struct Point {
    pub x: i64,
    pub y: i64,
}

impl Point {
    /// Both coordinates lie in `-limit ..= limit`.
    pub open spec fn within(self, limit: int) -> bool {
        &&& -limit <= self.x <= limit
        &&& -limit <= self.y <= limit
    }

    /// This point can be moved by `(dx, dy)` without leaving the range of
    /// the coordinate type.
    pub open spec fn can_move(self, dx: int, dy: int) -> bool {
        &&& i64::MIN <= self.x + dx <= i64::MAX
        &&& i64::MIN <= self.y + dy <= i64::MAX
    }

    /// The point moved by `(dx, dy)`.
    pub open spec fn moved(self, dx: int, dy: int) -> Point {
        Point { x: (self.x + dx) as i64, y: (self.y + dy) as i64 }
    }

    /// Tells whether both coordinates lie in `-limit ..= limit`.
    pub fn is_within(&self, limit: i64) -> (ok: bool)
        requires
            0 <= limit,
        ensures
            ok == self.within(limit as int),
    {
        -limit <= self.x && self.x <= limit && -limit <= self.y && self.y <= limit
    }

    /// Moves the point by `(dx, dy)`.
    pub fn translate(&self, dx: i64, dy: i64) -> (p: Point)
        requires
            self.can_move(dx as int, dy as int),
        ensures
            p == self.moved(dx as int, dy as int),
            p.x == self.x + dx,
            p.y == self.y + dy,
    {
        Point { x: self.x + dx, y: self.y + dy }
    }
}

/// Squared distance between two points given by integer coordinates.
pub open spec fn dist_sq(ax: int, ay: int, bx: int, by: int) -> int {
    (ax - bx) * (ax - bx) + (ay - by) * (ay - by)
}

/// The shape of a segment.
#[derive(Clone, Copy, Debug, PartialEq, Eq, Structural)]
pub enum SegmentKind {
    Line,
    Quad,
    Cubic,
}

/// One piece of a path: a straight line, or a quadratic or cubic Bezier
/// curve, given by its control points.
#[derive(Clone, Copy, Debug, PartialEq, Eq, Structural)]
pub enum Segment {
    Line { p0: Point, p1: Point },
    Quad { p0: Point, p1: Point, p2: Point },
    Cubic { p0: Point, p1: Point, p2: Point, p3: Point },
}

impl Segment {
    /// The shape of this segment.
    pub open spec fn kind_of(self) -> SegmentKind {
        match self {
            Segment::Line { .. } => SegmentKind::Line,
            Segment::Quad { .. } => SegmentKind::Quad,
            Segment::Cubic { .. } => SegmentKind::Cubic,
        }
    }

    /// The point where the segment starts.
    pub open spec fn start(self) -> Point {
        match self {
            Segment::Line { p0, .. } => p0,
            Segment::Quad { p0, .. } => p0,
            Segment::Cubic { p0, .. } => p0,
        }
    }

    /// The point where the segment ends.
    pub open spec fn end(self) -> Point {
        match self {
            Segment::Line { p1, .. } => p1,
            Segment::Quad { p2, .. } => p2,
            Segment::Cubic { p3, .. } => p3,
        }
    }

    /// Every control point lies in `-limit ..= limit`.
    pub open spec fn within(self, limit: int) -> bool {
        match self {
            Segment::Line { p0, p1 } => p0.within(limit) && p1.within(limit),
            Segment::Quad { p0, p1, p2 } => p0.within(limit) && p1.within(limit) && p2.within(
                limit,
            ),
            Segment::Cubic { p0, p1, p2, p3 } => p0.within(limit) && p1.within(limit)
                && p2.within(limit) && p3.within(limit),
        }
    }

    /// Every control point can be moved by `(dx, dy)`.
    pub open spec fn can_move(self, dx: int, dy: int) -> bool {
        match self {
            Segment::Line { p0, p1 } => p0.can_move(dx, dy) && p1.can_move(dx, dy),
            Segment::Quad { p0, p1, p2 } => p0.can_move(dx, dy) && p1.can_move(dx, dy)
                && p2.can_move(dx, dy),
            Segment::Cubic { p0, p1, p2, p3 } => p0.can_move(dx, dy) && p1.can_move(dx, dy)
                && p2.can_move(dx, dy) && p3.can_move(dx, dy),
        }
    }

    /// The segment with every control point moved by `(dx, dy)`.
    pub open spec fn moved(self, dx: int, dy: int) -> Segment {
        match self {
            Segment::Line { p0, p1 } => Segment::Line {
                p0: p0.moved(dx, dy),
                p1: p1.moved(dx, dy),
            },
            Segment::Quad { p0, p1, p2 } => Segment::Quad {
                p0: p0.moved(dx, dy),
                p1: p1.moved(dx, dy),
                p2: p2.moved(dx, dy),
            },
            Segment::Cubic { p0, p1, p2, p3 } => Segment::Cubic {
                p0: p0.moved(dx, dy),
                p1: p1.moved(dx, dy),
                p2: p2.moved(dx, dy),
                p3: p3.moved(dx, dy),
            },
        }
    }

    /// Eight times the x coordinate of the point at parameter `half / 2`,
    /// for `half` 0, 1 or 2. The factor keeps the midpoint of a cubic
    /// on the grid.
    pub open spec fn sample_x8(self, half: int) -> int {
        if half <= 0 {
            8 * self.start().x
        } else if half >= 2 {
            8 * self.end().x
        } else {
            match self {
                Segment::Line { p0, p1 } => 4 * p0.x + 4 * p1.x,
                Segment::Quad { p0, p1, p2 } => 2 * p0.x + 4 * p1.x + 2 * p2.x,
                Segment::Cubic { p0, p1, p2, p3 } => p0.x + 3 * p1.x + 3 * p2.x + p3.x,
            }
        }
    }

    /// Eight times the y coordinate of the point at parameter `half / 2`.
    pub open spec fn sample_y8(self, half: int) -> int {
        if half <= 0 {
            8 * self.start().y
        } else if half >= 2 {
            8 * self.end().y
        } else {
            match self {
                Segment::Line { p0, p1 } => 4 * p0.y + 4 * p1.y,
                Segment::Quad { p0, p1, p2 } => 2 * p0.y + 4 * p1.y + 2 * p2.y,
                Segment::Cubic { p0, p1, p2, p3 } => p0.y + 3 * p1.y + 3 * p2.y + p3.y,
            }
        }
    }

    /// The shape of this segment.
    pub fn kind(&self) -> (k: SegmentKind)
        ensures
            k == self.kind_of(),
    {
        match self {
            Segment::Line { .. } => SegmentKind::Line,
            Segment::Quad { .. } => SegmentKind::Quad,
            Segment::Cubic { .. } => SegmentKind::Cubic,
        }
    }

    /// Tells whether every control point lies in `-limit ..= limit`.
    pub fn is_within(&self, limit: i64) -> (ok: bool)
        requires
            0 <= limit,
        ensures
            ok == self.within(limit as int),
    {
        match self {
            Segment::Line { p0, p1 } => p0.is_within(limit) && p1.is_within(limit),
            Segment::Quad { p0, p1, p2 } => p0.is_within(limit) && p1.is_within(limit)
                && p2.is_within(limit),
            Segment::Cubic { p0, p1, p2, p3 } => p0.is_within(limit) && p1.is_within(limit)
                && p2.is_within(limit) && p3.is_within(limit),
        }
    }

    /// Moves every control point by `(dx, dy)`.
    pub fn translate(&self, dx: i64, dy: i64) -> (s: Segment)
        requires
            self.can_move(dx as int, dy as int),
        ensures
            s == self.moved(dx as int, dy as int),
    {
        match self {
            Segment::Line { p0, p1 } => Segment::Line {
                p0: p0.translate(dx, dy),
                p1: p1.translate(dx, dy),
            },
            Segment::Quad { p0, p1, p2 } => Segment::Quad {
                p0: p0.translate(dx, dy),
                p1: p1.translate(dx, dy),
                p2: p2.translate(dx, dy),
            },
            Segment::Cubic { p0, p1, p2, p3 } => Segment::Cubic {
                p0: p0.translate(dx, dy),
                p1: p1.translate(dx, dy),
                p2: p2.translate(dx, dy),
                p3: p3.translate(dx, dy),
            },
        }
    }

    /// Eight times the point at parameter `half / 2`, for `half` 0, 1 or
    /// 2: the start, the middle and the end of the segment.
    pub fn sample8(&self, half: u8) -> (p: (i64, i64))
        requires
            self.within(COORD_LIMIT as int),
        ensures
            p.0 == self.sample_x8(half as int),
            p.1 == self.sample_y8(half as int),
            -8 * COORD_LIMIT <= p.0 <= 8 * COORD_LIMIT,
            -8 * COORD_LIMIT <= p.1 <= 8 * COORD_LIMIT,
    {
        match self {
            Segment::Line { p0, p1 } => {
                if half == 0 {
                    (8 * p0.x, 8 * p0.y)
                } else if half >= 2 {
                    (8 * p1.x, 8 * p1.y)
                } else {
                    (4 * p0.x + 4 * p1.x, 4 * p0.y + 4 * p1.y)
                }
            },
            Segment::Quad { p0, p1, p2 } => {
                if half == 0 {
                    (8 * p0.x, 8 * p0.y)
                } else if half >= 2 {
                    (8 * p2.x, 8 * p2.y)
                } else {
                    (2 * p0.x + 4 * p1.x + 2 * p2.x, 2 * p0.y + 4 * p1.y + 2 * p2.y)
                }
            },
            Segment::Cubic { p0, p1, p2, p3 } => {
                if half == 0 {
                    (8 * p0.x, 8 * p0.y)
                } else if half >= 2 {
                    (8 * p3.x, 8 * p3.y)
                } else {
                    (
                        p0.x + 3 * p1.x + 3 * p2.x + p3.x,
                        p0.y + 3 * p1.y + 3 * p2.y + p3.y,
                    )
                }
            },
        }
    }
}

/// A closed path: its segments in drawing order.
#[derive(Clone, Debug, PartialEq, Eq)]
pub struct Path {
    pub segments: Vec<Segment>,
}

/// The segments of all paths, path after path.
pub open spec fn all_segments(paths: Seq<Path>) -> Seq<Segment>
    decreases paths.len(),
{
    if paths.len() == 0 {
        Seq::empty()
    } else {
        all_segments(paths.drop_last()) + paths.last().segments@
    }
}

/// Every segment of the sequence lies in `-limit ..= limit`.
pub open spec fn segments_within(segments: Seq<Segment>, limit: int) -> bool {
    forall|i: int| 0 <= i < segments.len() ==> (#[trigger] segments[i]).within(limit)
}

/// Every segment of the sequence can be moved by `(dx, dy)`.
pub open spec fn segments_can_move(segments: Seq<Segment>, dx: int, dy: int) -> bool {
    forall|i: int| 0 <= i < segments.len() ==> (#[trigger] segments[i]).can_move(dx, dy)
}

/// The sequence with every segment moved by `(dx, dy)`.
pub open spec fn segments_moved(segments: Seq<Segment>, dx: int, dy: int) -> Seq<Segment> {
    Seq::new(segments.len(), |i: int| segments[i].moved(dx, dy))
}

/// Collects the segments of all paths into one list, path after path.
pub fn collect_segments(paths: &[Path]) -> (segments: Vec<Segment>)
    ensures
        segments@ == all_segments(paths@),
{
    let mut out: Vec<Segment> = Vec::new();
    let mut i: usize = 0;
    while i < paths.len()
        invariant
            i <= paths@.len(),
            out@ == all_segments(paths@.take(i as int)),
        decreases paths@.len() - i,
    {
        let path = &paths[i];
        let ghost before = out@;
        let mut j: usize = 0;
        while j < path.segments.len()
            invariant
                j <= path.segments@.len(),
                out@ == before + path.segments@.take(j as int),
            decreases path.segments@.len() - j,
        {
            out.push(path.segments[j]);
            proof {
                assert(path.segments@.take(j + 1) == path.segments@.take(j as int).push(
                    path.segments@[j as int],
                ));
            }
            j = j + 1;
        }
        proof {
            assert(path.segments@.take(j as int) == path.segments@);
            let next = paths@.take(i + 1);
            assert(next.drop_last() == paths@.take(i as int));
            assert(next.last() == paths@[i as int]);
        }
        i = i + 1;
    }
    proof {
        assert(paths@.take(i as int) == paths@);
    }
    out
}

/// Moves every segment of the list by `(dx, dy)`.
pub fn translate_segments(segments: &Vec<Segment>, dx: i64, dy: i64) -> (out: Vec<Segment>)
    requires
        segments_can_move(segments@, dx as int, dy as int),
    ensures
        out@ == segments_moved(segments@, dx as int, dy as int),
{
    let mut out: Vec<Segment> = Vec::new();
    let mut i: usize = 0;
    while i < segments.len()
        invariant
            i <= segments@.len(),
            segments_can_move(segments@, dx as int, dy as int),
            out@.len() == i,
            forall|k: int|
                0 <= k < i ==> #[trigger] out@[k] == segments@[k].moved(dx as int, dy as int),
        decreases segments@.len() - i,
    {
        out.push(segments[i].translate(dx, dy));
        i = i + 1;
    }
    proof {
        assert(out@ =~= segments_moved(segments@, dx as int, dy as int));
    }
    out
}

/// Tells whether every segment of the list lies in `-limit ..= limit`.
pub fn all_within(segments: &Vec<Segment>, limit: i64) -> (ok: bool)
    requires
        0 <= limit,
    ensures
        ok == segments_within(segments@, limit as int),
{
    let mut i: usize = 0;
    while i < segments.len()
        invariant
            i <= segments@.len(),
            0 <= limit,
            forall|k: int| 0 <= k < i ==> (#[trigger] segments@[k]).within(limit as int),
        decreases segments@.len() - i,
    {
        if !segments[i].is_within(limit) {
            return false;
        }
        i = i + 1;
    }
    true
}

/// An axis-aligned rectangle from `(x0, y0)` to `(x1, y1)`.
#[derive(Clone, Copy, Debug, PartialEq, Eq, Structural)]
pub struct Rect {
    pub x0: i64,
    pub y0: i64,
    pub x1: i64,
    pub y1: i64,
}

/// The smaller of two integers.
pub open spec fn min_int(a: int, b: int) -> int {
    if a <= b {
        a
    } else {
        b
    }
}

/// The larger of two integers.
pub open spec fn max_int(a: int, b: int) -> int {
    if a >= b {
        a
    } else {
        b
    }
}

impl Rect {
    /// Width, which is negative where `x1` lies left of `x0`.
    pub open spec fn width(self) -> int {
        self.x1 - self.x0
    }

    /// Height, which is negative where `y1` lies below `y0`.
    pub open spec fn height(self) -> int {
        self.y1 - self.y0
    }

    /// Width times height.
    pub open spec fn area(self) -> int {
        self.width() * self.height()
    }

    /// Neither width nor height is negative.
    pub open spec fn ordered(self) -> bool {
        self.x0 <= self.x1 && self.y0 <= self.y1
    }

    /// The rectangle spanned by two opposite corners, in either order.
    pub open spec fn spanning(ax: int, ay: int, bx: int, by: int) -> Rect {
        Rect {
            x0: min_int(ax, bx) as i64,
            y0: min_int(ay, by) as i64,
            x1: max_int(ax, bx) as i64,
            y1: max_int(ay, by) as i64,
        }
    }

    /// The part that two rectangles share. Where they share nothing the
    /// result has no width or no height, and so no area.
    pub open spec fn intersection(self, other: Rect) -> Rect {
        let x0 = max_int(self.x0 as int, other.x0 as int);
        let y0 = max_int(self.y0 as int, other.y0 as int);
        let x1 = min_int(self.x1 as int, other.x1 as int);
        let y1 = min_int(self.y1 as int, other.y1 as int);
        Rect { x0: x0 as i64, y0: y0 as i64, x1: max_int(x1, x0) as i64, y1: max_int(y1, y0) as i64 }
    }

    /// The rectangle spanned by two opposite corners, in either order.
    pub fn from_points(ax: i64, ay: i64, bx: i64, by: i64) -> (r: Rect)
        ensures
            r == Rect::spanning(ax as int, ay as int, bx as int, by as int),
            r.ordered(),
    {
        Rect {
            x0: if ax <= bx { ax } else { bx },
            y0: if ay <= by { ay } else { by },
            x1: if ax >= bx { ax } else { bx },
            y1: if ay >= by { ay } else { by },
        }
    }

    /// The part that two rectangles share.
    pub fn intersect(&self, other: &Rect) -> (r: Rect)
        ensures
            r == self.intersection(*other),
            r.ordered(),
    {
        let x0 = if self.x0 >= other.x0 { self.x0 } else { other.x0 };
        let y0 = if self.y0 >= other.y0 { self.y0 } else { other.y0 };
        let x1 = if self.x1 <= other.x1 { self.x1 } else { other.x1 };
        let y1 = if self.y1 <= other.y1 { self.y1 } else { other.y1 };
        Rect { x0, y0, x1: if x1 >= x0 { x1 } else { x0 }, y1: if y1 >= y0 { y1 } else { y0 } }
    }

    /// Tells whether the area is zero.
    pub fn has_no_area(&self) -> (empty: bool)
        ensures
            empty == (self.area() == 0),
    {
        proof {
            lemma_product_zero(self.width(), self.height());
        }
        self.x0 == self.x1 || self.y0 == self.y1
    }
}

/// A product is zero exactly where one of its factors is.
pub proof fn lemma_product_zero(a: int, b: int)
    ensures
        (a * b == 0) == (a == 0 || b == 0),
{
    assert((a * b == 0) == (a == 0 || b == 0)) by (nonlinear_arith);
}

} // verus!
