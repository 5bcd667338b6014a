//! A shaped glyph with what the engine needs to know of it.
//!
//! Besides what shaping gives (glyph number, cluster, advances, offsets)
//! a glyph carries what was read from the font for it once: its name, its
//! extents, its outline as curves, and the same outline flattened to
//! closed polylines. The glyph's place in the line is the sum of the
//! advances before it, kept in `x_total_advance`.

use crate::collision::{
    intersects, points_moved, points_within, polylines_cross, Polyline, PLACED_LIMIT,
};
use crate::geometry::{
    all_segments, all_within, segments_moved, segments_within, Path, Point, Rect, Segment,
    COORD_LIMIT,
};
use vstd::prelude::*;

verus! {

/// The box that a font gives for a glyph: where its ink starts, and how
/// wide and high it is. The height counts downward from `y_bearing`.
#[derive(Clone, Copy, Debug, PartialEq, Eq, Structural)]
pub struct GlyphExtents {
    pub x_bearing: i32,
    pub y_bearing: i32,
    pub width: i32,
    pub height: i32,
}

/// A glyph as shaping hands it over and takes it back: its number in the
/// font, the cluster of the text that it belongs to, how far the pen
/// moves after it, and how far from the pen it is drawn.
#[derive(Clone, Copy, Debug, PartialEq, Eq, Structural)]
pub struct Glyph {
    pub codepoint: u32,
    pub cluster: u32,
    pub x_advance: i32,
    pub y_advance: i32,
    pub x_offset: i32,
    pub y_offset: i32,
    pub flags: u32,
}

/// What part a glyph plays in its word. A script decides this for its
/// glyphs; the engine only reads it.
#[derive(Clone, Copy, Debug, PartialEq, Eq, Structural)]
pub struct GlyphRole {
    /// A dot that hangs under a letter.
    pub dot_below: bool,
    /// A dot that sits over a letter.
    pub dot_above: bool,
    /// A letter with a long tail under the letters before it.
    pub tail: bool,
    /// The first letter of a joined group.
    pub init: bool,
    /// A letter that stands alone.
    pub isol: bool,
    /// The last letter of a joined group.
    pub fina: bool,
    /// A space.
    pub space: bool,
}

/// `suffix` stands at the end of `text`.
pub open spec fn is_suffix(text: Seq<char>, suffix: Seq<char>) -> bool {
    &&& suffix.len() <= text.len()
    &&& text.subrange(text.len() - suffix.len(), text.len() as int) == suffix
}

/// `part` stands in `text` from position `at` on.
pub open spec fn occurs_at(text: Seq<char>, part: Seq<char>, at: int) -> bool {
    &&& 0 <= at
    &&& at + part.len() <= text.len()
    &&& text.subrange(at, at + part.len()) == part
}

/// `part` stands somewhere in `text`.
pub open spec fn is_infix(text: Seq<char>, part: Seq<char>) -> bool {
    exists|at: int| #[trigger] occurs_at(text, part, at)
}

/// Tells whether `part` stands in `text` from position `at` on, where
/// `text` has `n` characters and `part` has `m`.
fn matches_at(text: &str, n: usize, part: &str, m: usize, at: usize) -> (found: bool)
    requires
        n == text@.len(),
        m == part@.len(),
        at + m <= n,
    ensures
        found == occurs_at(text@, part@, at as int),
{
    let mut k: usize = 0;
    while k < m
        invariant
            n == text@.len(),
            m == part@.len(),
            at + m <= n,
            k <= m,
            forall|i: int| 0 <= i < k ==> text@[at + i] == part@[i],
        decreases m - k,
    {
        if text.get_char(at + k) != part.get_char(k) {
            assert(text@.subrange(at as int, at + m)[k as int] != part@[k as int]);
            return false;
        }
        k = k + 1;
    }
    assert(text@.subrange(at as int, at + m) =~= part@);
    true
}

/// Tells whether `text` ends with `suffix`.
pub fn ends_with(text: &str, suffix: &str) -> (found: bool)
    ensures
        found == is_suffix(text@, suffix@),
{
    let n = text.unicode_len();
    let m = suffix.unicode_len();
    if m > n {
        return false;
    }
    matches_at(text, n, suffix, m, n - m)
}

/// Tells whether two texts are the same.
pub fn same_text(a: &str, b: &str) -> (same: bool)
    ensures
        same == (a@ == b@),
{
    let n = a.unicode_len();
    let m = b.unicode_len();
    if n != m {
        return false;
    }
    let found = matches_at(a, n, b, m, 0);
    assert(a@.subrange(0, n as int) =~= a@);
    found
}

/// Tells whether `part` stands somewhere in `text`.
pub fn contains(text: &str, part: &str) -> (found: bool)
    ensures
        found == is_infix(text@, part@),
{
    let n = text.unicode_len();
    let m = part.unicode_len();
    if m > n {
        return false;
    }
    let last: usize = n - m;
    let mut at: usize = 0;
    while at < last
        invariant
            n == text@.len(),
            m == part@.len(),
            m <= n,
            last == n - m,
            at <= last,
            forall|i: int| 0 <= i < at ==> !#[trigger] occurs_at(text@, part@, i),
        decreases last - at,
    {
        if matches_at(text, n, part, m, at) {
            return true;
        }
        at = at + 1;
    }
    matches_at(text, n, part, m, last)
}

/// The glyph numbered `id` is the one that goes by the name `text`: it
/// has that name, and no glyph with a higher number has it.
pub open spec fn is_last_named(names: Seq<String>, text: Seq<char>, id: int) -> bool {
    &&& 0 <= id < names.len()
    &&& names[id]@ == text
    &&& forall|other: int| id < other < names.len() ==> (#[trigger] names[other])@ != text
}

/// Finds the glyph that goes by the given name among the glyphs whose
/// names are given in the order of their numbers.
pub fn find_last_named(names: &Vec<String>, wanted: &String) -> (found: Option<usize>)
    ensures
        found matches Some(id) ==> is_last_named(names@, wanted@, id as int),
        found is None ==> forall|id: int|
            0 <= id < names@.len() ==> (#[trigger] names@[id])@ != wanted@,
{
    let mut id: usize = names.len();
    while id > 0
        invariant
            id <= names@.len(),
            forall|other: int| id <= other < names@.len() ==> (#[trigger] names@[other])@ != wanted@,
        decreases id,
    {
        id = id - 1;
        if names[id] == *wanted {
            return Some(id);
        }
    }
    None
}

/// The paths have the same segments as `paths`, each moved by
/// `(dx, dy)`.
pub open spec fn are_paths_moved(paths: Seq<Path>, dx: int, dy: int, moved: Seq<Path>) -> bool {
    &&& moved.len() == paths.len()
    &&& forall|i: int|
        0 <= i < paths.len() ==> (#[trigger] moved[i]).segments@ == segments_moved(
            paths[i].segments@,
            dx,
            dy,
        )
}

/// Moving every path moves the list of all their segments.
pub proof fn lemma_moved_paths_segments(paths: Seq<Path>, dx: int, dy: int, moved: Seq<Path>)
    requires
        are_paths_moved(paths, dx, dy, moved),
    ensures
        all_segments(moved) == segments_moved(all_segments(paths), dx, dy),
    decreases paths.len(),
{
    if paths.len() == 0 {
        assert(all_segments(moved) =~= segments_moved(all_segments(paths), dx, dy));
    } else {
        assert(are_paths_moved(paths.drop_last(), dx, dy, moved.drop_last())) by {
            assert forall|i: int| 0 <= i < paths.drop_last().len() implies (
            #[trigger] moved.drop_last()[i]).segments@ == segments_moved(
                paths.drop_last()[i].segments@,
                dx,
                dy,
            ) by {
                assert(moved[i].segments@ == segments_moved(paths[i].segments@, dx, dy));
            }
        }
        lemma_moved_paths_segments(paths.drop_last(), dx, dy, moved.drop_last());
        assert(moved.last().segments@ == segments_moved(paths.last().segments@, dx, dy));
        assert(all_segments(moved) =~= segments_moved(all_segments(paths), dx, dy));
    }
}

/// Every segment of every path lies in `-limit ..= limit`.
pub open spec fn paths_within(paths: Seq<Path>, limit: int) -> bool {
    forall|i: int|
        0 <= i < paths.len() ==> segments_within((#[trigger] paths[i]).segments@, limit)
}

/// Paths within a limit make a list of segments within that limit.
pub proof fn lemma_paths_within_segments(paths: Seq<Path>, limit: int)
    requires
        paths_within(paths, limit),
    ensures
        segments_within(all_segments(paths), limit),
    decreases paths.len(),
{
    if paths.len() > 0 {
        assert(paths_within(paths.drop_last(), limit)) by {
            assert forall|i: int| 0 <= i < paths.drop_last().len() implies segments_within(
                (#[trigger] paths.drop_last()[i]).segments@,
                limit,
            ) by {
                assert(segments_within(paths[i].segments@, limit));
            }
        }
        lemma_paths_within_segments(paths.drop_last(), limit);
        assert(segments_within(paths.last().segments@, limit));
    }
}

/// Tells whether every segment of every path lies in `-limit ..= limit`.
pub fn paths_are_within(paths: &Vec<Path>, limit: i64) -> (ok: bool)
    requires
        0 <= limit,
    ensures
        ok == paths_within(paths@, limit as int),
{
    let mut i: usize = 0;
    while i < paths.len()
        invariant
            0 <= limit,
            i <= paths@.len(),
            forall|k: int|
                0 <= k < i ==> segments_within((#[trigger] paths@[k]).segments@, limit as int),
        decreases paths@.len() - i,
    {
        if !all_within(&paths[i].segments, limit) {
            return false;
        }
        i = i + 1;
    }
    true
}

/// Tells whether every corner of every contour lies in
/// `-limit ..= limit`.
pub fn contours_are_within(contours: &Vec<Polyline>, limit: i64) -> (ok: bool)
    requires
        0 <= limit,
    ensures
        ok == contours_within(contours@, limit as int),
{
    let mut i: usize = 0;
    while i < contours.len()
        invariant
            0 <= limit,
            i <= contours@.len(),
            forall|k: int|
                0 <= k < i ==> points_within((#[trigger] contours@[k]).points@, limit as int),
        decreases contours@.len() - i,
    {
        let points = &contours[i].points;
        let mut j: usize = 0;
        while j < points.len()
            invariant
                0 <= limit,
                i < contours@.len(),
                points@ == contours@[i as int].points@,
                j <= points@.len(),
                forall|k: int| 0 <= k < j ==> (#[trigger] points@[k]).within(limit as int),
            decreases points@.len() - j,
        {
            if !points[j].is_within(limit) {
                assert(!points_within(contours@[i as int].points@, limit as int));
                return false;
            }
            j = j + 1;
        }
        i = i + 1;
    }
    true
}

/// Every contour lies in `-limit ..= limit`.
pub open spec fn contours_within(contours: Seq<Polyline>, limit: int) -> bool {
    forall|i: int|
        0 <= i < contours.len() ==> points_within((#[trigger] contours[i]).points@, limit)
}

/// Copies the paths, every control point moved by `(dx, dy)`.
pub fn translate_paths(paths: &Vec<Path>, dx: i64, dy: i64) -> (moved: Vec<Path>)
    requires
        paths_within(paths@, COORD_LIMIT as int),
        -PLACED_LIMIT <= dx <= PLACED_LIMIT,
        -PLACED_LIMIT <= dy <= PLACED_LIMIT,
    ensures
        are_paths_moved(paths@, dx as int, dy as int, moved@),
        all_segments(moved@) == segments_moved(all_segments(paths@), dx as int, dy as int),
{
    let mut moved: Vec<Path> = Vec::new();
    let mut i: usize = 0;
    while i < paths.len()
        invariant
            paths_within(paths@, COORD_LIMIT as int),
            -PLACED_LIMIT <= dx <= PLACED_LIMIT,
            -PLACED_LIMIT <= dy <= PLACED_LIMIT,
            i <= paths@.len(),
            moved@.len() == i,
            forall|k: int|
                0 <= k < i ==> (#[trigger] moved@[k]).segments@ == segments_moved(
                    paths@[k].segments@,
                    dx as int,
                    dy as int,
                ),
        decreases paths@.len() - i,
    {
        let source = &paths[i].segments;
        assert(segments_within(paths@[i as int].segments@, COORD_LIMIT as int));
        let mut segments: Vec<Segment> = Vec::new();
        let mut j: usize = 0;
        while j < source.len()
            invariant
                segments_within(source@, COORD_LIMIT as int),
                -PLACED_LIMIT <= dx <= PLACED_LIMIT,
                -PLACED_LIMIT <= dy <= PLACED_LIMIT,
                j <= source@.len(),
                segments@.len() == j,
                forall|k: int|
                    0 <= k < j ==> #[trigger] segments@[k] == source@[k].moved(
                        dx as int,
                        dy as int,
                    ),
            decreases source@.len() - j,
        {
            assert(source@[j as int].within(COORD_LIMIT as int));
            segments.push(source[j].translate(dx, dy));
            j = j + 1;
        }
        assert(segments@ =~= segments_moved(source@, dx as int, dy as int));
        moved.push(Path { segments });
        i = i + 1;
    }
    proof {
        lemma_moved_paths_segments(paths@, dx as int, dy as int, moved@);
    }
    moved
}

/// Copies a contour, every corner moved by `(dx, dy)`.
pub fn translate_contour(contour: &Polyline, dx: i64, dy: i64) -> (moved: Polyline)
    requires
        points_within(contour.points@, COORD_LIMIT as int),
        -PLACED_LIMIT + COORD_LIMIT <= dx <= PLACED_LIMIT - COORD_LIMIT,
        -PLACED_LIMIT + COORD_LIMIT <= dy <= PLACED_LIMIT - COORD_LIMIT,
    ensures
        moved.points@ == points_moved(contour.points@, dx as int, dy as int),
        points_within(moved.points@, PLACED_LIMIT as int),
{
    let mut points: Vec<Point> = Vec::new();
    let mut i: usize = 0;
    while i < contour.points.len()
        invariant
            points_within(contour.points@, COORD_LIMIT as int),
            -PLACED_LIMIT + COORD_LIMIT <= dx <= PLACED_LIMIT - COORD_LIMIT,
            -PLACED_LIMIT + COORD_LIMIT <= dy <= PLACED_LIMIT - COORD_LIMIT,
            i <= contour.points@.len(),
            points@.len() == i,
            forall|k: int|
                0 <= k < i ==> #[trigger] points@[k] == contour.points@[k].moved(
                    dx as int,
                    dy as int,
                ),
            forall|k: int| 0 <= k < i ==> (#[trigger] points@[k]).within(PLACED_LIMIT as int),
        decreases contour.points@.len() - i,
    {
        assert(contour.points@[i as int].within(COORD_LIMIT as int));
        points.push(contour.points[i].translate(dx, dy));
        i = i + 1;
    }
    assert(points@ =~= points_moved(contour.points@, dx as int, dy as int));
    Polyline { points }
}

/// A glyph of the buffer.
#[derive(Debug)]
pub struct GulzarGlyph {
    /// The glyph's number in the font.
    pub codepoint: u32,
    /// The glyph's name in the font.
    pub name: String,
    /// The glyph's outline, where the font has it.
    pub paths: Vec<Path>,
    /// The cluster of the text that the glyph belongs to.
    pub cluster: u32,
    pub x_advance: i32,
    /// The sum of the horizontal advances of all glyphs before this one.
    pub x_total_advance: i32,
    pub y_advance: i32,
    pub x_offset: i32,
    pub y_offset: i32,
    /// The glyph stands over the tail of a letter before it.
    pub in_bari_ye: bool,
    /// The glyph's box in the font.
    pub extents: GlyphExtents,
    /// The outline flattened to closed polylines, where the font has it.
    pub contours: Vec<Polyline>,
    /// The part that the glyph plays, as its script sees it.
    pub role: GlyphRole,
}

/// Two rectangles share some area.
pub open spec fn boxes_overlap(a: Rect, b: Rect) -> bool {
    a.intersection(b).area() != 0
}

impl GulzarGlyph {
    /// The outline and the contours stay within `COORD_LIMIT`.
    pub open spec fn wf(&self) -> bool {
        &&& paths_within(self.paths@, COORD_LIMIT as int)
        &&& contours_within(self.contours@, COORD_LIMIT as int)
    }

    /// How far right of the line's start the glyph is drawn.
    pub open spec fn placed_x(&self) -> int {
        self.x_total_advance + self.x_offset
    }

    /// How far above the baseline the glyph is drawn.
    pub open spec fn placed_y(&self) -> int {
        self.y_offset as int
    }

    /// The glyph's box where the glyph is drawn.
    pub open spec fn box_of(&self) -> Rect {
        let left = self.extents.x_bearing + self.placed_x();
        let bottom = self.extents.y_bearing + self.extents.height + self.placed_y();
        Rect::spanning(
            left,
            bottom,
            left + self.extents.width,
            bottom - self.extents.height,
        )
    }

    /// Contour `i` of this glyph crosses contour `j` of `other`, both
    /// where the glyphs are drawn.
    pub open spec fn contours_meet(&self, other: &GulzarGlyph, i: int, j: int) -> bool {
        polylines_cross(
            points_moved(self.contours@[i].points@, self.placed_x(), self.placed_y()),
            points_moved(other.contours@[j].points@, other.placed_x(), other.placed_y()),
        )
    }

    /// Some contour of this glyph crosses some contour of `other`.
    pub open spec fn ink_meets(&self, other: &GulzarGlyph) -> bool {
        exists|i: int, j: int|
            0 <= i < self.contours@.len() && 0 <= j < other.contours@.len()
                && #[trigger] self.contours_meet(other, i, j)
    }

    /// The two glyphs collide: their boxes share some area and their ink
    /// meets.
    pub open spec fn collides_with(&self, other: &GulzarGlyph) -> bool {
        boxes_overlap(self.box_of(), other.box_of()) && self.ink_meets(other)
    }

    /// Tells whether the outline and the contours stay within
    /// `COORD_LIMIT`, which the measuring and colliding functions need.
    pub fn is_wf(&self) -> (ok: bool)
        ensures
            ok == self.wf(),
    {
        paths_are_within(&self.paths, COORD_LIMIT) && contours_are_within(
            &self.contours,
            COORD_LIMIT,
        )
    }

    /// Tells whether the glyph is a dot under a letter, by its name.
    pub fn is_dot_below(&self) -> (dot: bool)
        ensures
            dot == is_suffix(self.name@, "below-ar"@),
    {
        ends_with(self.name.as_str(), "below-ar")
    }

    /// Tells whether the glyph is a dot over a letter, by its name.
    pub fn is_dot_above(&self) -> (dot: bool)
        ensures
            dot == is_suffix(self.name@, "above-ar"@),
    {
        ends_with(self.name.as_str(), "above-ar")
    }

    /// Tells whether the glyph is a dot, over or under a letter.
    pub fn is_dot(&self) -> (dot: bool)
        ensures
            dot == (is_suffix(self.name@, "above-ar"@) || is_suffix(self.name@, "below-ar"@)),
    {
        ends_with(self.name.as_str(), "above-ar") || ends_with(self.name.as_str(), "below-ar")
    }

    /// The glyph's box where the glyph is drawn.
    pub fn bounding_box(&self) -> (rect: Rect)
        ensures
            rect == self.box_of(),
            rect.ordered(),
    {
        let left: i64 = self.extents.x_bearing as i64 + self.x_total_advance as i64
            + self.x_offset as i64;
        let bottom: i64 = self.extents.y_bearing as i64 + self.extents.height as i64
            + self.y_offset as i64;
        Rect::from_points(
            left,
            bottom,
            left + self.extents.width as i64,
            bottom - self.extents.height as i64,
        )
    }

    /// A copy of the outline, moved to where the glyph is drawn.
    pub fn positioned_paths(&self) -> (paths: Vec<Path>)
        requires
            self.wf(),
        ensures
            are_paths_moved(self.paths@, self.placed_x(), self.placed_y(), paths@),
            all_segments(paths@) == segments_moved(
                all_segments(self.paths@),
                self.placed_x(),
                self.placed_y(),
            ),
    {
        translate_paths(
            &self.paths,
            self.x_total_advance as i64 + self.x_offset as i64,
            self.y_offset as i64,
        )
    }

    /// Tells whether this glyph and `other` collide. Where their boxes
    /// share no area the answer is no, and their ink is not looked at.
    pub fn collides(&self, other: &GulzarGlyph) -> (hit: bool)
        requires
            self.wf(),
            other.wf(),
        ensures
            hit == self.collides_with(other),
            !boxes_overlap(self.box_of(), other.box_of()) ==> !hit,
    {
        if self.bounding_box().intersect(&other.bounding_box()).has_no_area() {
            return false;
        }
        let dx: i64 = self.x_total_advance as i64 + self.x_offset as i64;
        let dy: i64 = self.y_offset as i64;
        let ex: i64 = other.x_total_advance as i64 + other.x_offset as i64;
        let ey: i64 = other.y_offset as i64;
        let mut i: usize = 0;
        while i < self.contours.len()
            invariant
                self.wf(),
                other.wf(),
                boxes_overlap(self.box_of(), other.box_of()),
                dx == self.placed_x(),
                dy == self.placed_y(),
                ex == other.placed_x(),
                ey == other.placed_y(),
                i <= self.contours@.len(),
                forall|i2: int, j2: int|
                    0 <= i2 < i && 0 <= j2 < other.contours@.len() ==> !#[trigger] self.contours_meet(
                        other,
                        i2,
                        j2,
                    ),
            decreases self.contours@.len() - i,
        {
            assert(points_within(self.contours@[i as int].points@, COORD_LIMIT as int));
            let mine = translate_contour(&self.contours[i], dx, dy);
            let mut j: usize = 0;
            while j < other.contours.len()
                invariant
                    self.wf(),
                    other.wf(),
                    boxes_overlap(self.box_of(), other.box_of()),
                    dx == self.placed_x(),
                    dy == self.placed_y(),
                    ex == other.placed_x(),
                    ey == other.placed_y(),
                    i < self.contours@.len(),
                    j <= other.contours@.len(),
                    mine.points@ == points_moved(
                        self.contours@[i as int].points@,
                        dx as int,
                        dy as int,
                    ),
                    points_within(mine.points@, PLACED_LIMIT as int),
                    forall|i2: int, j2: int|
                        0 <= i2 < i && 0 <= j2 < other.contours@.len()
                            ==> !#[trigger] self.contours_meet(other, i2, j2),
                    forall|j2: int| 0 <= j2 < j ==> !#[trigger] self.contours_meet(other, i as int, j2),
                decreases other.contours@.len() - j,
            {
                assert(points_within(other.contours@[j as int].points@, COORD_LIMIT as int));
                let theirs = translate_contour(&other.contours[j], ex, ey);
                if intersects(&mine, &theirs) {
                    assert(self.contours_meet(other, i as int, j as int));
                    return true;
                }
                j = j + 1;
            }
            i = i + 1;
        }
        false
    }
}

/// Glyphs whose boxes share no area do not collide, whatever their ink.
pub proof fn disjoint_boxes_never_collide(a: GulzarGlyph, b: GulzarGlyph)
    requires
        !boxes_overlap(a.box_of(), b.box_of()),
    ensures
        !a.collides_with(&b),
        !b.collides_with(&a),
{
    lemma_intersection_symmetric(a.box_of(), b.box_of());
}

/// The part that two rectangles share does not depend on their order.
pub proof fn lemma_intersection_symmetric(a: Rect, b: Rect)
    ensures
        a.intersection(b) == b.intersection(a),
{
}

/// The sum of the horizontal advances of the first `n` glyphs.
pub open spec fn advance_sum(buffer: Seq<GulzarGlyph>, n: int) -> int
    decreases n,
{
    if n <= 0 {
        0
    } else {
        advance_sum(buffer, n - 1) + buffer[n - 1].x_advance
    }
}

/// Every sum of leading advances fits the type of an advance.
pub open spec fn totals_fit(buffer: Seq<GulzarGlyph>) -> bool {
    forall|n: int|
        0 <= n <= buffer.len() ==> i32::MIN <= #[trigger] advance_sum(buffer, n) <= i32::MAX
}

/// Every glyph's running total is the sum of the advances before it.
pub open spec fn totals_current(buffer: Seq<GulzarGlyph>) -> bool {
    forall|i: int|
        0 <= i < buffer.len() ==> (#[trigger] buffer[i]).x_total_advance == advance_sum(buffer, i)
}

/// `after` is `before` with nothing changed but the running totals.
pub open spec fn only_totals_differ(before: Seq<GulzarGlyph>, after: Seq<GulzarGlyph>) -> bool {
    &&& after.len() == before.len()
    &&& forall|i: int|
        0 <= i < before.len() ==> #[trigger] after[i] == (GulzarGlyph {
            x_total_advance: after[i].x_total_advance,
            ..before[i]
        })
}

/// The sums of leading advances depend on the advances alone.
pub proof fn lemma_advance_sum_depends_on_advances(
    a: Seq<GulzarGlyph>,
    b: Seq<GulzarGlyph>,
    n: int,
)
    requires
        0 <= n <= a.len(),
        n <= b.len(),
        forall|i: int| 0 <= i < n ==> (#[trigger] a[i]).x_advance == b[i].x_advance,
    ensures
        advance_sum(a, n) == advance_sum(b, n),
    decreases n,
{
    if n > 0 {
        lemma_advance_sum_depends_on_advances(a, b, n - 1);
        assert(a[n - 1].x_advance == b[n - 1].x_advance);
    }
}

/// Tells whether every sum of leading advances fits the type of an
/// advance, which `set_total_advance` needs.
pub fn advances_fit(buffer: &Vec<GulzarGlyph>) -> (ok: bool)
    ensures
        ok == totals_fit(buffer@),
{
    let mut total: i64 = 0;
    let mut i: usize = 0;
    while i < buffer.len()
        invariant
            i <= buffer@.len(),
            total == advance_sum(buffer@, i as int),
            i32::MIN <= total <= i32::MAX,
            forall|n: int|
                0 <= n <= i ==> i32::MIN <= #[trigger] advance_sum(buffer@, n) <= i32::MAX,
        decreases buffer@.len() - i,
    {
        total = total + buffer[i].x_advance as i64;
        if total < i32::MIN as i64 || total > i32::MAX as i64 {
            assert(advance_sum(buffer@, i + 1) == total);
            return false;
        }
        i = i + 1;
    }
    true
}

/// Gives every glyph its running total: the sum of the horizontal
/// advances of the glyphs before it. Nothing else changes.
pub fn set_total_advance(buffer: &mut Vec<GulzarGlyph>)
    requires
        totals_fit(old(buffer)@),
    ensures
        only_totals_differ(old(buffer)@, final(buffer)@),
        totals_current(final(buffer)@),
        forall|i: int|
            0 <= i < old(buffer)@.len() ==> (#[trigger] final(buffer)@[i]).x_total_advance
                == advance_sum(old(buffer)@, i),
{
    let mut total: i32 = 0;
    let mut i: usize = 0;
    while i < buffer.len()
        invariant
            totals_fit(old(buffer)@),
            buffer@.len() == old(buffer)@.len(),
            i <= buffer@.len(),
            total == advance_sum(old(buffer)@, i as int),
            forall|k: int|
                0 <= k < i ==> #[trigger] buffer@[k] == (GulzarGlyph {
                    x_total_advance: advance_sum(old(buffer)@, k) as i32,
                    ..old(buffer)@[k]
                }),
            forall|k: int| i <= k < buffer@.len() ==> #[trigger] buffer@[k] == old(buffer)@[k],
        decreases buffer@.len() - i,
    {
        assert(i32::MIN <= advance_sum(old(buffer)@, i + 1) <= i32::MAX);
        assert(i32::MIN <= advance_sum(old(buffer)@, i as int) <= i32::MAX);
        buffer[i].x_total_advance = total;
        total = total + buffer[i].x_advance;
        i = i + 1;
    }
    proof {
        assert forall|k: int| 0 <= k < buffer@.len() implies (#[trigger] buffer@[k]).x_total_advance
            == advance_sum(buffer@, k) by {
            assert(i32::MIN <= advance_sum(old(buffer)@, k) <= i32::MAX);
            assert forall|m: int| 0 <= m < k implies (#[trigger] buffer@[m]).x_advance == old(
                buffer,
            )@[m].x_advance by {}
            lemma_advance_sum_depends_on_advances(buffer@, old(buffer)@, k);
        }
        assert forall|k: int| 0 <= k < buffer@.len() implies (#[trigger] buffer@[k]).x_total_advance
            == advance_sum(old(buffer)@, k) by {
            assert(i32::MIN <= advance_sum(old(buffer)@, k) <= i32::MAX);
        }
    }
}

/// A glyph that may have a bubble drawn round it.
#[derive(Debug)]
pub struct BubbleGlyph {
    /// The glyph's number in the font.
    pub codepoint: u32,
    /// The glyph's name in the font.
    pub name: String,
    /// The outline of the glyph's bubble, where the font has one.
    pub bubble_paths: Option<Vec<Path>>,
    /// The cluster of the text that the glyph belongs to.
    pub cluster: u32,
    pub x_advance: i32,
    /// The sum of the horizontal advances of all glyphs before this one.
    pub x_total_advance: i32,
    pub y_advance: i32,
    pub x_offset: i32,
    pub y_offset: i32,
}

impl BubbleGlyph {
    /// The bubble, where there is one, stays within `COORD_LIMIT`.
    pub open spec fn wf(&self) -> bool {
        self.bubble_paths matches Some(paths) ==> paths_within(paths@, COORD_LIMIT as int)
    }

    /// How far right of the line's start the glyph is drawn.
    pub open spec fn placed_x(&self) -> int {
        self.x_total_advance + self.x_offset
    }

    /// A copy of the bubble, moved to where the glyph is drawn and then
    /// `starting_kern` further right; `None` where the glyph has no
    /// bubble.
    pub fn positioned_bubble_paths(&self, starting_kern: i64) -> (paths: Option<Vec<Path>>)
        requires
            self.wf(),
            -COORD_LIMIT <= starting_kern <= COORD_LIMIT,
        ensures
            paths is Some <==> self.bubble_paths is Some,
            paths matches Some(moved) ==> are_paths_moved(
                self.bubble_paths->Some_0@,
                self.placed_x() + starting_kern,
                self.y_offset as int,
                moved@,
            ) && all_segments(moved@) == segments_moved(
                all_segments(self.bubble_paths->Some_0@),
                self.placed_x() + starting_kern,
                self.y_offset as int,
            ),
    {
        match &self.bubble_paths {
            None => None,
            Some(bubble) => Some(
                translate_paths(
                    bubble,
                    self.x_total_advance as i64 + self.x_offset as i64 + starting_kern,
                    self.y_offset as i64,
                ),
            ),
        }
    }
}

} // verus!
