use outline_shaping::collision::{flattening_tolerance, intersects, segments_cross, Polyline};
use outline_shaping::geometry::{Point, Rect};
use outline_shaping::glyph::{GlyphExtents, GlyphRole, GulzarGlyph};

fn pt(x: i64, y: i64) -> Point {
    Point { x, y }
}

fn ring(points: &[(i64, i64)]) -> Polyline {
    Polyline { points: points.iter().map(|&(x, y)| pt(x, y)).collect() }
}

fn square(side: i64) -> Polyline {
    ring(&[(0, 0), (side, 0), (side, side), (0, side)])
}

fn plain() -> GlyphRole {
    GlyphRole {
        dot_below: false,
        dot_above: false,
        tail: false,
        init: false,
        isol: false,
        fina: false,
        space: false,
    }
}

fn block(side: i32, x_total: i32, x_offset: i32, y_offset: i32) -> GulzarGlyph {
    GulzarGlyph {
        codepoint: 1,
        name: String::from("block"),
        paths: vec![],
        cluster: 0,
        x_advance: side,
        x_total_advance: x_total,
        y_advance: 0,
        x_offset,
        y_offset,
        in_bari_ye: false,
        extents: GlyphExtents { x_bearing: 0, y_bearing: side, width: side, height: -side },
        contours: vec![square(side as i64)],
        role: plain(),
    }
}

#[test]
fn tolerance_is_ten_times_the_scale() {
    assert_eq!(flattening_tolerance(64), 640);
    assert_eq!(flattening_tolerance(0), 0);
    assert_eq!(flattening_tolerance(i32::MAX), 10 * (i32::MAX as i64));
}

#[test]
fn edges_that_cross_in_the_middle() {
    assert!(segments_cross(&pt(0, 0), &pt(10, 10), &pt(0, 10), &pt(10, 0)));
    assert!(segments_cross(&pt(0, 10), &pt(10, 0), &pt(0, 0), &pt(10, 10)));
}

#[test]
fn edges_that_stop_short_do_not_cross() {
    assert!(!segments_cross(&pt(0, 0), &pt(4, 4), &pt(0, 10), &pt(10, 0)));
    assert!(!segments_cross(&pt(0, 10), &pt(10, 0), &pt(0, 0), &pt(4, 4)));
    assert!(!segments_cross(&pt(0, 0), &pt(10, 0), &pt(5, 1), &pt(5, 9)));
}

#[test]
fn edges_that_touch_at_an_end_cross() {
    assert!(segments_cross(&pt(0, 0), &pt(5, 5), &pt(0, 10), &pt(10, 0)));
    assert!(segments_cross(&pt(0, 0), &pt(10, 0), &pt(10, 0), &pt(10, 10)));
    assert!(segments_cross(&pt(0, 0), &pt(10, 0), &pt(5, 0), &pt(5, 9)));
}

#[test]
fn parallel_edges_never_cross() {
    assert!(!segments_cross(&pt(0, 0), &pt(10, 0), &pt(0, 1), &pt(10, 1)));
    // not even where they lie on one another
    assert!(!segments_cross(&pt(0, 0), &pt(10, 0), &pt(5, 0), &pt(15, 0)));
    assert!(!segments_cross(&pt(0, 0), &pt(10, 0), &pt(0, 0), &pt(10, 0)));
    // nor an edge without length
    assert!(!segments_cross(&pt(3, 3), &pt(3, 3), &pt(0, 0), &pt(10, 10)));
}

#[test]
fn crossing_works_far_from_the_origin() {
    let far = 1i64 << 40;
    assert!(segments_cross(&pt(-far, -far), &pt(far, far), &pt(-far, far), &pt(far, -far)));
    assert!(!segments_cross(&pt(-far, -far), &pt(far, far), &pt(-far, far), &pt(-1, 1)));
}

#[test]
fn polylines_cross_where_edges_cross() {
    let a = ring(&[(0, 0), (10, 0), (10, 10), (0, 10)]);
    let b = ring(&[(5, 5), (15, 5), (15, 15), (5, 15)]);
    assert!(intersects(&a, &b));
    assert!(intersects(&b, &a));
    let c = ring(&[(20, 0), (30, 0), (30, 10), (20, 10)]);
    assert!(!intersects(&a, &c));
}

#[test]
fn a_polyline_inside_another_does_not_cross_it() {
    let outer = ring(&[(0, 0), (100, 0), (100, 100), (0, 100)]);
    let inner = ring(&[(40, 40), (60, 40), (60, 60), (40, 60)]);
    assert!(!intersects(&outer, &inner));
    assert!(!intersects(&inner, &outer));
}

#[test]
fn the_closing_edge_counts() {
    // An open hook: only the edge from the last back to the first
    // corner, from (10, 10) to (0, 0), meets the probe.
    let hook = ring(&[(0, 0), (20, 0), (20, 10), (10, 10)]);
    let probe = ring(&[(2, 8), (8, 2), (8, 8)]);
    assert!(intersects(&hook, &probe));
    assert!(intersects(&probe, &hook));
    // Without that closing edge nothing would be met.
    let apart = ring(&[(7, 3), (8, 2), (8, 3)]);
    assert!(!intersects(&hook, &apart));
}

#[test]
fn polylines_of_few_corners() {
    let none = ring(&[]);
    let dot = ring(&[(5, 5)]);
    let stroke = ring(&[(0, 0), (10, 10)]);
    let other = ring(&[(0, 10), (10, 0)]);
    assert!(!intersects(&none, &stroke));
    assert!(!intersects(&stroke, &none));
    assert!(!intersects(&dot, &stroke));
    assert!(intersects(&stroke, &other));
}

#[test]
fn bounding_box_follows_the_glyph() {
    let g = block(100, 600, 7, -20);
    assert_eq!(g.bounding_box(), Rect { x0: 607, y0: -20, x1: 707, y1: 80 });
    let mut odd = block(100, 0, 0, 0);
    odd.extents = GlyphExtents { x_bearing: -10, y_bearing: 90, width: 30, height: -120 };
    assert_eq!(odd.bounding_box(), Rect { x0: -10, y0: -30, x1: 20, y1: 90 });
    let mut wide = block(100, i32::MAX, i32::MAX, i32::MIN);
    wide.extents = GlyphExtents {
        x_bearing: i32::MAX,
        y_bearing: i32::MIN,
        width: i32::MAX,
        height: i32::MAX,
    };
    let m = i32::MAX as i64;
    assert_eq!(wide.bounding_box(), Rect { x0: 3 * m, y0: -2 - 2 * m, x1: 4 * m, y1: -2 - m });
}

#[test]
fn glyphs_five_hundred_apart_do_not_collide() {
    let a = block(100, 0, 0, 0);
    let b = block(100, 600, 0, 0);
    assert!(!a.collides(&b));
    assert!(!b.collides(&a));
}

#[test]
fn glyphs_moved_over_one_another_collide() {
    let a = block(100, 0, 0, 0);
    let mut b = block(100, 600, 0, 0);
    assert!(!a.collides(&b));
    b.x_offset = -550;
    b.y_offset = 50;
    assert!(a.collides(&b));
    assert!(b.collides(&a));
}

#[test]
fn boxes_that_only_touch_do_not_collide() {
    let a = block(100, 0, 0, 0);
    let b = block(100, 100, 0, 0);
    // The outlines share an edge, but the boxes share no area.
    assert!(!a.collides(&b));
}

#[test]
fn disjoint_boxes_settle_it_before_the_ink_is_looked_at() {
    // The ink of both reaches far outside their boxes and crosses.
    let mut a = block(10, 0, 0, 0);
    let mut b = block(10, 500, 0, 0);
    a.contours = vec![ring(&[(0, 0), (1000, 1000), (0, 1000)])];
    b.contours = vec![ring(&[(-500, 1000), (500, 0), (500, 1000)])];
    assert!(intersects(&a.contours[0], &ring(&[(0, 1000), (1000, 0), (1000, 1000)])));
    assert!(!a.collides(&b));
    // With overlapping boxes the same ink collides.
    b.x_total_advance = 5;
    b.contours = vec![ring(&[(-5, 1000), (995, 0), (995, 1000)])];
    assert!(a.collides(&b));
}

#[test]
fn overlapping_boxes_without_crossing_ink_do_not_collide() {
    let mut a = block(100, 0, 0, 0);
    let mut b = block(100, 10, 0, 10);
    a.contours = vec![ring(&[(0, 0), (10, 0), (10, 10), (0, 10)])];
    b.contours = vec![ring(&[(50, 50), (60, 50), (60, 60), (50, 60)])];
    assert!(!a.collides(&b));
    a.contours = vec![];
    assert!(!a.collides(&b));
    assert!(!b.collides(&a));
}

#[test]
fn any_pair_of_contours_may_collide() {
    let mut a = block(100, 0, 0, 0);
    let mut b = block(100, 10, 0, 10);
    a.contours = vec![
        ring(&[(0, 0), (10, 0), (10, 10), (0, 10)]),
        ring(&[(80, 80), (90, 80), (90, 90), (80, 90)]),
    ];
    // Placed at (10, 10): the second contour lands on the second of a.
    b.contours = vec![
        ring(&[(40, 40), (45, 40), (45, 45)]),
        ring(&[(65, 65), (75, 65), (75, 75), (65, 75)]),
    ];
    assert!(a.collides(&b));
    assert!(b.collides(&a));
}
