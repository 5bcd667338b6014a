use outline_shaping::collision::Polyline;
use outline_shaping::geometry::Point;
use outline_shaping::glyph::{GlyphExtents, GlyphRole, GulzarGlyph};
use outline_shaping::marks::{
    all_are_wf, drops_all_fit, find_collision, first_hit, nudge_marks, offsets_all_have_room,
    place_tail_dots, resolve_marks, MarkConfig, MarkKind, MarkReport, Resolution,
};

fn pt(x: i64, y: i64) -> Point {
    Point { x, y }
}

fn plain() -> GlyphRole {
    GlyphRole {
        dot_below: false,
        dot_above: false,
        tail: false,
        init: false,
        isol: false,
        fina: false,
        space: false,
    }
}

fn block(side: i32, x_total: i32, y_offset: i32, role: GlyphRole) -> GulzarGlyph {
    let s = side as i64;
    GulzarGlyph {
        codepoint: 1,
        name: String::from("block"),
        paths: vec![],
        cluster: 0,
        x_advance: 0,
        x_total_advance: x_total,
        y_advance: 0,
        x_offset: 0,
        y_offset,
        in_bari_ye: false,
        extents: GlyphExtents { x_bearing: 0, y_bearing: side, width: side, height: -side },
        contours: vec![Polyline { points: vec![pt(0, 0), pt(s, 0), pt(s, s), pt(0, s)] }],
        role,
    }
}

fn dot_below(x_total: i32, y_offset: i32) -> GulzarGlyph {
    block(10, x_total, y_offset, GlyphRole { dot_below: true, ..plain() })
}

fn dot_above(x_total: i32, y_offset: i32) -> GulzarGlyph {
    block(10, x_total, y_offset, GlyphRole { dot_above: true, ..plain() })
}

fn letter(x_total: i32) -> GulzarGlyph {
    block(100, x_total, 0, plain())
}

fn offsets(buffer: &[GulzarGlyph]) -> Vec<i32> {
    buffer.iter().map(|g| g.y_offset).collect()
}

fn config(max_passes: usize) -> MarkConfig {
    MarkConfig { below_delta: 50, below_window: 8, above_delta: 50, above_window: 6, max_passes }
}

#[test]
fn two_dots_below_in_one_place_the_earlier_goes_down_once() {
    let mut buffer = vec![dot_below(0, 0), dot_below(0, 0)];
    assert_eq!(find_collision(&buffer, MarkKind::Below, 8), Some((1, 0)));
    let outcome = nudge_marks(&mut buffer, MarkKind::Below, -50, 8, 100);
    assert_eq!(outcome, Resolution { moves: 1, settled: true });
    assert_eq!(offsets(&buffer), vec![-50, 0]);
    assert_eq!(find_collision(&buffer, MarkKind::Below, 8), None);
    // And once more: nothing is left to do.
    let again = nudge_marks(&mut buffer, MarkKind::Below, -50, 8, 100);
    assert_eq!(again, Resolution { moves: 0, settled: true });
    assert_eq!(offsets(&buffer), vec![-50, 0]);
}

#[test]
fn two_dots_above_in_one_place_the_later_goes_up() {
    let mut buffer = vec![dot_above(0, 0), dot_above(0, 0)];
    assert_eq!(find_collision(&buffer, MarkKind::Above, 6), Some((1, 0)));
    let outcome = nudge_marks(&mut buffer, MarkKind::Above, 50, 6, 100);
    assert_eq!(outcome, Resolution { moves: 1, settled: true });
    assert_eq!(offsets(&buffer), vec![0, 50]);
}

#[test]
fn a_dot_below_that_hits_a_letter_goes_down_itself() {
    // The dot straddles the lower edge of the letter.
    let mut buffer = vec![letter(0), dot_below(45, -5)];
    assert_eq!(find_collision(&buffer, MarkKind::Below, 8), Some((1, 0)));
    let outcome = nudge_marks(&mut buffer, MarkKind::Below, -50, 8, 100);
    assert_eq!(outcome, Resolution { moves: 1, settled: true });
    assert_eq!(offsets(&buffer), vec![0, -55]);
}

#[test]
fn a_dot_below_gives_way_only_to_an_earlier_dot() {
    // The later dot is the first hit of the earlier one, seen from the
    // end of the buffer the later dot is scanned first.
    let mut buffer = vec![dot_below(0, 0), letter(500), dot_below(0, 0)];
    assert_eq!(find_collision(&buffer, MarkKind::Below, 8), Some((2, 0)));
    nudge_marks(&mut buffer, MarkKind::Below, -50, 8, 100);
    assert_eq!(offsets(&buffer), vec![-50, 0, 0]);
    // A dot above that is hit is no reason to give way.
    let mut buffer = vec![dot_above(0, 0), dot_below(0, 0)];
    assert_eq!(find_collision(&buffer, MarkKind::Below, 8), Some((1, 0)));
    nudge_marks(&mut buffer, MarkKind::Below, -50, 8, 100);
    assert_eq!(offsets(&buffer), vec![0, -50]);
}

#[test]
fn passes_take_dots_from_the_end_of_the_buffer_first() {
    // Both dots straddle the lower edge of their letters.
    let mut buffer = vec![letter(0), dot_below(45, -5), letter(1000), dot_below(1045, -5)];
    assert_eq!(find_collision(&buffer, MarkKind::Below, 8), Some((3, 2)));
    let one = nudge_marks(&mut buffer, MarkKind::Below, -50, 8, 1);
    assert_eq!(one, Resolution { moves: 1, settled: false });
    assert_eq!(offsets(&buffer), vec![0, -5, 0, -55]);
    let rest = nudge_marks(&mut buffer, MarkKind::Below, -50, 8, 5);
    assert_eq!(rest, Resolution { moves: 1, settled: true });
    assert_eq!(offsets(&buffer), vec![0, -55, 0, -55]);
}

#[test]
fn several_passes_move_a_dot_step_by_step() {
    // With steps of 3 a dot of 10 needs three passes until its box
    // only touches the box of the letter.
    let mut buffer = vec![letter(0), dot_below(45, -1)];
    let outcome = nudge_marks(&mut buffer, MarkKind::Below, -3, 8, 100);
    assert_eq!(outcome, Resolution { moves: 3, settled: true });
    assert_eq!(offsets(&buffer), vec![0, -10]);
}

#[test]
fn running_out_of_passes_leaves_the_rest_as_it_is() {
    let mut buffer = vec![letter(0), dot_below(45, -1)];
    let outcome = nudge_marks(&mut buffer, MarkKind::Below, -3, 8, 2);
    assert_eq!(outcome, Resolution { moves: 2, settled: false });
    assert_eq!(offsets(&buffer), vec![0, -7]);
    let none = nudge_marks(&mut buffer, MarkKind::Below, -3, 8, 0);
    assert_eq!(none, Resolution { moves: 0, settled: false });
    assert_eq!(offsets(&buffer), vec![0, -7]);
}

#[test]
fn a_step_of_nothing_never_settles() {
    let mut buffer = vec![dot_below(0, 0), dot_below(0, 0)];
    let outcome = nudge_marks(&mut buffer, MarkKind::Below, 0, 8, 7);
    assert_eq!(outcome, Resolution { moves: 7, settled: false });
    assert_eq!(offsets(&buffer), vec![0, 0]);
}

#[test]
fn the_window_reaches_eight_places_to_either_side() {
    let mut buffer: Vec<GulzarGlyph> = (0..20).map(|i| letter(1000 * (i + 1))).collect();
    buffer[10] = dot_below(0, 0);
    // Eight places on: seen.
    buffer[18] = block(10, 0, 0, plain());
    assert_eq!(first_hit(&buffer, 10, 8), Some(18));
    assert_eq!(first_hit(&buffer, 10, 7), None);
    // Eight places back: seen, and first.
    buffer[2] = block(10, 0, 0, plain());
    assert_eq!(first_hit(&buffer, 10, 8), Some(2));
    assert_eq!(first_hit(&buffer, 10, 7), None);
    // Nine places: not seen.
    buffer[2] = letter(50_000);
    buffer[18] = letter(60_000);
    buffer[1] = block(10, 0, 0, plain());
    buffer[19] = block(10, 0, 0, plain());
    assert_eq!(first_hit(&buffer, 10, 8), None);
    assert_eq!(first_hit(&buffer, 10, 9), Some(1));
    assert_eq!(first_hit(&buffer, 10, usize::MAX), Some(1));
}

#[test]
fn a_glyph_does_not_hit_itself() {
    let buffer = vec![dot_below(0, 0)];
    assert_eq!(first_hit(&buffer, 0, 8), None);
    assert_eq!(find_collision(&buffer, MarkKind::Below, 8), None);
    assert_eq!(find_collision(&vec![], MarkKind::Below, 8), None);
}

#[test]
fn the_last_glyph_of_the_buffer_is_looked_at_too() {
    let buffer = vec![dot_below(0, 0), block(10, 0, 0, plain())];
    assert_eq!(first_hit(&buffer, 0, 8), Some(1));
    assert_eq!(find_collision(&buffer, MarkKind::Below, 8), Some((0, 1)));
}

#[test]
fn only_dots_of_the_kind_are_scanned() {
    let buffer = vec![letter(0), dot_above(45, -5)];
    assert_eq!(find_collision(&buffer, MarkKind::Below, 8), None);
    assert_eq!(find_collision(&buffer, MarkKind::Above, 6), Some((1, 0)));
}

#[test]
fn resolving_leaves_a_buffer_without_collisions_as_it_is() {
    let mut buffer = vec![
        letter(0),
        dot_below(45, -60),
        dot_above(45, 160),
        letter(1000),
        dot_below(1045, -300),
    ];
    let before = offsets(&buffer);
    let report = resolve_marks(&mut buffer, &config(100));
    assert_eq!(
        report,
        MarkReport {
            below: Resolution { moves: 0, settled: true },
            above: Resolution { moves: 0, settled: true },
        }
    );
    assert_eq!(offsets(&buffer), before);
    assert_eq!(buffer[3].x_total_advance, 1000);
}

#[test]
fn resolving_moves_dots_below_down_and_dots_above_up() {
    let mut buffer = vec![letter(0), dot_below(45, -5), dot_above(45, 95)];
    let report = resolve_marks(&mut buffer, &config(100));
    assert_eq!(
        report,
        MarkReport {
            below: Resolution { moves: 1, settled: true },
            above: Resolution { moves: 1, settled: true },
        }
    );
    assert_eq!(offsets(&buffer), vec![0, -55, 145]);
    // Running it again changes nothing.
    let again = resolve_marks(&mut buffer, &config(100));
    assert_eq!(again.below.moves + again.above.moves, 0);
    assert_eq!(offsets(&buffer), vec![0, -55, 145]);
}

#[test]
fn room_is_needed_for_all_the_passes_allowed() {
    let buffer = vec![dot_below(0, i32::MIN + 500)];
    assert!(offsets_all_have_room(&buffer, &config(10)));
    assert!(!offsets_all_have_room(&buffer, &config(11)));
    let buffer = vec![dot_below(0, i32::MAX - 500)];
    assert!(offsets_all_have_room(&buffer, &config(10)));
    assert!(!offsets_all_have_room(&buffer, &config(11)));
    assert!(offsets_all_have_room(&vec![], &config(usize::MAX)));
    let still = MarkConfig { below_delta: 0, above_delta: 0, ..config(usize::MAX) };
    assert!(offsets_all_have_room(&buffer, &still));
}

#[test]
fn a_dot_on_a_tail_is_set_to_its_height_less_the_drop() {
    let tail = block(100, 0, 0, GlyphRole { tail: true, ..plain() });
    let mut on_tail = dot_below(45, -5);
    on_tail.in_bari_ye = true;
    let mut buffer = vec![tail, on_tail];
    assert!(all_are_wf(&buffer));
    assert!(drops_all_fit(&buffer, -150));
    place_tail_dots(&mut buffer, -150);
    // The height of the dot is -10.
    assert_eq!(offsets(&buffer), vec![0, 140]);
}

#[test]
fn only_dots_below_in_reach_that_hit_the_tail_are_set() {
    let tail = || block(100, 0, 0, GlyphRole { tail: true, ..plain() });
    let marked = |mut g: GulzarGlyph| {
        g.in_bari_ye = true;
        g
    };
    let mut buffer = vec![
        dot_below(45, -5),         // before any tail
        tail(),                    //
        dot_below(45, -5),         // not in reach
        marked(dot_above(45, -5)), // not a dot below
        marked(dot_below(45, 40)), // inside the tail, no edge crossed
        marked(dot_below(45, -5)), // the one
        tail(),                    // a second tail, far off
        marked(dot_below(45, -5)), // hits the first tail, not the last
    ];
    buffer[6].x_total_advance = 5000;
    buffer[0].in_bari_ye = true;
    place_tail_dots(&mut buffer, 7);
    assert_eq!(offsets(&buffer), vec![-5, 0, -5, -5, 40, -17, 0, -5]);
}

#[test]
fn drops_must_fit_an_offset() {
    let mut g = dot_below(0, 0);
    g.extents.height = i32::MIN;
    // The height of a dot is -10.
    assert!(drops_all_fit(&vec![dot_below(0, 0)], i32::MAX - 9));
    assert!(!drops_all_fit(&vec![dot_below(0, 0)], i32::MAX - 8));
    assert!(drops_all_fit(&vec![dot_below(0, 0)], i32::MIN));
    assert!(!drops_all_fit(&vec![g], 1));
    assert!(drops_all_fit(&vec![], 1));
}
