use outline_shaping::glyph::{GlyphExtents, GlyphRole, GulzarGlyph};
use outline_shaping::reach::{annotate_reach, check_reach_fits, reach_step, Reach, Stepped};

fn plain() -> GlyphRole {
    GlyphRole {
        dot_below: false,
        dot_above: false,
        tail: false,
        init: false,
        isol: false,
        fina: false,
        space: false,
    }
}

fn glyph(x_advance: i32, role: GlyphRole) -> GulzarGlyph {
    GulzarGlyph {
        codepoint: 1,
        name: String::new(),
        paths: vec![],
        cluster: 0,
        x_advance,
        x_total_advance: 0,
        y_advance: 0,
        x_offset: 0,
        y_offset: 0,
        in_bari_ye: false,
        extents: GlyphExtents { x_bearing: 0, y_bearing: 0, width: 0, height: 0 },
        contours: vec![],
        role,
    }
}

fn tail(x_advance: i32) -> GulzarGlyph {
    glyph(x_advance, GlyphRole { tail: true, ..plain() })
}

fn init(x_advance: i32) -> GulzarGlyph {
    glyph(x_advance, GlyphRole { init: true, ..plain() })
}

fn other(x_advance: i32) -> GulzarGlyph {
    glyph(x_advance, plain())
}

fn advances(buffer: &[GulzarGlyph]) -> Vec<i32> {
    buffer.iter().map(|g| g.x_advance).collect()
}

fn marks(buffer: &[GulzarGlyph]) -> Vec<bool> {
    buffer.iter().map(|g| g.in_bari_ye).collect()
}

#[test]
fn a_tail_starts_the_reach() {
    let idle = reach_step(Reach::Idle, true, 100, false, 30);
    assert_eq!(
        idle,
        Stepped { state: Reach::InReach { remaining: 100 }, x_advance: 30, in_reach: true }
    );
    // A tail inside a reach starts afresh, and is never widened.
    let inside = reach_step(Reach::InReach { remaining: 7 }, true, 100, true, 30);
    assert_eq!(
        inside,
        Stepped { state: Reach::InReach { remaining: 100 }, x_advance: 30, in_reach: true }
    );
}

#[test]
fn glyphs_use_up_the_reach_by_their_advance() {
    let step = reach_step(Reach::InReach { remaining: 100 }, false, 0, false, 30);
    assert_eq!(
        step,
        Stepped { state: Reach::InReach { remaining: 70 }, x_advance: 30, in_reach: true }
    );
    let last = reach_step(Reach::InReach { remaining: 30 }, false, 0, false, 30);
    assert_eq!(last, Stepped { state: Reach::Idle, x_advance: 30, in_reach: false });
    let over = reach_step(Reach::InReach { remaining: 10 }, false, 0, false, 30);
    assert_eq!(over, Stepped { state: Reach::Idle, x_advance: 30, in_reach: false });
}

#[test]
fn a_glyph_that_starts_a_group_is_widened_by_what_remains() {
    let step = reach_step(Reach::InReach { remaining: 40 }, false, 0, true, 50);
    assert_eq!(step, Stepped { state: Reach::Idle, x_advance: 90, in_reach: false });
    // With nothing left it is a glyph like any other.
    let spent = reach_step(Reach::InReach { remaining: 0 }, false, 0, true, 50);
    assert_eq!(spent, Stepped { state: Reach::Idle, x_advance: 50, in_reach: false });
    let owing = reach_step(Reach::InReach { remaining: -60 }, false, 0, true, -100);
    assert_eq!(
        owing,
        Stepped { state: Reach::InReach { remaining: 40 }, x_advance: -100, in_reach: true }
    );
}

#[test]
fn outside_a_reach_nothing_happens() {
    let step = reach_step(Reach::Idle, false, 999, true, 50);
    assert_eq!(step, Stepped { state: Reach::Idle, x_advance: 50, in_reach: false });
}

#[test]
fn a_walk_marks_and_widens() {
    let mut buffer = vec![other(10), tail(500), other(30), other(30), init(50), other(10)];
    let tails = vec![0, 100, 0, 0, 0, 0];
    assert!(check_reach_fits(&buffer, &tails));
    annotate_reach(&mut buffer, &tails);
    assert_eq!(marks(&buffer), vec![false, true, true, true, false, false]);
    assert_eq!(advances(&buffer), vec![10, 500, 30, 30, 90, 10]);
}

#[test]
fn a_reach_ends_when_it_is_used_up() {
    let mut buffer = vec![tail(0), other(30), other(30), init(50)];
    let tails = vec![50, 0, 0, 0];
    annotate_reach(&mut buffer, &tails);
    assert_eq!(marks(&buffer), vec![true, true, false, false]);
    assert_eq!(advances(&buffer), vec![0, 30, 30, 50]);
}

#[test]
fn a_tail_without_length_marks_itself_only() {
    let mut buffer = vec![tail(0), other(30), init(50)];
    let tails = vec![-20, 0, 0];
    annotate_reach(&mut buffer, &tails);
    assert_eq!(marks(&buffer), vec![true, false, false]);
    assert_eq!(advances(&buffer), vec![0, 30, 50]);
}

#[test]
fn a_mark_that_was_there_stays() {
    let mut buffer = vec![other(10), other(10)];
    buffer[1].in_bari_ye = true;
    annotate_reach(&mut buffer, &vec![0, 0]);
    assert_eq!(marks(&buffer), vec![false, true]);
}

#[test]
fn tail_lengths_of_other_glyphs_are_not_read() {
    let mut buffer = vec![other(10), tail(0), other(10)];
    annotate_reach(&mut buffer, &vec![777, 15, 888]);
    assert_eq!(marks(&buffer), vec![false, true, true]);
}

#[test]
fn a_widening_that_does_not_fit_is_told_beforehand() {
    let buffer = vec![tail(0), init(i32::MAX)];
    assert!(!check_reach_fits(&buffer, &vec![1, 0]));
    assert!(check_reach_fits(&buffer, &vec![0, 0]));
    let buffer = vec![tail(0), init(i32::MAX - 5)];
    assert!(check_reach_fits(&buffer, &vec![5, 0]));
    assert!(!check_reach_fits(&buffer, &vec![6, 0]));
    let buffer = vec![tail(0), other(-1)];
    assert!(!check_reach_fits(&buffer, &vec![i64::MAX, 0]));
    assert!(check_reach_fits(&buffer, &vec![i64::MAX - 1, 0]));
    assert!(check_reach_fits(&vec![], &vec![]));
}
