use outline_shaping::collision::Polyline;
use outline_shaping::geometry::{Path, Point, Segment};
use outline_shaping::glyph::{GlyphExtents, GlyphRole, GulzarGlyph};
use outline_shaping::kern::ScaleFactor;
use outline_shaping::kerning::{KernConfig, KernTally};
use outline_shaping::marks::{MarkConfig, MarkReport, Resolution};
use outline_shaping::measure::CurveQuery;
use outline_shaping::pipeline::{shape_buffer, ShapeConfig, ShapeReport, Stage};

fn pt(x: i64, y: i64) -> Point {
    Point { x, y }
}

fn line(x0: i64, y0: i64, x1: i64, y1: i64) -> Segment {
    Segment::Line { p0: pt(x0, y0), p1: pt(x1, y1) }
}

fn plain() -> GlyphRole {
    GlyphRole {
        dot_below: false,
        dot_above: false,
        tail: false,
        init: false,
        isol: false,
        fina: false,
        space: false,
    }
}

fn block(role: GlyphRole, x_advance: i32, side: i32) -> GulzarGlyph {
    let s = side as i64;
    GulzarGlyph {
        codepoint: 1,
        name: String::new(),
        paths: vec![Path {
            segments: vec![line(0, 0, s, 0), line(s, 0, s, s), line(s, s, 0, s), line(0, s, 0, 0)],
        }],
        cluster: 0,
        x_advance,
        x_total_advance: 0,
        y_advance: 0,
        x_offset: 0,
        y_offset: 0,
        in_bari_ye: false,
        extents: GlyphExtents { x_bearing: 0, y_bearing: side, width: side, height: -side },
        contours: vec![Polyline { points: vec![pt(0, 0), pt(s, 0), pt(s, s), pt(0, s)] }],
        role,
    }
}

fn with_totals(mut buffer: Vec<GulzarGlyph>) -> Vec<GulzarGlyph> {
    let mut total = 0;
    for g in buffer.iter_mut() {
        g.x_total_advance = total;
        total += g.x_advance;
    }
    buffer
}

fn never(_q: CurveQuery) -> u64 {
    panic!("two lines need no metric")
}

fn unit() -> ScaleFactor {
    ScaleFactor { x_scale: 1000, upem: 1000 }
}

fn config() -> ShapeConfig {
    ShapeConfig {
        kern: KernConfig {
            target_distance: 50,
            space_allowance: 480,
            stop_at_space: false,
            only_tighten: true,
            context: 2,
            iterative: true,
            max_tuck: 0,
            floor_units: 1000,
        },
        tail_drop: -150,
        marks: MarkConfig {
            below_delta: 50,
            below_window: 8,
            above_delta: 50,
            above_window: 6,
            max_passes: 100,
        },
    }
}

fn init() -> GlyphRole {
    GlyphRole { init: true, ..plain() }
}

fn fina() -> GlyphRole {
    GlyphRole { fina: true, ..plain() }
}

#[test]
fn all_stages_run_on_a_buffer_within_range() {
    let mut dot = block(GlyphRole { dot_below: true, ..plain() }, 0, 10);
    // Once the letters are kerned the dot stands at 195.
    dot.x_offset = -155;
    dot.y_offset = -5;
    let mut buffer = with_totals(vec![block(init(), 310, 100), block(fina(), 200, 100), dot]);
    let tails = vec![0, 0, 0];
    let report = shape_buffer(&mut buffer, &tails, &config(), unit(), &never);
    assert_eq!(
        report,
        ShapeReport {
            stage: Stage::Resolved,
            kerning: KernTally { kerned: 1, unsupported: 0 },
            marks: MarkReport {
                below: Resolution { moves: 1, settled: true },
                above: Resolution { moves: 0, settled: true },
            },
        }
    );
    // The letters were 210 apart, the target is 50.
    let advances: Vec<i32> = buffer.iter().map(|g| g.x_advance).collect();
    assert_eq!(advances, vec![150, 200, 0]);
    let totals: Vec<i32> = buffer.iter().map(|g| g.x_total_advance).collect();
    assert_eq!(totals, vec![0, 150, 350]);
    // The dot straddled the lower edge of the second letter and went down.
    let offsets: Vec<i32> = buffer.iter().map(|g| g.y_offset).collect();
    assert_eq!(offsets, vec![0, 0, -55]);
}

#[test]
fn a_dot_on_a_tail_is_set_and_then_left_alone() {
    let tail = block(GlyphRole { tail: true, fina: true, ..plain() }, 0, 100);
    let mut dot = block(GlyphRole { dot_below: true, ..plain() }, 0, 10);
    dot.x_offset = 45;
    dot.y_offset = -5;
    let mut buffer = with_totals(vec![tail, dot]);
    let tails = vec![500, 0];
    let report = shape_buffer(&mut buffer, &tails, &config(), unit(), &never);
    assert_eq!(report.stage, Stage::Resolved);
    assert_eq!((report.marks.below.moves, report.marks.above.moves), (0, 0));
    assert!(buffer[0].in_bari_ye && buffer[1].in_bari_ye);
    // Height -10 less the drop of -150.
    assert_eq!(buffer[1].y_offset, 140);
}

#[test]
fn a_reach_that_does_not_fit_stops_the_work_before_it_begins() {
    let tail = block(GlyphRole { tail: true, ..plain() }, 0, 10);
    let mut buffer = with_totals(vec![tail, block(init(), i32::MAX, 10)]);
    let tails = vec![5, 0];
    let report = shape_buffer(&mut buffer, &tails, &config(), unit(), &never);
    assert_eq!(report.stage, Stage::Untouched);
    assert_eq!(report.marks.above, Resolution { moves: 0, settled: false });
    assert!(!buffer[0].in_bari_ye);
    assert_eq!(buffer[1].x_advance, i32::MAX);
}

#[test]
fn a_buffer_out_of_range_is_marked_and_aligned_and_not_kerned() {
    let tail = block(GlyphRole { tail: true, ..plain() }, 100, 10);
    let mut far = block(init(), 500, 10);
    far.x_offset = 0x100_0001;
    let mut buffer = with_totals(vec![tail, block(plain(), 10, 10), far, block(fina(), 10, 10)]);
    let tails = vec![30, 0, 0, 0];
    let report = shape_buffer(&mut buffer, &tails, &config(), unit(), &never);
    assert_eq!(report.stage, Stage::Aligned);
    assert_eq!(report.kerning, KernTally { kerned: 0, unsupported: 0 });
    let marks: Vec<bool> = buffer.iter().map(|g| g.in_bari_ye).collect();
    assert_eq!(marks, vec![true, true, false, false]);
    // The glyph that starts a group was widened by what was left of the reach.
    let advances: Vec<i32> = buffer.iter().map(|g| g.x_advance).collect();
    assert_eq!(advances, vec![100, 10, 520, 10]);
    // The running totals follow the widened advance.
    let totals: Vec<i32> = buffer.iter().map(|g| g.x_total_advance).collect();
    assert_eq!(totals, vec![0, 100, 110, 630]);
}

#[test]
fn widened_advances_that_add_up_too_far_stop_the_work_after_marking() {
    let tail = block(GlyphRole { tail: true, ..plain() }, i32::MAX - 100, 10);
    let mut buffer = with_totals(vec![tail, block(init(), 90, 10)]);
    let before: Vec<i32> = buffer.iter().map(|g| g.x_total_advance).collect();
    let report = shape_buffer(&mut buffer, &vec![20, 0], &config(), unit(), &never);
    // The second glyph is widened to 110, and the sum leaves the range.
    assert_eq!(report.stage, Stage::Annotated);
    assert_eq!(buffer[1].x_advance, 110);
    let totals: Vec<i32> = buffer.iter().map(|g| g.x_total_advance).collect();
    assert_eq!(totals, before);
}

#[test]
fn kerned_advances_that_add_up_too_far_stop_the_work_after_kerning() {
    let a = block(init(), 0x4000_0000, 10);
    let mut b = block(fina(), 0x4000_0000 - 11, 10);
    // Drawn at 30, which is 20 behind the end of the first glyph.
    b.x_offset = -0x4000_0000 + 30;
    let mut c = block(plain(), 0, 10);
    c.x_offset = i32::MIN + 500;
    let mut buffer = vec![a, b, c];
    let loosening = ShapeConfig {
        kern: KernConfig { only_tighten: false, ..config().kern },
        ..config()
    };
    let report = shape_buffer(&mut buffer, &vec![0, 0, 0], &loosening, unit(), &never);
    // Loosened by 30 to reach the target of 50: too wide to add up.
    assert_eq!(report.stage, Stage::Kerned);
    assert_eq!(report.kerning, KernTally { kerned: 1, unsupported: 0 });
    assert_eq!(buffer[0].x_advance, 0x4000_0000 + 30);
    let totals: Vec<i32> = buffer.iter().map(|g| g.x_total_advance).collect();
    assert_eq!(totals, vec![0, 0x4000_0000, i32::MAX - 10]);
}

#[test]
fn offsets_without_room_stop_the_work_before_the_passes() {
    let mut dot = block(GlyphRole { dot_below: true, ..plain() }, 0, 10);
    dot.y_offset = -5;
    let mut buffer = with_totals(vec![block(plain(), 0, 100), dot]);
    let tails = vec![0, 0];
    // A hundred million passes of 50 each would leave the range.
    let many = ShapeConfig {
        marks: MarkConfig { max_passes: 100_000_000, ..config().marks },
        ..config()
    };
    let report = shape_buffer(&mut buffer, &tails, &many, unit(), &never);
    assert_eq!(report.stage, Stage::Placed);
    assert_eq!(buffer[1].y_offset, -5);
    let report = shape_buffer(&mut buffer, &tails, &config(), unit(), &never);
    assert_eq!(report.stage, Stage::Resolved);
    assert_eq!(buffer[1].y_offset, -55);
}

#[test]
fn an_empty_buffer_passes_every_stage() {
    let mut buffer: Vec<GulzarGlyph> = vec![];
    let report = shape_buffer(&mut buffer, &vec![], &config(), unit(), &never);
    assert_eq!(
        report,
        ShapeReport {
            stage: Stage::Resolved,
            kerning: KernTally { kerned: 0, unsupported: 0 },
            marks: MarkReport {
                below: Resolution { moves: 0, settled: true },
                above: Resolution { moves: 0, settled: true },
            },
        }
    );
}

#[test]
fn running_totals_need_not_be_up_to_date_when_the_buffer_comes_in() {
    let mut buffer = vec![block(init(), 310, 100), block(fina(), 200, 100)];
    buffer[0].x_total_advance = 12345;
    buffer[1].x_total_advance = -999;
    let report = shape_buffer(&mut buffer, &vec![0, 0], &config(), unit(), &never);
    assert_eq!(report.stage, Stage::Resolved);
    assert_eq!(report.kerning, KernTally { kerned: 1, unsupported: 0 });
    let advances: Vec<i32> = buffer.iter().map(|g| g.x_advance).collect();
    assert_eq!(advances, vec![150, 200]);
    let totals: Vec<i32> = buffer.iter().map(|g| g.x_total_advance).collect();
    assert_eq!(totals, vec![0, 150]);
}

#[test]
fn kerning_sees_the_advances_that_marking_has_widened() {
    // The reach of the tail widens the second glyph by 300, which moves
    // the third glyph away from it.
    let tail = block(GlyphRole { tail: true, ..plain() }, 0, 10);
    let mut buffer = with_totals(vec![tail, block(init(), 110, 100), block(fina(), 100, 100)]);
    let report = shape_buffer(&mut buffer, &vec![300, 0, 0], &config(), unit(), &never);
    assert_eq!(report.stage, Stage::Resolved);
    // Widened to 410, which leaves the third glyph 310 away; kerned by -260.
    let advances: Vec<i32> = buffer.iter().map(|g| g.x_advance).collect();
    assert_eq!(advances, vec![0, 150, 100]);
    assert_eq!(report.kerning, KernTally { kerned: 1, unsupported: 0 });
}
