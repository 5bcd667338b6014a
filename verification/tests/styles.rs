use outline_shaping::bubblekern;
use outline_shaping::collision::Polyline;
use outline_shaping::geometry::{Path, Point, Segment};
use outline_shaping::glyph::{BubbleGlyph, GlyphExtents, GlyphRole, GulzarGlyph};
use outline_shaping::gulzar;
use outline_shaping::kern::ScaleFactor;
use outline_shaping::kerning::KernTally;
use outline_shaping::measure::CurveQuery;
use outline_shaping::nastaliq;
use outline_shaping::pipeline::Stage;
use outline_shaping::ruqaa;

fn pt(x: i64, y: i64) -> Point {
    Point { x, y }
}

fn line(x0: i64, y0: i64, x1: i64, y1: i64) -> Segment {
    Segment::Line { p0: pt(x0, y0), p1: pt(x1, y1) }
}

fn square(side: i64) -> Path {
    Path {
        segments: vec![
            line(0, 0, side, 0),
            line(side, 0, side, side),
            line(side, side, 0, side),
            line(0, side, 0, 0),
        ],
    }
}

fn plain() -> GlyphRole {
    GlyphRole {
        dot_below: false,
        dot_above: false,
        tail: false,
        init: false,
        isol: false,
        fina: false,
        space: false,
    }
}

fn block(name: &str, role: GlyphRole, x_advance: i32, side: i32) -> GulzarGlyph {
    let s = side as i64;
    GulzarGlyph {
        codepoint: 1,
        name: String::from(name),
        paths: vec![square(s)],
        cluster: 0,
        x_advance,
        x_total_advance: 0,
        y_advance: 0,
        x_offset: 0,
        y_offset: 0,
        in_bari_ye: false,
        extents: GlyphExtents { x_bearing: 0, y_bearing: side, width: side, height: -side },
        contours: vec![Polyline { points: vec![pt(0, 0), pt(s, 0), pt(s, s), pt(0, s)] }],
        role,
    }
}

fn with_totals(mut buffer: Vec<GulzarGlyph>) -> Vec<GulzarGlyph> {
    let mut total = 0;
    for g in buffer.iter_mut() {
        g.x_total_advance = total;
        total += g.x_advance;
    }
    buffer
}

fn never(_q: CurveQuery) -> u64 {
    panic!("two lines need no metric")
}

fn unit() -> ScaleFactor {
    ScaleFactor { x_scale: 1000, upem: 1000 }
}

fn half() -> ScaleFactor {
    ScaleFactor { x_scale: 500, upem: 1000 }
}

#[test]
fn nastaliq_constants_are_scaled() {
    let config = nastaliq::config(half(), 77);
    assert_eq!(config.kern.target_distance, 150);
    assert_eq!(config.kern.space_allowance, 240);
    assert!(!config.kern.stop_at_space);
    assert!(config.kern.only_tighten);
    assert!(config.kern.iterative);
    assert_eq!(config.kern.context, 2);
    assert_eq!(config.tail_drop, -75);
    assert_eq!(config.marks.below_delta, 25);
    assert_eq!(config.marks.above_delta, 25);
    assert_eq!(config.marks.below_window, 8);
    assert_eq!(config.marks.above_window, 6);
    assert_eq!(config.marks.max_passes, 77);
}

#[test]
fn nastaliq_tails_are_what_the_box_goes_on_behind_the_advance() {
    let mut a = block("a", plain(), 300, 10);
    a.extents.width = 1000;
    let b = block("b", plain(), -5, 10);
    assert_eq!(nastaliq::tail_lengths(&vec![a, b]), vec![1000 - 300 - 20, 10 + 5 - 20]);
    let mut wide = block("c", plain(), i32::MIN, 10);
    wide.extents.width = i32::MAX;
    assert_eq!(nastaliq::tail_lengths(&vec![wide]), vec![(1i64 << 32) - 1 - 20]);
}

#[test]
fn nastaliq_shapes_a_word_with_a_tail() {
    // A bari ye whose box goes on 620 behind its advance; the reach is 600.
    let mut bari_ye = block("bari ye", GlyphRole { tail: true, fina: true, ..plain() }, 100, 100);
    bari_ye.extents.width = 720;
    let medi = block("medi", plain(), 250, 100);
    let mut dot = block("dot", GlyphRole { dot_below: true, ..plain() }, 0, 10);
    dot.x_offset = -305;
    dot.y_offset = -5;
    let init = block("init", GlyphRole { init: true, ..plain() }, 200, 100);
    let mut buffer = with_totals(vec![bari_ye, medi, dot, init]);
    let report = nastaliq::shape(&mut buffer, unit(), 50, &never);
    assert_eq!(report.stage, Stage::Resolved);
    // The reach: 600, then 350 after the medial glyph and its dot; the glyph
    // that starts the group takes up what is left.
    let marks: Vec<bool> = buffer.iter().map(|g| g.in_bari_ye).collect();
    assert_eq!(marks, vec![true, true, true, false]);
    let advances: Vec<i32> = buffer.iter().map(|g| g.x_advance).collect();
    assert_eq!(advances, vec![100, 250, 0, 550]);
    let totals: Vec<i32> = buffer.iter().map(|g| g.x_total_advance).collect();
    assert_eq!(totals, vec![0, 100, 350, 350]);
    // The dot stood on the lower edge of the bari ye: it is set to its
    // height and 150 more.
    assert_eq!(buffer[2].y_offset, 140);
    assert_eq!(report.kerning.kerned, 0);
}

#[test]
fn gulzar_reads_roles_off_names() {
    let role = gulzar::role_by_name("BARI_YEf1");
    assert_eq!(role, GlyphRole { tail: true, fina: true, ..plain() });
    assert_eq!(gulzar::role_by_name("BEi1"), GlyphRole { init: true, ..plain() });
    assert_eq!(gulzar::role_by_name("ALIFu1"), GlyphRole { isol: true, ..plain() });
    assert_eq!(gulzar::role_by_name("JIMm2"), plain());
    assert_eq!(gulzar::role_by_name("space"), GlyphRole { space: true, ..plain() });
    assert_eq!(
        gulzar::role_by_name("dotbelow-ar"),
        GlyphRole { dot_below: true, ..plain() }
    );
    assert_eq!(
        gulzar::role_by_name("twodotsabove-ar"),
        GlyphRole { dot_above: true, ..plain() }
    );
    // Any name with an i in it starts a group.
    assert_eq!(
        gulzar::role_by_name("threedotsverticalabove-ar"),
        GlyphRole { dot_above: true, init: true, ..plain() }
    );
    assert_eq!(gulzar::role_by_name(""), plain());
}

#[test]
fn gulzar_constants_are_scaled() {
    let config = gulzar::config(half(), 9);
    assert_eq!(config.kern.target_distance, 75);
    assert_eq!(config.kern.space_allowance, 0);
    assert!(config.kern.stop_at_space);
    assert!(!config.kern.only_tighten);
    assert!(!config.kern.iterative);
    assert_eq!(config.tail_drop, 25);
    assert_eq!(config.marks.below_delta, 75);
    assert_eq!(config.marks.above_delta, 75);
    assert_eq!(config.marks.max_passes, 9);
}

#[test]
fn gulzar_tails_are_the_scaled_tail_and_the_advance() {
    let a = block("BARI_YEf1", plain(), -200, 10);
    let b = block("x", plain(), 40, 10);
    assert_eq!(gulzar::tail_lengths(&vec![a, b], half()), vec![316 - 200, 316 + 40]);
}

#[test]
fn gulzar_shapes_by_names() {
    let mut buffer = with_totals(vec![
        block("BEi1", plain(), 310, 100),
        block("ALIFf1", plain(), 200, 100),
    ]);
    let report = gulzar::shape(&mut buffer, unit(), 50, &never);
    assert_eq!(report.stage, Stage::Resolved);
    assert_eq!(report.kerning.kerned, 1);
    assert!(buffer[0].role.init);
    assert!(buffer[1].role.fina);
    // 210 apart, target 150: tightened by 60, in one shot.
    assert_eq!(buffer[0].x_advance, 250);
    assert_eq!(buffer[1].x_total_advance, 250);
}

#[test]
fn gulzar_may_loosen() {
    let mut buffer = with_totals(vec![
        block("BEi1", plain(), 110, 100),
        block("ALIFf1", plain(), 200, 100),
    ]);
    gulzar::shape(&mut buffer, unit(), 50, &never);
    // 10 apart, target 150.
    assert_eq!(buffer[0].x_advance, 250);
}

#[test]
fn ruqaa_reads_roles_off_names() {
    assert_eq!(ruqaa::role_by_name("beh-ar.init"), GlyphRole { init: true, ..plain() });
    assert_eq!(ruqaa::role_by_name("beh-ar.fina"), GlyphRole { fina: true, ..plain() });
    assert_eq!(ruqaa::role_by_name("beh-ar.medi"), plain());
    assert_eq!(ruqaa::role_by_name("alef-ar"), GlyphRole { isol: true, ..plain() });
    assert_eq!(ruqaa::role_by_name("dotbelow-ar"), GlyphRole { dot_below: true, ..plain() });
    assert_eq!(ruqaa::role_by_name("dotabove-ar"), GlyphRole { dot_above: true, ..plain() });
    assert_eq!(ruqaa::role_by_name("space"), GlyphRole { space: true, ..plain() });
    assert_eq!(ruqaa::role_by_name("BARI_YEf1"), plain());
}

#[test]
fn ruqaa_kerns_one_against_one() {
    let mut buffer = with_totals(vec![
        block("far-ar.medi", plain(), 0, 300),
        block("beh-ar.init", plain(), 310, 100),
        block("alef-ar", plain(), 200, 100),
        block("space", plain(), 300, 100),
        block("alef-ar", plain(), 200, 100),
    ]);
    let report = ruqaa::shape(&mut buffer, unit(), &never);
    assert_eq!(report.stage, ruqaa::Stage::Totalled);
    // The init is 210 from its partner; the glyph before it, though it
    // reaches further right, is left out. Target 100.
    // The first alef finds a space on its way and is left as it is.
    let advances: Vec<i32> = buffer.iter().map(|g| g.x_advance).collect();
    assert_eq!(advances, vec![0, 200, 200, 300, 200]);
    let totals: Vec<i32> = buffer.iter().map(|g| g.x_total_advance).collect();
    assert_eq!(totals, vec![0, 0, 200, 400, 700]);
    assert!(buffer[2].role.isol);
    assert_eq!(ruqaa::kern_config(half()).target_distance, 50);
}

#[test]
fn ruqaa_stops_where_the_buffer_is_out_of_range() {
    let mut far = block("beh-ar.init", plain(), 310, 100);
    far.y_offset = 0x100_0001;
    let mut buffer = with_totals(vec![far, block("alef-ar", plain(), 200, 100)]);
    let report = ruqaa::shape(&mut buffer, unit(), &never);
    assert_eq!(report.stage, ruqaa::Stage::Named);
    assert_eq!(report.kerning, KernTally { kerned: 0, unsupported: 0 });
    assert_eq!(buffer[0].x_advance, 310);
    assert!(buffer[0].role.init);
}

fn bubble(name: &str, x_total: i32, x_advance: i32, side: Option<i64>) -> BubbleGlyph {
    BubbleGlyph {
        codepoint: 1,
        name: String::from(name),
        bubble_paths: side.map(|s| vec![square(s)]),
        cluster: 0,
        x_advance,
        x_total_advance: x_total,
        y_advance: 0,
        x_offset: 0,
        y_offset: 0,
    }
}

#[test]
fn bubbles_are_found_by_name() {
    let names: Vec<String> =
        ["A", "B", "A.bubble", "B.bubble", "A.bubble", "C"].iter().map(|n| n.to_string()).collect();
    // Of two glyphs of one name the one with the higher number counts.
    assert_eq!(bubblekern::find_bubble(&names, "A"), Some(4));
    assert_eq!(bubblekern::find_bubble(&names, "B"), Some(3));
    assert_eq!(bubblekern::find_bubble(&names, "C"), None);
    assert_eq!(bubblekern::find_bubble(&names, "A.bubble"), None);
    assert_eq!(bubblekern::find_bubble(&vec![], "A"), None);
    assert_eq!(bubblekern::find_bubble(&vec![String::from(".bubble")], ""), Some(0));
}

#[test]
fn bubble_totals_add_up() {
    let mut buffer = vec![bubble("A", 9, 100, None), bubble("B", 9, 50, None), bubble("C", 9, 1, None)];
    assert!(bubblekern::advances_fit(&buffer));
    bubblekern::set_total_advance(&mut buffer);
    let totals: Vec<i32> = buffer.iter().map(|g| g.x_total_advance).collect();
    assert_eq!(totals, vec![0, 100, 150]);
    assert!(!bubblekern::advances_fit(&vec![bubble("A", 0, i32::MAX, None), bubble("B", 0, 1, None)]));
}

#[test]
fn neighbouring_bubbles_are_set_to_touch() {
    let mut buffer = vec![
        bubble("A", 0, 500, Some(300)),
        bubble("B", 500, 500, Some(300)),
        bubble("C", 1000, 500, None),
        bubble("D", 1500, 500, Some(300)),
    ];
    assert!(bubblekern::is_kernable(&buffer, unit(), 1000));
    let kerned = bubblekern::shape(&mut buffer, unit(), 1000, &never);
    // A ends at 300, B starts at 500 and is pushed to 700: 400 apart.
    // The kern is the push and what brings them together: 200 - 400.
    let advances: Vec<i32> = buffer.iter().map(|g| g.x_advance).collect();
    assert_eq!(advances, vec![300, 500, 500, 500]);
    assert_eq!(kerned, KernTally { kerned: 1, unsupported: 0 });
    let totals: Vec<i32> = buffer.iter().map(|g| g.x_total_advance).collect();
    assert_eq!(totals, vec![0, 500, 1000, 1500]);
}

#[test]
fn bubbles_are_held_at_the_floor() {
    let mut buffer = vec![bubble("A", 0, 5000, Some(300)), bubble("B", 5000, 500, Some(300))];
    bubblekern::shape(&mut buffer, unit(), 1000, &never);
    // 4900 apart after the push: the floor of -1000, and the push of 200.
    assert_eq!(buffer[0].x_advance, 5000 - 800);
    let mut scaled = vec![bubble("A", 0, 5000, Some(300)), bubble("B", 5000, 500, Some(300))];
    bubblekern::shape(&mut scaled, half(), 1000, &never);
    assert_eq!(scaled[0].x_advance, 5000 + 100 - 500);
}

#[test]
fn buffers_of_one_bubble_or_none_are_left_alone() {
    let mut one = vec![bubble("A", 0, 500, Some(300))];
    assert_eq!(bubblekern::shape(&mut one, unit(), 1000, &never).kerned, 0);
    assert_eq!(one[0].x_advance, 500);
    let mut none: Vec<BubbleGlyph> = vec![];
    assert_eq!(bubblekern::shape(&mut none, unit(), 1000, &never).kerned, 0);
}

#[test]
fn far_bubbles_are_not_kernable() {
    assert!(!bubblekern::is_kernable(&vec![bubble("A", 0x100_0001, 0, None)], unit(), 1000));
    assert!(!bubblekern::is_kernable(&vec![bubble("A", 0, 0, Some(0x100_0001))], unit(), 1000));
    assert!(!bubblekern::is_kernable(&vec![], ScaleFactor { x_scale: 1, upem: 0 }, 1000));
    assert!(bubblekern::is_kernable(&vec![], unit(), 1000));
}

#[test]
fn bubbles_are_held_at_the_floor_they_are_given() {
    let mut buffer = vec![bubble("A", 0, 5000, Some(300)), bubble("B", 5000, 500, Some(300))];
    assert!(bubblekern::is_kernable(&buffer, unit(), 250));
    let tally = bubblekern::shape(&mut buffer, unit(), 250, &never);
    // The floor of -250, and the push of 200.
    assert_eq!(buffer[0].x_advance, 5000 - 50);
    assert_eq!(tally, KernTally { kerned: 1, unsupported: 0 });
    assert!(!bubblekern::is_kernable(&buffer, unit(), u32::MAX));
}

#[test]
fn styles_allow_a_thousand_units_of_tightening() {
    assert_eq!(ruqaa::kern_config(unit()).floor_units, 1000);
    assert_eq!(gulzar::config(unit(), 9).kern.floor_units, 1000);
    assert_eq!(nastaliq::config(unit(), 9).kern.floor_units, 1000);
}
