use outline_shaping::glyph::{GlyphExtents, GlyphRole, GulzarGlyph};
use outline_shaping::kern::ScaleFactor;
use outline_shaping::measure::CurveQuery;
use outline_shaping::ruqaa;
use outline_shaping::words::{find_words, lift_buffer_words, lift_words, lifts_all_fit, Word};

fn named(name: &str, y_offset: i32) -> GulzarGlyph {
    GulzarGlyph {
        codepoint: 1,
        name: String::from(name),
        paths: vec![],
        cluster: 0,
        x_advance: 100,
        x_total_advance: 0,
        y_advance: 0,
        x_offset: 0,
        y_offset,
        in_bari_ye: false,
        extents: GlyphExtents { x_bearing: 0, y_bearing: 0, width: 0, height: 0 },
        contours: vec![],
        role: GlyphRole {
            dot_below: false,
            dot_above: false,
            tail: false,
            init: false,
            isol: false,
            fina: false,
            space: false,
        },
    }
}

fn offsets(buffer: &[GulzarGlyph]) -> Vec<i32> {
    buffer.iter().map(|g| g.y_offset).collect()
}

fn two_words() -> Vec<GulzarGlyph> {
    vec![
        named("lam-ar.fina", 0),
        named("meem-ar.medi", 7),
        named("beh-ar.init", -100),
        named("alef-ar.fina", 0),
        named("kaf-ar.init", 60),
    ]
}

#[test]
fn words_reach_from_a_start_back_to_the_nearest_end() {
    assert_eq!(
        find_words(&two_words()),
        Some(vec![
            Word { start: 4, end: 3, shift: -30 },
            Word { start: 2, end: 0, shift: 50 },
        ])
    );
}

#[test]
fn the_shift_is_half_the_offset_cut_toward_zero() {
    let word = |y: i32| find_words(&vec![named("a.fina", 0), named("b.init", y)]).unwrap()[0].shift;
    assert_eq!(word(-5), 2);
    assert_eq!(word(5), -2);
    assert_eq!(word(-1), 0);
    assert_eq!(word(1), 0);
    assert_eq!(word(0), 0);
    assert_eq!(word(i32::MIN), 1 << 30);
    assert_eq!(word(i32::MAX), -((1 << 30) - 1));
}

#[test]
fn glyphs_between_words_belong_to_none() {
    let buffer = vec![
        named("a.fina", 1),
        named("b.init", -10),
        named("space", 2),
        named("alef-ar", 3),
        named("c.fina", 4),
        named("dot", 5),
        named("d.init", -20),
        named("tail", 6),
    ];
    assert_eq!(
        find_words(&buffer),
        Some(vec![Word { start: 6, end: 4, shift: 10 }, Word { start: 1, end: 0, shift: 5 }])
    );
    let mut buffer = buffer;
    assert!(lift_buffer_words(&mut buffer));
    assert_eq!(offsets(&buffer), vec![6, -5, 2, 3, 14, 15, -10, 6]);
}

#[test]
fn the_first_glyph_is_never_the_start_of_a_word() {
    assert_eq!(find_words(&vec![named("a.init", -10)]), Some(vec![]));
    assert_eq!(find_words(&vec![]), Some(vec![]));
    assert_eq!(find_words(&vec![named("a.init", -10), named("b.medi", 0)]), Some(vec![]));
}

#[test]
fn a_start_without_an_end_before_it_has_no_word() {
    assert_eq!(find_words(&vec![named("a.medi", 0), named("b.init", -10)]), None);
    assert_eq!(find_words(&vec![named("a.init", 0), named("b.init", -10)]), None);
    // An end behind the start does not help.
    assert_eq!(
        find_words(&vec![named("a.medi", 0), named("b.init", -10), named("c.fina", 0)]),
        None
    );
    let mut buffer = vec![named("a.medi", 0), named("b.init", -10)];
    assert!(!lift_buffer_words(&mut buffer));
    assert_eq!(offsets(&buffer), vec![0, -10]);
}

#[test]
fn a_glyph_that_starts_and_ends_a_word_has_no_word() {
    assert_eq!(find_words(&vec![named("a.fina", 0), named("b.init.fina", -10)]), None);
    assert_eq!(find_words(&vec![named("a.fina", 0), named("b.fina.init", -10)]), None);
}

#[test]
fn lifting_moves_every_glyph_of_a_word() {
    let mut buffer = two_words();
    assert!(lift_buffer_words(&mut buffer));
    assert_eq!(offsets(&buffer), vec![50, 57, -50, -30, 30]);
    // Nothing but the offsets has changed.
    assert_eq!(buffer[2].name, "beh-ar.init");
    assert_eq!(buffer[2].x_advance, 100);
}

#[test]
fn lifting_by_given_words() {
    let mut buffer = vec![named("a", 1), named("b", 2), named("c", 3), named("d", 4)];
    let words = vec![Word { start: 3, end: 2, shift: 10 }, Word { start: 1, end: 0, shift: -10 }];
    assert!(lifts_all_fit(&buffer, &words));
    lift_words(&mut buffer, &words);
    assert_eq!(offsets(&buffer), vec![-9, -8, 13, 14]);
    let mut buffer = vec![named("a", 1)];
    lift_words(&mut buffer, &vec![]);
    assert_eq!(offsets(&buffer), vec![1]);
}

#[test]
fn a_lift_that_does_not_fit_leaves_the_buffer_alone() {
    let mut buffer =
        vec![named("a.fina", i32::MAX - 4), named("b.medi", 0), named("c.init", -10)];
    assert_eq!(find_words(&buffer), Some(vec![Word { start: 2, end: 0, shift: 5 }]));
    assert!(!lifts_all_fit(&buffer, &vec![Word { start: 2, end: 0, shift: 5 }]));
    assert!(!lift_buffer_words(&mut buffer));
    assert_eq!(offsets(&buffer), vec![i32::MAX - 4, 0, -10]);
    buffer[0].y_offset = i32::MAX - 5;
    assert!(lift_buffer_words(&mut buffer));
    assert_eq!(offsets(&buffer), vec![i32::MAX, 5, -5]);
}

fn never(_q: CurveQuery) -> u64 {
    panic!("no outlines, no metric")
}

#[test]
fn ruqaa_lifts_words_after_kerning() {
    let mut buffer = two_words();
    let report = ruqaa::shape(&mut buffer, ScaleFactor { x_scale: 1000, upem: 1000 }, &never);
    assert_eq!(report.stage, ruqaa::Stage::Lifted);
    assert_eq!(offsets(&buffer), vec![50, 57, -50, -30, 30]);
    let totals: Vec<i32> = buffer.iter().map(|g| g.x_total_advance).collect();
    assert_eq!(totals, vec![0, 100, 200, 300, 400]);
}
