use outline_shaping::collision::Polyline;
use outline_shaping::geometry::{collect_segments, Path, Point, Segment, COORD_LIMIT};
use outline_shaping::glyph::{
    advances_fit, contains, ends_with, same_text, set_total_advance, translate_contour,
    translate_paths, BubbleGlyph, GlyphExtents, GlyphRole, GulzarGlyph,
};

fn pt(x: i64, y: i64) -> Point {
    Point { x, y }
}

fn plain() -> GlyphRole {
    GlyphRole {
        dot_below: false,
        dot_above: false,
        tail: false,
        init: false,
        isol: false,
        fina: false,
        space: false,
    }
}

fn named(name: &str, x_advance: i32) -> GulzarGlyph {
    GulzarGlyph {
        codepoint: 1,
        name: String::from(name),
        paths: vec![],
        cluster: 0,
        x_advance,
        x_total_advance: -1,
        y_advance: 0,
        x_offset: 0,
        y_offset: 0,
        in_bari_ye: false,
        extents: GlyphExtents { x_bearing: 0, y_bearing: 0, width: 0, height: 0 },
        contours: vec![],
        role: plain(),
    }
}

#[test]
fn ends_with_looks_at_the_end_only() {
    assert!(ends_with("dotbelow-ar", "below-ar"));
    assert!(ends_with("below-ar", "below-ar"));
    assert!(!ends_with("below-ar.alt", "below-ar"));
    assert!(!ends_with("elow-ar", "below-ar"));
    assert!(!ends_with("", "below-ar"));
    assert!(ends_with("anything", ""));
    assert!(ends_with("", ""));
    assert!(ends_with("نقطة-ar", "-ar"));
}

#[test]
fn contains_looks_everywhere() {
    assert!(contains("beh-ar.init", ".init"));
    assert!(contains(".init", ".init"));
    assert!(contains("a.initb", ".init"));
    assert!(!contains("beh-ar.ini", ".init"));
    assert!(!contains("", "i"));
    assert!(contains("", ""));
    assert!(contains("abc", ""));
    assert!(contains("aab", "ab"));
    assert!(!contains("ab", "abc"));
}

#[test]
fn same_text_wants_every_character() {
    assert!(same_text("BARI_YEf1", "BARI_YEf1"));
    assert!(!same_text("BARI_YEf1", "BARI_YEf2"));
    assert!(!same_text("BARI_YEf1", "BARI_YEf"));
    assert!(!same_text("", "x"));
    assert!(same_text("", ""));
}

#[test]
fn dots_are_known_by_their_names() {
    let below = named("twodotsverticalbelow-ar", 0);
    assert!(below.is_dot_below());
    assert!(!below.is_dot_above());
    assert!(below.is_dot());
    let above = named("dotabove-ar", 0);
    assert!(!above.is_dot_below());
    assert!(above.is_dot_above());
    assert!(above.is_dot());
    let letter = named("beh-ar.init", 0);
    assert!(!letter.is_dot_below());
    assert!(!letter.is_dot_above());
    assert!(!letter.is_dot());
    assert!(!named("below-ar.alt", 0).is_dot());
}

#[test]
fn running_totals_add_up_the_advances_before() {
    let mut buffer = vec![named("a", 100), named("b", -30), named("c", 0), named("d", 500)];
    assert!(advances_fit(&buffer));
    set_total_advance(&mut buffer);
    let totals: Vec<i32> = buffer.iter().map(|g| g.x_total_advance).collect();
    assert_eq!(totals, vec![0, 100, 70, 70]);
    let advances: Vec<i32> = buffer.iter().map(|g| g.x_advance).collect();
    assert_eq!(advances, vec![100, -30, 0, 500]);
    assert_eq!(buffer[1].name, "b");
}

#[test]
fn running_totals_of_an_empty_buffer() {
    let mut buffer: Vec<GulzarGlyph> = vec![];
    assert!(advances_fit(&buffer));
    set_total_advance(&mut buffer);
    assert!(buffer.is_empty());
}

#[test]
fn advances_that_add_up_too_far_do_not_fit() {
    assert!(advances_fit(&vec![named("a", i32::MAX)]));
    assert!(!advances_fit(&vec![named("a", i32::MAX), named("b", 1)]));
    // The sum of all advances counts, the last one too.
    assert!(!advances_fit(&vec![named("a", 1), named("b", i32::MAX)]));
    assert!(!advances_fit(&vec![named("a", i32::MIN), named("b", -1), named("c", 5)]));
    assert!(advances_fit(&vec![named("a", i32::MAX), named("b", i32::MIN), named("c", 7)]));
}

#[test]
fn positioned_paths_move_the_outline_to_the_glyph() {
    let mut g = named("a", 10);
    g.paths = vec![
        Path { segments: vec![Segment::Line { p0: pt(0, 0), p1: pt(10, 5) }] },
        Path { segments: vec![Segment::Quad { p0: pt(1, 1), p1: pt(2, 2), p2: pt(3, 1) }] },
    ];
    g.x_total_advance = 1000;
    g.x_offset = -7;
    g.y_offset = 20;
    assert!(g.is_wf());
    let placed = g.positioned_paths();
    assert_eq!(
        placed,
        vec![
            Path { segments: vec![Segment::Line { p0: pt(993, 20), p1: pt(1003, 25) }] },
            Path {
                segments: vec![Segment::Quad {
                    p0: pt(994, 21),
                    p1: pt(995, 22),
                    p2: pt(996, 21)
                }]
            },
        ]
    );
    // The glyph keeps its outline.
    assert_eq!(g.paths[0].segments[0], Segment::Line { p0: pt(0, 0), p1: pt(10, 5) });
    assert_eq!(collect_segments(&placed).len(), 2);
}

#[test]
fn glyphs_with_far_outlines_are_not_well_formed() {
    let mut g = named("a", 10);
    g.paths = vec![Path {
        segments: vec![Segment::Line { p0: pt(0, 0), p1: pt(COORD_LIMIT, -COORD_LIMIT) }],
    }];
    assert!(g.is_wf());
    g.paths[0].segments[0] = Segment::Line { p0: pt(0, 0), p1: pt(COORD_LIMIT + 1, 0) };
    assert!(!g.is_wf());
    g.paths = vec![];
    g.contours = vec![Polyline { points: vec![pt(0, 0), pt(0, -COORD_LIMIT - 1)] }];
    assert!(!g.is_wf());
    g.contours = vec![Polyline { points: vec![] }];
    assert!(g.is_wf());
}

#[test]
fn translate_helpers_move_by_the_given_amount() {
    let paths = vec![Path { segments: vec![Segment::Line { p0: pt(1, 2), p1: pt(3, 4) }] }];
    assert_eq!(
        translate_paths(&paths, 10, -10),
        vec![Path { segments: vec![Segment::Line { p0: pt(11, -8), p1: pt(13, -6) }] }]
    );
    let contour = Polyline { points: vec![pt(1, 2), pt(3, 4)] };
    assert_eq!(
        translate_contour(&contour, -1, 1),
        Polyline { points: vec![pt(0, 3), pt(2, 5)] }
    );
}

#[test]
fn positioned_bubble_paths_add_the_starting_kern() {
    let mut g = BubbleGlyph {
        codepoint: 3,
        name: String::from("A"),
        bubble_paths: None,
        cluster: 0,
        x_advance: 500,
        x_total_advance: 1000,
        y_advance: 0,
        x_offset: 5,
        y_offset: -3,
    };
    assert_eq!(g.positioned_bubble_paths(200), None);
    g.bubble_paths =
        Some(vec![Path { segments: vec![Segment::Line { p0: pt(0, 0), p1: pt(10, 10) }] }]);
    assert_eq!(
        g.positioned_bubble_paths(200),
        Some(vec![Path {
            segments: vec![Segment::Line { p0: pt(1205, -3), p1: pt(1215, 7) }]
        }])
    );
    assert_eq!(
        g.positioned_bubble_paths(0),
        Some(vec![Path {
            segments: vec![Segment::Line { p0: pt(1005, -3), p1: pt(1015, 7) }]
        }])
    );
}
