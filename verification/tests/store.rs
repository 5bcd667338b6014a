use outline_shaping::collision::Polyline;
use outline_shaping::geometry::{Path, Point, Segment};
use outline_shaping::glyph::{GlyphExtents, GlyphRole, GulzarGlyph};
use outline_shaping::store::{copy_contours, copy_paths, prepare_buffer, FontGlyph, OutlineStore};

fn pt(x: i64, y: i64) -> Point {
    Point { x, y }
}

fn plain() -> GlyphRole {
    GlyphRole {
        dot_below: false,
        dot_above: false,
        tail: false,
        init: false,
        isol: false,
        fina: false,
        space: false,
    }
}

fn raw(codepoint: u32, x_advance: i32) -> GulzarGlyph {
    GulzarGlyph {
        codepoint,
        name: String::new(),
        paths: vec![],
        cluster: codepoint + 100,
        x_advance,
        x_total_advance: 0,
        y_advance: 3,
        x_offset: 4,
        y_offset: 5,
        in_bari_ye: false,
        extents: GlyphExtents { x_bearing: 0, y_bearing: 0, width: 0, height: 0 },
        contours: vec![],
        role: plain(),
    }
}

fn font_glyph(codepoint: u32, serial: i64) -> FontGlyph {
    let c = codepoint as i64;
    FontGlyph {
        name: format!("glyph{}", codepoint),
        extents: GlyphExtents { x_bearing: 1, y_bearing: 2, width: c as i32, height: -(c as i32) },
        paths: vec![Path { segments: vec![Segment::Line { p0: pt(0, serial), p1: pt(c, c) }] }],
        contours: vec![Polyline { points: vec![pt(0, serial), pt(c, c)] }],
    }
}

#[test]
fn copies_are_equal_to_what_was_copied() {
    let paths = vec![
        Path { segments: vec![Segment::Line { p0: pt(0, 0), p1: pt(1, 1) }] },
        Path { segments: vec![] },
    ];
    assert_eq!(copy_paths(&paths), paths);
    let contours = vec![Polyline { points: vec![pt(1, 2), pt(3, 4)] }, Polyline { points: vec![] }];
    assert_eq!(copy_contours(&contours), contours);
    assert_eq!(copy_paths(&vec![]), vec![]);
}

#[test]
fn a_store_keeps_what_came_first() {
    let mut store = OutlineStore::new();
    assert!(!store.holds(7));
    store.keep(7, font_glyph(7, 0));
    assert!(store.holds(7));
    assert!(!store.holds(8));
    store.keep(7, font_glyph(7, 99));
    let mut buffer = vec![raw(7, 10), raw(8, 10)];
    assert!(store.dress(&mut buffer, 0));
    assert_eq!(buffer[0].name, "glyph7");
    assert_eq!(buffer[0].paths[0].segments[0], Segment::Line { p0: pt(0, 0), p1: pt(7, 7) });
    assert_eq!(buffer[0].contours, vec![Polyline { points: vec![pt(0, 0), pt(7, 7)] }]);
    assert_eq!(buffer[0].extents, GlyphExtents { x_bearing: 1, y_bearing: 2, width: 7, height: -7 });
    // A glyph that the store does not hold stays bare.
    assert!(!store.dress(&mut buffer, 1));
    assert_eq!(buffer[1].name, "");
    assert!(buffer[1].paths.is_empty());
}

#[test]
fn dressing_leaves_the_rest_of_the_glyph_alone() {
    let mut store = OutlineStore::new();
    store.keep(7, font_glyph(7, 0));
    let mut buffer = vec![raw(7, 10)];
    buffer[0].in_bari_ye = true;
    buffer[0].role.init = true;
    store.dress(&mut buffer, 0);
    let g = &buffer[0];
    assert_eq!((g.codepoint, g.cluster, g.x_advance, g.y_advance), (7, 107, 10, 3));
    assert_eq!((g.x_offset, g.y_offset, g.x_total_advance), (4, 5, 0));
    assert!(g.in_bari_ye);
    assert!(g.role.init);
}

#[test]
fn preparing_reads_each_number_once() {
    let calls = std::cell::RefCell::new(Vec::new());
    let fetch = |codepoint: u32| {
        calls.borrow_mut().push(codepoint);
        // What the font answers differs from call to call.
        font_glyph(codepoint, calls.borrow().len() as i64)
    };
    let mut buffer = vec![raw(5, 100), raw(9, 20), raw(5, 30), raw(5, 40), raw(9, 50)];
    let store = prepare_buffer(&mut buffer, &fetch);
    assert_eq!(*calls.borrow(), vec![5, 9]);
    assert!(store.holds(5) && store.holds(9) && !store.holds(6));
    // Every glyph of one number got the same outline.
    let first = Segment::Line { p0: pt(0, 1), p1: pt(5, 5) };
    let second = Segment::Line { p0: pt(0, 2), p1: pt(9, 9) };
    let seen: Vec<Segment> = buffer.iter().map(|g| g.paths[0].segments[0]).collect();
    assert_eq!(seen, vec![first, second, first, first, second]);
    let names: Vec<&str> = buffer.iter().map(|g| g.name.as_str()).collect();
    assert_eq!(names, vec!["glyph5", "glyph9", "glyph5", "glyph5", "glyph9"]);
    assert_eq!(buffer[4].contours, vec![Polyline { points: vec![pt(0, 2), pt(9, 9)] }]);
    assert_eq!(buffer[1].extents.width, 9);
}

#[test]
fn preparing_sets_the_running_totals() {
    let fetch = |codepoint: u32| font_glyph(codepoint, 0);
    let mut buffer = vec![raw(5, 100), raw(9, 20), raw(5, 30)];
    prepare_buffer(&mut buffer, &fetch);
    let totals: Vec<i32> = buffer.iter().map(|g| g.x_total_advance).collect();
    assert_eq!(totals, vec![0, 100, 120]);
    let advances: Vec<i32> = buffer.iter().map(|g| g.x_advance).collect();
    assert_eq!(advances, vec![100, 20, 30]);
    assert_eq!(buffer[1].cluster, 109);
}

#[test]
fn preparing_an_empty_buffer_reads_nothing() {
    let fetch = |_codepoint: u32| -> FontGlyph { panic!("nothing to read") };
    let mut buffer: Vec<GulzarGlyph> = vec![];
    let store = prepare_buffer(&mut buffer, &fetch);
    assert!(!store.holds(0));
}
