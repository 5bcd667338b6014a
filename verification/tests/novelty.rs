use outline_shaping::debugglyph;
use outline_shaping::glyph::Glyph;
use outline_shaping::network;
use outline_shaping::shadow;

fn glyph(codepoint: u32, cluster: u32, x_advance: i32) -> Glyph {
    Glyph { codepoint, cluster, x_advance, y_advance: 0, x_offset: 0, y_offset: 0, flags: 0 }
}

#[test]
fn a_shadowed_line_is_drawn_twice() {
    let mut line = vec![glyph(1, 0, 500), glyph(2, 1, 600), glyph(3, 2, 700)];
    assert!(shadow::check_can_shadow(&line));
    shadow::shape(&mut line);
    assert_eq!(
        line,
        vec![
            glyph(27, 0, 500),
            glyph(28, 1, 600),
            glyph(29, 2, 700 - 1800),
            glyph(1, 3, 500),
            glyph(2, 4, 600),
            glyph(3, 5, 700),
        ]
    );
}

#[test]
fn a_line_of_one_glyph_is_shadowed_too() {
    let mut line = vec![Glyph { y_offset: 9, flags: 4, ..glyph(100, 7, 250) }];
    shadow::shape(&mut line);
    assert_eq!(
        line,
        vec![
            Glyph { y_offset: 9, flags: 4, ..glyph(126, 7, 0) },
            Glyph { y_offset: 9, flags: 4, ..glyph(100, 8, 250) },
        ]
    );
}

#[test]
fn lines_that_cannot_be_shadowed_are_told() {
    assert!(!shadow::check_can_shadow(&vec![]));
    assert!(shadow::check_can_shadow(&vec![glyph(u32::MAX - 26, 0, 0)]));
    assert!(!shadow::check_can_shadow(&vec![glyph(u32::MAX - 25, 0, 0)]));
    assert!(shadow::check_can_shadow(&vec![glyph(1, u32::MAX - 1, 0)]));
    assert!(!shadow::check_can_shadow(&vec![glyph(1, u32::MAX, 0)]));
    assert!(!shadow::check_can_shadow(&vec![glyph(1, 0, i32::MAX), glyph(1, 0, 1)]));
    assert!(shadow::check_can_shadow(&vec![glyph(1, 0, i32::MAX), glyph(1, 0, 0)]));
    assert!(shadow::check_can_shadow(&vec![glyph(1, 0, i32::MIN + 1), glyph(1, 0, -1)]));
    // The last glyph is set back by the sum: -1 - i32::MIN does not fit.
    assert!(!shadow::check_can_shadow(&vec![glyph(1, 0, i32::MIN + 1), glyph(1, 0, -1), glyph(1, 0, 0)]));
}

#[test]
fn the_seed_is_the_sum_of_the_glyph_numbers() {
    assert_eq!(network::seed_for(&vec![]), Some(0));
    assert_eq!(network::seed_for(&vec![glyph(65, 0, 0), glyph(66, 1, 0)]), Some(131));
    assert_eq!(network::seed_for(&vec![glyph(u32::MAX, 0, 0)]), Some(u32::MAX as u64));
    assert_eq!(network::seed_for(&vec![glyph(u32::MAX, 0, 0), glyph(1, 0, 0)]), None);
    assert_eq!(network::seed_for(&vec![glyph(u32::MAX, 0, 0), glyph(1, 0, 0), glyph(0, 0, 0)]), None);
}

#[test]
fn a_woven_line_holds_every_glyph_three_times() {
    let line = vec![glyph(40, 0, 500), glyph(41, 1, 600), glyph(42, 2, 0)];
    for seed in [0u64, 1, 131, u64::MAX] {
        let woven = network::shape(&line, 30, seed);
        assert_eq!(woven.len(), 9);
        for (i, g) in line.iter().enumerate() {
            assert_eq!(woven[3 * i], glyph(g.codepoint, g.cluster, 0));
            for copy in [1, 2] {
                let drawn = woven[3 * i + copy];
                assert_eq!((drawn.codepoint, drawn.cluster), (g.codepoint, g.cluster));
                assert_eq!(drawn.x_advance, if copy == 2 { g.x_advance } else { 0 });
                assert_eq!((drawn.y_advance, drawn.flags), (0, 0));
                assert!([-60, -30, 0, 30].contains(&drawn.x_offset));
                assert!([-60, -30, 0, 30].contains(&drawn.y_offset));
            }
        }
    }
}

#[test]
fn weaving_depends_on_the_seed_alone() {
    let line: Vec<Glyph> = (0..50).map(|i| glyph(40 + i, i, 500)).collect();
    let once = network::shape(&line, 7, 12345);
    let again = network::shape(&line, 7, 12345);
    assert_eq!(once, again);
    // Fifty glyphs drawn off their places: not all of them stay where they are.
    assert!(once.iter().any(|g| g.x_offset != 0 || g.y_offset != 0));
    let other = network::shape(&line, 7, 54321);
    assert_ne!(once, other);
}

#[test]
fn weaving_with_a_step_of_nothing_leaves_every_glyph_in_place() {
    let line = vec![glyph(40, 0, 500), glyph(41, 1, 600)];
    let woven = network::shape(&line, 0, 99);
    assert_eq!(
        woven,
        vec![
            glyph(40, 0, 0),
            glyph(40, 0, 0),
            glyph(40, 0, 500),
            glyph(41, 1, 0),
            glyph(41, 1, 0),
            glyph(41, 1, 600),
        ]
    );
    assert_eq!(network::shape(&vec![], 30, 1), vec![]);
}

#[test]
fn weaving_copes_with_the_largest_step() {
    let line = vec![glyph(40, 0, 500)];
    let woven = network::shape(&line, network::STEP_LIMIT, 3);
    let limit = network::STEP_LIMIT;
    for drawn in &woven[1..] {
        assert!([-2 * limit, -limit, 0, limit].contains(&drawn.x_offset));
        assert!([-2 * limit, -limit, 0, limit].contains(&drawn.y_offset));
    }
}

fn typed(text: &str) -> Vec<Glyph> {
    text.chars().enumerate().map(|(i, c)| glyph(c as u32, i as u32, 0)).collect()
}

#[test]
fn marked_text_is_told_from_other_text() {
    assert!(debugglyph::is_marked(&typed("debug: abc")));
    assert!(debugglyph::is_marked(&typed("debug: ")));
    assert!(!debugglyph::is_marked(&typed("debug:")));
    assert!(!debugglyph::is_marked(&typed("debug:abc ")));
    assert!(!debugglyph::is_marked(&typed("Debug: abc")));
    assert!(!debugglyph::is_marked(&typed(" debug: abc")));
    assert!(!debugglyph::is_marked(&typed("")));
    // Of each number the lowest byte counts.
    let mut high = typed("debug: abc");
    high[0].codepoint += 0x100;
    high[6].codepoint += 0x10000;
    assert!(debugglyph::is_marked(&high));
}

#[test]
fn the_mark_is_stripped() {
    assert_eq!(debugglyph::strip_mark(&typed("debug: abc")), typed("debug: abc")[7..].to_vec());
    assert_eq!(debugglyph::strip_mark(&typed("debug: ")), vec![]);
    assert_eq!(debugglyph::strip_mark(&typed("1234567890"))[0], glyph('8' as u32, 7, 0));
}

#[test]
fn names_are_joined_with_bars() {
    let names: Vec<String> = ["alef-ar", "beh-ar.init", "space"].iter().map(|n| n.to_string()).collect();
    assert_eq!(debugglyph::join_names(&names), "alef-ar|beh-ar.init|space");
    assert_eq!(debugglyph::join_names(&names[..1].to_vec()), "alef-ar");
    assert_eq!(debugglyph::join_names(&vec![]), "");
    assert_eq!(debugglyph::join_names(&vec![String::new(), String::new()]), "|");
}

#[test]
fn a_text_is_spelled_one_glyph_for_each_character() {
    assert_eq!(
        debugglyph::spell("a|é"),
        vec![glyph(97, 0, 0), glyph(124, 1, 0), glyph(0xe9, 2, 0)]
    );
    assert_eq!(debugglyph::spell("-12.5"), typed("-12.5"));
    assert_eq!(debugglyph::spell(""), vec![]);
}
