//! The Gulzar style: glyph names tell the part that a glyph plays, the
//! single-shot solver kerns, and a space ends the search for a partner.

use crate::glyph::{contains, ends_with, is_infix, is_suffix, same_text, GlyphRole, GulzarGlyph};
use crate::kern::{clamped, ScaleFactor, FLOOR_UNITS};
use crate::kerning::KernConfig;
use crate::marks::MarkConfig;
use crate::measure::{admission, total, CurveQuery};
use crate::pipeline::{shape_buffer, shaped, ShapeConfig, ShapeReport};
use vstd::prelude::*;

verus! {

/// The distance that kerned glyphs are to have, in design units.
pub const KERN_DISTANCE: i32 = 150;

/// The length of the tail of a bari ye behind its advance, in design
/// units.
pub const BARI_YE_TAIL: i32 = 633;

/// Where a dot on the tail of a bari ye goes, in design units under the
/// dot's height.
pub const BARI_YE_DOT_POSITION: i32 = 50;

/// How far a colliding dot moves in one pass, in design units.
pub const DOT_AVOIDANCE_DELTA: i32 = 150;

/// How many glyphs before a glyph are kerned together with it.
pub const CONTEXT: usize = 2;

/// How many glyphs to either side of a dot below are looked at.
pub const BELOW_WINDOW: usize = 8;

/// How many glyphs to either side of a dot above are looked at.
pub const ABOVE_WINDOW: usize = 6;

/// The part that a glyph of the given name plays.
pub open spec fn role_of(name: Seq<char>) -> GlyphRole {
    GlyphRole {
        dot_below: is_suffix(name, "below-ar"@),
        dot_above: is_suffix(name, "above-ar"@),
        tail: name == "BARI_YEf1"@,
        init: is_infix(name, "i"@),
        isol: is_infix(name, "u"@),
        fina: is_infix(name, "f"@),
        space: is_infix(name, "space"@),
    }
}

/// Reads the part that a glyph plays off its name.
pub fn role_by_name(name: &str) -> (role: GlyphRole)
    ensures
        role == role_of(name@),
{
    GlyphRole {
        dot_below: ends_with(name, "below-ar"),
        dot_above: ends_with(name, "above-ar"),
        tail: same_text(name, "BARI_YEf1"),
        init: contains(name, "i"),
        isol: contains(name, "u"),
        fina: contains(name, "f"),
        space: contains(name, "space"),
    }
}

/// Gives every glyph of the buffer the part that its name stands for.
/// Nothing else changes.
pub fn assign_roles(buffer: &mut Vec<GulzarGlyph>)
    ensures
        final(buffer)@.len() == old(buffer)@.len(),
        forall|i: int|
            0 <= i < old(buffer)@.len() ==> #[trigger] final(buffer)@[i] == (GulzarGlyph {
                role: role_of(old(buffer)@[i].name@),
                ..old(buffer)@[i]
            }),
{
    let mut i: usize = 0;
    while i < buffer.len()
        invariant
            buffer@.len() == old(buffer)@.len(),
            i <= buffer@.len(),
            forall|k: int|
                0 <= k < i ==> #[trigger] buffer@[k] == (GulzarGlyph {
                    role: role_of(old(buffer)@[k].name@),
                    ..old(buffer)@[k]
                }),
            forall|k: int| i <= k < buffer@.len() ==> #[trigger] buffer@[k] == old(buffer)@[k],
        decreases buffer@.len() - i,
    {
        let role = role_by_name(buffer[i].name.as_str());
        buffer[i].role = role;
        i = i + 1;
    }
}

/// The length of the tail of a glyph under the given scale: the scaled
/// tail of a bari ye and the glyph's own advance.
pub open spec fn tail_length(glyph: GulzarGlyph, scale: ScaleFactor) -> int {
    clamped(scale.scaled(BARI_YE_TAIL as int)) + glyph.x_advance
}

/// The tail lengths of the glyphs of a buffer.
pub open spec fn tails_of(buffer: Seq<GulzarGlyph>, scale: ScaleFactor) -> Seq<i64> {
    Seq::new(buffer.len(), |i: int| tail_length(buffer[i], scale) as i64)
}

/// Works out the tail length of every glyph of the buffer.
pub fn tail_lengths(buffer: &Vec<GulzarGlyph>, scale: ScaleFactor) -> (tails: Vec<i64>)
    requires
        scale.wf(),
    ensures
        tails@ == tails_of(buffer@, scale),
{
    let tail: i64 = scale.scale_clamped(BARI_YE_TAIL) as i64;
    let mut tails: Vec<i64> = Vec::new();
    let mut i: usize = 0;
    while i < buffer.len()
        invariant
            tail == clamped(scale.scaled(BARI_YE_TAIL as int)),
            i <= buffer@.len(),
            tails@.len() == i,
            forall|k: int| 0 <= k < i ==> #[trigger] tails@[k] == tail_length(buffer@[k], scale),
        decreases buffer@.len() - i,
    {
        tails.push(tail + buffer[i].x_advance as i64);
        i = i + 1;
    }
    assert(tails@ =~= tails_of(buffer@, scale));
    tails
}

/// What this style wants done to its buffers, under the given scale and
/// with at most `max_passes` passes for each kind of dot.
pub open spec fn config_for(scale: ScaleFactor, max_passes: usize) -> ShapeConfig {
    ShapeConfig {
        kern: KernConfig {
            target_distance: scale.scaled(KERN_DISTANCE as int) as i64,
            space_allowance: 0,
            stop_at_space: true,
            only_tighten: false,
            context: CONTEXT,
            iterative: false,
            max_tuck: 0,
            floor_units: FLOOR_UNITS,
        },
        tail_drop: clamped(scale.scaled(BARI_YE_DOT_POSITION as int)) as i32,
        marks: MarkConfig {
            below_delta: clamped(scale.scaled(DOT_AVOIDANCE_DELTA as int)) as i32,
            below_window: BELOW_WINDOW,
            above_delta: clamped(scale.scaled(DOT_AVOIDANCE_DELTA as int)) as i32,
            above_window: ABOVE_WINDOW,
            max_passes,
        },
    }
}

/// Works out what this style wants done to its buffers.
pub fn config(scale: ScaleFactor, max_passes: usize) -> (config: ShapeConfig)
    requires
        scale.wf(),
    ensures
        config == config_for(scale, max_passes),
{
    ShapeConfig {
        kern: KernConfig {
            target_distance: scale.scale(KERN_DISTANCE),
            space_allowance: 0,
            stop_at_space: true,
            only_tighten: false,
            context: CONTEXT,
            iterative: false,
            max_tuck: 0,
            floor_units: FLOOR_UNITS,
        },
        tail_drop: scale.scale_clamped(BARI_YE_DOT_POSITION),
        marks: MarkConfig {
            below_delta: scale.scale_clamped(DOT_AVOIDANCE_DELTA),
            below_window: BELOW_WINDOW,
            above_delta: scale.scale_clamped(DOT_AVOIDANCE_DELTA),
            above_window: ABOVE_WINDOW,
            max_passes,
        },
    }
}

/// The buffer with every glyph given the part that its name stands for.
pub open spec fn with_roles(buffer: Seq<GulzarGlyph>) -> Seq<GulzarGlyph> {
    Seq::new(
        buffer.len(),
        |i: int| GulzarGlyph { role: role_of(buffer[i].name@), ..buffer[i] },
    )
}

/// Refines a buffer in this style. The buffer comes in prepared; the
/// part that each glyph plays is read off its name.
pub fn shape<M: Fn(CurveQuery) -> u64>(
    buffer: &mut Vec<GulzarGlyph>,
    scale: ScaleFactor,
    max_passes: usize,
    metric: &M,
) -> (report: ShapeReport)
    requires
        scale.wf(),
        total(metric),
    ensures
        final(buffer)@.len() == old(buffer)@.len(),
        shaped(
            with_roles(old(buffer)@),
            tails_of(old(buffer)@, scale),
            config_for(scale, max_passes),
            scale,
            admission(metric),
            final(buffer)@,
            report,
        ),
{
    assign_roles(buffer);
    assert(buffer@ =~= with_roles(old(buffer)@));
    let tails = tail_lengths(buffer, scale);
    assert(tails@ =~= tails_of(old(buffer)@, scale));
    let config = config(scale, max_passes);
    shape_buffer(buffer, &tails, &config, scale, metric)
}

} // verus!
