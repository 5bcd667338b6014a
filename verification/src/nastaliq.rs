//! The Nastaliq style: kerning with two glyphs of context, tails of the
//! bari ye, and dots that give way to one another.

use crate::glyph::GulzarGlyph;
use crate::kern::{clamped, ScaleFactor, FLOOR_UNITS};
use crate::kerning::KernConfig;
use crate::marks::MarkConfig;
use crate::measure::{admission, total, CurveQuery};
use crate::pipeline::{shape_buffer, shaped, ShapeConfig, ShapeReport};
use vstd::prelude::*;

verus! {

/// The distance that kerned glyphs are to have, in design units.
pub const KERN_DISTANCE: i32 = 300;

/// What a kern across a space is loosened by, in design units.
pub const SPACE_ALLOWANCE: i32 = 480;

/// Where a dot on the tail of a bari ye goes, in design units under
/// the dot's height. It is negative: the dot goes above its height.
pub const BARI_YE_DOT_POSITION: i32 = -150;

/// How far a colliding dot moves in one pass, in design units.
pub const DOT_AVOIDANCE_DELTA: i32 = 50;

/// What the ink of a bari ye is taken to end before its box does, in
/// device units.
pub const TAIL_MARGIN: i64 = 20;

/// How many glyphs before a glyph are kerned together with it.
pub const CONTEXT: usize = 2;

/// How many glyphs to either side of a dot below are looked at.
pub const BELOW_WINDOW: usize = 8;

/// How many glyphs to either side of a dot above are looked at.
pub const ABOVE_WINDOW: usize = 6;

/// The length of the tail of a glyph: how far its box goes on behind its
/// advance, less the margin.
pub open spec fn tail_length(glyph: GulzarGlyph) -> int {
    glyph.extents.width - glyph.x_advance - TAIL_MARGIN
}

/// The tail lengths of the glyphs of a buffer.
pub open spec fn tails_of(buffer: Seq<GulzarGlyph>) -> Seq<i64> {
    Seq::new(buffer.len(), |i: int| tail_length(buffer[i]) as i64)
}

/// Works out the tail length of every glyph of the buffer.
pub fn tail_lengths(buffer: &Vec<GulzarGlyph>) -> (tails: Vec<i64>)
    ensures
        tails@ == tails_of(buffer@),
{
    let mut tails: Vec<i64> = Vec::new();
    let mut i: usize = 0;
    while i < buffer.len()
        invariant
            i <= buffer@.len(),
            tails@.len() == i,
            forall|k: int| 0 <= k < i ==> #[trigger] tails@[k] == tail_length(buffer@[k]),
        decreases buffer@.len() - i,
    {
        let glyph = &buffer[i];
        tails.push(glyph.extents.width as i64 - glyph.x_advance as i64 - TAIL_MARGIN);
        i = i + 1;
    }
    assert(tails@ =~= tails_of(buffer@));
    tails
}

/// What this style wants done to its buffers, under the given scale and
/// with at most `max_passes` passes for each kind of dot.
pub open spec fn config_for(scale: ScaleFactor, max_passes: usize) -> ShapeConfig {
    ShapeConfig {
        kern: KernConfig {
            target_distance: scale.scaled(KERN_DISTANCE as int) as i64,
            space_allowance: scale.scaled(SPACE_ALLOWANCE as int) as i64,
            stop_at_space: false,
            only_tighten: true,
            context: CONTEXT,
            iterative: true,
            max_tuck: 0,
            floor_units: FLOOR_UNITS,
        },
        tail_drop: clamped(scale.scaled(BARI_YE_DOT_POSITION as int)) as i32,
        marks: MarkConfig {
            below_delta: clamped(scale.scaled(DOT_AVOIDANCE_DELTA as int)) as i32,
            below_window: BELOW_WINDOW,
            above_delta: clamped(scale.scaled(DOT_AVOIDANCE_DELTA as int)) as i32,
            above_window: ABOVE_WINDOW,
            max_passes,
        },
    }
}

/// Works out what this style wants done to its buffers.
pub fn config(scale: ScaleFactor, max_passes: usize) -> (config: ShapeConfig)
    requires
        scale.wf(),
    ensures
        config == config_for(scale, max_passes),
{
    ShapeConfig {
        kern: KernConfig {
            target_distance: scale.scale(KERN_DISTANCE),
            space_allowance: scale.scale(SPACE_ALLOWANCE),
            stop_at_space: false,
            only_tighten: true,
            context: CONTEXT,
            iterative: true,
            max_tuck: 0,
            floor_units: FLOOR_UNITS,
        },
        tail_drop: scale.scale_clamped(BARI_YE_DOT_POSITION),
        marks: MarkConfig {
            below_delta: scale.scale_clamped(DOT_AVOIDANCE_DELTA),
            below_window: BELOW_WINDOW,
            above_delta: scale.scale_clamped(DOT_AVOIDANCE_DELTA),
            above_window: ABOVE_WINDOW,
            max_passes,
        },
    }
}

/// Refines a buffer in this style. The buffer comes in prepared, and
/// with the part that each glyph plays.
pub fn shape<M: Fn(CurveQuery) -> u64>(
    buffer: &mut Vec<GulzarGlyph>,
    scale: ScaleFactor,
    max_passes: usize,
    metric: &M,
) -> (report: ShapeReport)
    requires
        scale.wf(),
        total(metric),
    ensures
        final(buffer)@.len() == old(buffer)@.len(),
        shaped(
            old(buffer)@,
            tails_of(old(buffer)@),
            config_for(scale, max_passes),
            scale,
            admission(metric),
            final(buffer)@,
            report,
        ),
{
    let tails = tail_lengths(buffer);
    let config = config(scale, max_passes);
    shape_buffer(buffer, &tails, &config, scale, metric)
}

} // verus!
