//! The Ruqaa style: glyph names tell the part that a glyph plays, glyphs
//! are kerned one against one, and each word is lifted onto the line.

use crate::glyph::{
    advances_fit, contains, ends_with, is_infix, is_suffix, set_total_advance, totals_fit,
    GlyphRole, GulzarGlyph,
};
use crate::kern::{ScaleFactor, FLOOR_UNITS};
use crate::kerning::{is_kernable, kern_buffer, kernable, kerning_done, KernConfig, KernTally};
use crate::measure::{admission, total, CurveQuery};
use crate::pipeline::with_totals;
use crate::words::{lift_buffer_words, lifts_fit, with_words_lifted, words_of};
use vstd::prelude::*;

verus! {

/// The distance that kerned glyphs are to have, in design units.
pub const KERN_DISTANCE: i32 = 100;

/// The name is that of a dot, above or below.
pub open spec fn names_dot(name: Seq<char>) -> bool {
    is_suffix(name, "above-ar"@) || is_suffix(name, "below-ar"@)
}

/// The part that a glyph of the given name plays. No glyph of this style
/// is a tail.
pub open spec fn role_of(name: Seq<char>) -> GlyphRole {
    GlyphRole {
        dot_below: is_suffix(name, "below-ar"@),
        dot_above: is_suffix(name, "above-ar"@),
        tail: false,
        init: is_infix(name, ".init"@),
        isol: is_suffix(name, "-ar"@) && !names_dot(name),
        fina: is_infix(name, "fina"@),
        space: is_infix(name, "space"@),
    }
}

/// Reads the part that a glyph plays off its name.
pub fn role_by_name(name: &str) -> (role: GlyphRole)
    ensures
        role == role_of(name@),
{
    let dot_below = ends_with(name, "below-ar");
    let dot_above = ends_with(name, "above-ar");
    GlyphRole {
        dot_below,
        dot_above,
        tail: false,
        init: contains(name, ".init"),
        isol: ends_with(name, "-ar") && !(dot_above || dot_below),
        fina: contains(name, "fina"),
        space: contains(name, "space"),
    }
}

/// The buffer with every glyph given the part that its name stands for.
pub open spec fn with_roles(buffer: Seq<GulzarGlyph>) -> Seq<GulzarGlyph> {
    Seq::new(
        buffer.len(),
        |i: int| GulzarGlyph { role: role_of(buffer[i].name@), ..buffer[i] },
    )
}

/// Gives every glyph of the buffer the part that its name stands for.
/// Nothing else changes.
pub fn assign_roles(buffer: &mut Vec<GulzarGlyph>)
    ensures
        final(buffer)@ == with_roles(old(buffer)@),
{
    let mut i: usize = 0;
    while i < buffer.len()
        invariant
            buffer@.len() == old(buffer)@.len(),
            i <= buffer@.len(),
            forall|k: int|
                0 <= k < i ==> #[trigger] buffer@[k] == (GulzarGlyph {
                    role: role_of(old(buffer)@[k].name@),
                    ..old(buffer)@[k]
                }),
            forall|k: int| i <= k < buffer@.len() ==> #[trigger] buffer@[k] == old(buffer)@[k],
        decreases buffer@.len() - i,
    {
        let role = role_by_name(buffer[i].name.as_str());
        buffer[i].role = role;
        i = i + 1;
    }
    assert(buffer@ =~= with_roles(old(buffer)@));
}

/// How this style wants its glyphs kerned, under the given scale.
pub open spec fn kern_config_for(scale: ScaleFactor) -> KernConfig {
    KernConfig {
        target_distance: scale.scaled(KERN_DISTANCE as int) as i64,
        space_allowance: 0,
        stop_at_space: true,
        only_tighten: false,
        context: 0,
        iterative: false,
        max_tuck: 0,
        floor_units: FLOOR_UNITS,
    }
}

/// Works out how this style wants its glyphs kerned.
pub fn kern_config(scale: ScaleFactor) -> (config: KernConfig)
    requires
        scale.wf(),
    ensures
        config == kern_config_for(scale),
{
    KernConfig {
        target_distance: scale.scale(KERN_DISTANCE),
        space_allowance: 0,
        stop_at_space: true,
        only_tighten: false,
        context: 0,
        iterative: false,
        max_tuck: 0,
        floor_units: FLOOR_UNITS,
    }
}

/// How far the work on a buffer got.
#[derive(Clone, Copy, Debug, PartialEq, Eq, Structural)]
pub enum Stage {
    /// The glyphs have their parts, and nothing else was done.
    Named,
    /// The kerns are added to the advances.
    Kerned,
    /// The running totals fit the advances again.
    Totalled,
    /// The words are lifted onto the line.
    Lifted,
}

/// What was done to a buffer.
#[derive(Clone, Copy, Debug, PartialEq, Eq, Structural)]
pub struct ShapeReport {
    /// The last stage that was carried out.
    pub stage: Stage,
    /// What kerning came to, once it has run.
    pub kerning: KernTally,
}

/// The stages make `after` of `before`, with `kerned` as what the
/// kerning stage leaves, and `report` tells of it.
pub open spec fn shaped_through(
    before: Seq<GulzarGlyph>,
    scale: ScaleFactor,
    admits: spec_fn(CurveQuery, u64) -> bool,
    kerned: Seq<GulzarGlyph>,
    after: Seq<GulzarGlyph>,
    report: ShapeReport,
) -> bool {
    let named = with_roles(before);
    let stage = report.stage;
    if !kernable(named, kern_config_for(scale), scale) {
        stage == Stage::Named && after == named && report.kerning == (KernTally {
            kerned: 0,
            unsupported: 0,
        })
    } else if !kerning_done(named, kern_config_for(scale), scale, admits, kerned, report.kerning) {
        false
    } else if !totals_fit(kerned) {
        stage == Stage::Kerned && after == kerned
    } else {
        let totalled = with_totals(kerned);
        match words_of(totalled) {
            Some(words) => if lifts_fit(totalled, words) {
                stage == Stage::Lifted && after == with_words_lifted(totalled, words)
            } else {
                stage == Stage::Totalled && after == totalled
            },
            None => stage == Stage::Totalled && after == totalled,
        }
    }
}

/// The stages make `after` of `before`, and `report` tells of it.
pub open spec fn shaped(
    before: Seq<GulzarGlyph>,
    scale: ScaleFactor,
    admits: spec_fn(CurveQuery, u64) -> bool,
    after: Seq<GulzarGlyph>,
    report: ShapeReport,
) -> bool {
    exists|kerned: Seq<GulzarGlyph>| #[trigger]
        shaped_through(before, scale, admits, kerned, after, report)
}

/// Refines a buffer in this style: reads the part of each glyph off its
/// name, kerns, brings the running totals up to date, and lifts the
/// words. The buffer comes in prepared. A stage whose numbers would leave
/// their range is not begun, and the answer says how far the work got
/// and what kerning came to.
pub fn shape<M: Fn(CurveQuery) -> u64>(
    buffer: &mut Vec<GulzarGlyph>,
    scale: ScaleFactor,
    metric: &M,
) -> (report: ShapeReport)
    requires
        scale.wf(),
        total(metric),
    ensures
        final(buffer)@.len() == old(buffer)@.len(),
        shaped(old(buffer)@, scale, admission(metric), final(buffer)@, report),
{
    let ghost before = buffer@;
    let ghost admits = admission(metric);
    assign_roles(buffer);
    let config = kern_config(scale);
    let mut report = ShapeReport {
        stage: Stage::Named,
        kerning: KernTally { kerned: 0, unsupported: 0 },
    };
    if !is_kernable(buffer, &config, scale) {
        assert(shaped_through(before, scale, admits, before, buffer@, report));
        return report;
    }
    report.kerning = kern_buffer(buffer, &config, scale, metric);
    report.stage = Stage::Kerned;
    let ghost kerned = buffer@;
    if !advances_fit(buffer) {
        assert(shaped_through(before, scale, admits, kerned, buffer@, report));
        return report;
    }
    set_total_advance(buffer);
    assert(buffer@ =~= with_totals(kerned)) by {
        assert forall|i: int| 0 <= i < kerned.len() implies buffer@[i] == with_totals(
            kerned,
        )[i] by {
            assert(buffer@[i] == (GulzarGlyph {
                x_total_advance: buffer@[i].x_total_advance,
                ..kerned[i]
            }));
        }
    }
    report.stage = if lift_buffer_words(buffer) {
        Stage::Lifted
    } else {
        Stage::Totalled
    };
    assert(shaped_through(before, scale, admits, kerned, buffer@, report));
    report
}

} // verus!
