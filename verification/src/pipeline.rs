//! The stages of refining a shaped buffer, one after another.
//!
//! The buffer comes in with what the font holds for its glyphs and with
//! the part each glyph plays. The stages are: mark what stands over a
//! tail, and widen what has to clear one; kern; set the dots that rest
//! on a tail; move colliding dots out of the way. A stage that changes
//! advances is followed by bringing the running totals up to date, so
//! that the next stage finds every glyph where it is drawn. Every stage
//! works on what the stage before has left. A stage whose numbers would
//! leave their range is not begun: the buffer stays as the stage before
//! has left it, and the report says how far the work got.

use crate::glyph::{advance_sum, advances_fit, set_total_advance, totals_fit, GulzarGlyph};
use crate::kern::ScaleFactor;
use crate::kerning::{is_kernable, kern_buffer, kernable, kerning_done, KernConfig, KernTally};
use crate::marks::{
    all_are_wf, all_wf, drops_all_fit, drops_fit, offsets_all_have_room, offsets_have_room,
    place_tail_dots, resolve_marks, resolved, rests_on_tail, set_on_tail, MarkConfig, MarkReport,
    Resolution,
};
use crate::measure::{admission, total, CurveQuery};
use crate::reach::{annotate_reach, annotated, check_reach_fits, reach_fits};
use vstd::prelude::*;

verus! {

/// How far the work on a buffer got.
#[derive(Clone, Copy, Debug, PartialEq, Eq, Structural)]
pub enum Stage {
    /// Nothing was done.
    Untouched,
    /// The glyphs over a tail are marked.
    Annotated,
    /// The running totals fit the advances as the marking has left them.
    Aligned,
    /// The kerns are added to the advances.
    Kerned,
    /// The running totals fit the advances again.
    Totalled,
    /// The dots that rest on a tail are set.
    Placed,
    /// The passes over colliding dots have run.
    Resolved,
}

/// What a script wants done to its buffers.
#[derive(Clone, Copy, Debug, PartialEq, Eq, Structural)]
pub struct ShapeConfig {
    /// How glyphs are kerned.
    pub kern: KernConfig,
    /// A dot that rests on a tail is set to its height less this.
    pub tail_drop: i32,
    /// How colliding dots are moved.
    pub marks: MarkConfig,
}

/// What was done to a buffer.
#[derive(Clone, Copy, Debug, PartialEq, Eq, Structural)]
pub struct ShapeReport {
    /// The last stage that was carried out.
    pub stage: Stage,
    /// What kerning came to, once it has run.
    pub kerning: KernTally,
    /// What the passes over colliding dots came to, once they have run.
    pub marks: MarkReport,
}

/// The buffer as the first stage leaves it.
pub open spec fn annotated_buffer(before: Seq<GulzarGlyph>, tails: Seq<i64>) -> Seq<GulzarGlyph> {
    Seq::new(before.len(), |i: int| annotated(before, tails, i))
}

/// The buffer with every running total brought up to date.
pub open spec fn with_totals(before: Seq<GulzarGlyph>) -> Seq<GulzarGlyph> {
    Seq::new(
        before.len(),
        |i: int|
            GulzarGlyph { x_total_advance: advance_sum(before, i) as i32, ..before[i] },
    )
}

/// The buffer with every dot that rests on a tail set to its height
/// less `drop`.
pub open spec fn with_tail_dots(before: Seq<GulzarGlyph>, drop: int) -> Seq<GulzarGlyph> {
    Seq::new(
        before.len(),
        |i: int|
            if rests_on_tail(before, i) {
                set_on_tail(before[i], drop)
            } else {
                before[i]
            },
    )
}

/// The stages make `after` of `before`, with `kerned` as what the
/// kerning stage leaves, and `report` tells of it.
pub open spec fn shaped_through(
    before: Seq<GulzarGlyph>,
    tails: Seq<i64>,
    config: ShapeConfig,
    scale: ScaleFactor,
    admits: spec_fn(CurveQuery, u64) -> bool,
    kerned: Seq<GulzarGlyph>,
    after: Seq<GulzarGlyph>,
    report: ShapeReport,
) -> bool {
    let marked = annotated_buffer(before, tails);
    let aligned = with_totals(marked);
    let totalled = with_totals(kerned);
    let placed = with_tail_dots(totalled, config.tail_drop as int);
    let nothing = KernTally { kerned: 0, unsupported: 0 };
    if !reach_fits(before, tails) {
        report == stopped_at(Stage::Untouched, nothing) && after == before
    } else if !totals_fit(marked) {
        report == stopped_at(Stage::Annotated, nothing) && after == marked
    } else if !kernable(aligned, config.kern, scale) {
        report == stopped_at(Stage::Aligned, nothing) && after == aligned
    } else if !kerning_done(aligned, config.kern, scale, admits, kerned, report.kerning) {
        false
    } else if !totals_fit(kerned) {
        report == stopped_at(Stage::Kerned, report.kerning) && after == kerned
    } else if !(all_wf(totalled) && drops_fit(totalled, config.tail_drop as int)) {
        report == stopped_at(Stage::Totalled, report.kerning) && after == totalled
    } else if !offsets_have_room(placed, config.marks) {
        report == stopped_at(Stage::Placed, report.kerning) && after == placed
    } else {
        &&& report.stage == Stage::Resolved
        &&& resolved(placed, config.marks, after, report.marks)
    }
}

/// The report of work that stopped after the given stage, before any
/// pass over colliding dots.
pub open spec fn stopped_at(stage: Stage, kerning: KernTally) -> ShapeReport {
    ShapeReport {
        stage,
        kerning,
        marks: MarkReport {
            below: Resolution { moves: 0, settled: false },
            above: Resolution { moves: 0, settled: false },
        },
    }
}

/// The stages make `after` of `before`, and `report` tells of it.
pub open spec fn shaped(
    before: Seq<GulzarGlyph>,
    tails: Seq<i64>,
    config: ShapeConfig,
    scale: ScaleFactor,
    admits: spec_fn(CurveQuery, u64) -> bool,
    after: Seq<GulzarGlyph>,
    report: ShapeReport,
) -> bool {
    exists|kerned: Seq<GulzarGlyph>| #[trigger]
        shaped_through(before, tails, config, scale, admits, kerned, after, report)
}

/// Carries out the stages on a buffer. `tails[i]` is the length of the
/// tail of glyph `i`, read only where that glyph is a tail.
pub fn shape_buffer<M: Fn(CurveQuery) -> u64>(
    buffer: &mut Vec<GulzarGlyph>,
    tails: &Vec<i64>,
    config: &ShapeConfig,
    scale: ScaleFactor,
    metric: &M,
) -> (report: ShapeReport)
    requires
        tails@.len() == old(buffer)@.len(),
        total(metric),
    ensures
        final(buffer)@.len() == old(buffer)@.len(),
        shaped(
            old(buffer)@,
            tails@,
            *config,
            scale,
            admission(metric),
            final(buffer)@,
            report,
        ),
{
    let ghost before = buffer@;
    let ghost admits = admission(metric);
    let mut report = ShapeReport {
        stage: Stage::Untouched,
        kerning: KernTally { kerned: 0, unsupported: 0 },
        marks: MarkReport {
            below: Resolution { moves: 0, settled: false },
            above: Resolution { moves: 0, settled: false },
        },
    };
    if !check_reach_fits(buffer, tails) {
        assert(shaped_through(before, tails@, *config, scale, admits, before, buffer@, report));
        return report;
    }
    annotate_reach(buffer, tails);
    let ghost marked = buffer@;
    assert(marked =~= annotated_buffer(before, tails@));
    report.stage = Stage::Annotated;
    if !advances_fit(buffer) {
        assert(shaped_through(before, tails@, *config, scale, admits, before, buffer@, report));
        return report;
    }
    set_total_advance(buffer);
    let ghost aligned = buffer@;
    assert(aligned =~= with_totals(marked)) by {
        assert forall|i: int| 0 <= i < marked.len() implies aligned[i] == with_totals(
            marked,
        )[i] by {
            assert(aligned[i] == (GulzarGlyph {
                x_total_advance: aligned[i].x_total_advance,
                ..marked[i]
            }));
            assert(i32::MIN <= advance_sum(marked, i) <= i32::MAX);
        }
    }
    report.stage = Stage::Aligned;
    if !is_kernable(buffer, &config.kern, scale) {
        assert(shaped_through(before, tails@, *config, scale, admits, before, buffer@, report));
        return report;
    }
    report.kerning = kern_buffer(buffer, &config.kern, scale, metric);
    let ghost kerned = buffer@;
    report.stage = Stage::Kerned;
    if !advances_fit(buffer) {
        assert(shaped_through(before, tails@, *config, scale, admits, kerned, buffer@, report));
        return report;
    }
    set_total_advance(buffer);
    let ghost totalled = buffer@;
    assert(totalled =~= with_totals(kerned)) by {
        assert forall|i: int| 0 <= i < kerned.len() implies totalled[i] == with_totals(
            kerned,
        )[i] by {
            assert(totalled[i] == (GulzarGlyph {
                x_total_advance: totalled[i].x_total_advance,
                ..kerned[i]
            }));
            assert(i32::MIN <= advance_sum(kerned, i) <= i32::MAX);
        }
    }
    report.stage = Stage::Totalled;
    if !(all_are_wf(buffer) && drops_all_fit(buffer, config.tail_drop)) {
        assert(shaped_through(before, tails@, *config, scale, admits, kerned, buffer@, report));
        return report;
    }
    place_tail_dots(buffer, config.tail_drop);
    let ghost placed = buffer@;
    assert(placed =~= with_tail_dots(totalled, config.tail_drop as int));
    report.stage = Stage::Placed;
    if !offsets_all_have_room(buffer, &config.marks) {
        assert(shaped_through(before, tails@, *config, scale, admits, kerned, buffer@, report));
        return report;
    }
    report.marks = resolve_marks(buffer, &config.marks);
    report.stage = Stage::Resolved;
    assert(shaped_through(before, tails@, *config, scale, admits, kerned, buffer@, report));
    report
}

} // verus!
