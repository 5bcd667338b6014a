//! The bubble style: every glyph sits in a bubble, and neighbouring
//! bubbles are set to touch.

use crate::geometry::{all_segments, segments_moved, segments_within, Segment, COORD_LIMIT};
use crate::glyph::{
    find_last_named, is_last_named, lemma_paths_within_segments, paths_are_within, paths_within,
    BubbleGlyph,
};
use crate::kern::{determine_kern_once, once_outcome, KernSolution, ScaleFactor, SOLVER_LIMIT};
use crate::kerning::{
    flags_set, lemma_flags_upto, GlyphKern, KernTally, ADVANCE_LIMIT, OUTLINE_LIMIT,
};
use crate::measure::{admission, total, CurveQuery};
use vstd::prelude::*;
use vstd::string::StringExecFns;

verus! {

/// How far the right-hand bubble is pushed out before the distance is
/// measured, in design units. The measurement does badly on bubbles that
/// overlap to begin with.
pub const PUSH: i32 = 200;

/// The distance that neighbouring bubbles are to have, in design units.
pub const TARGET: i32 = 0;

/// What the name of a glyph's bubble ends in.
pub open spec fn bubble_suffix() -> Seq<char> {
    ".bubble"@
}

/// The glyph numbered `id` is the bubble of the glyph called `name`: it
/// is the glyph that goes by `name` with the bubble suffix.
pub open spec fn is_bubble_of(names: Seq<String>, name: Seq<char>, id: int) -> bool {
    is_last_named(names, name + bubble_suffix(), id)
}

/// Finds the bubble of the glyph called `name` among the glyphs whose
/// names are given in the order of their numbers.
pub fn find_bubble(names: &Vec<String>, name: &str) -> (bubble: Option<usize>)
    ensures
        bubble matches Some(id) ==> is_bubble_of(names@, name@, id as int),
        bubble is None ==> forall|id: int|
            0 <= id < names@.len() ==> (#[trigger] names@[id])@ != name@ + bubble_suffix(),
{
    let wanted = String::from_str(name).concat(".bubble");
    find_last_named(names, &wanted)
}

/// The sum of the horizontal advances of the first `n` glyphs.
pub open spec fn advance_sum(buffer: Seq<BubbleGlyph>, n: int) -> int
    decreases n,
{
    if n <= 0 {
        0
    } else {
        advance_sum(buffer, n - 1) + buffer[n - 1].x_advance
    }
}

/// Every sum of leading advances fits the type of an advance.
pub open spec fn totals_fit(buffer: Seq<BubbleGlyph>) -> bool {
    forall|n: int|
        0 <= n <= buffer.len() ==> i32::MIN <= #[trigger] advance_sum(buffer, n) <= i32::MAX
}

/// Tells whether every sum of leading advances fits the type of an
/// advance, which `set_total_advance` needs.
pub fn advances_fit(buffer: &Vec<BubbleGlyph>) -> (ok: bool)
    ensures
        ok == totals_fit(buffer@),
{
    let mut total: i64 = 0;
    let mut i: usize = 0;
    while i < buffer.len()
        invariant
            i <= buffer@.len(),
            total == advance_sum(buffer@, i as int),
            i32::MIN <= total <= i32::MAX,
            forall|n: int|
                0 <= n <= i ==> i32::MIN <= #[trigger] advance_sum(buffer@, n) <= i32::MAX,
        decreases buffer@.len() - i,
    {
        total = total + buffer[i].x_advance as i64;
        if total < i32::MIN as i64 || total > i32::MAX as i64 {
            assert(advance_sum(buffer@, i + 1) == total);
            return false;
        }
        i = i + 1;
    }
    true
}

/// Gives every glyph its running total: the sum of the horizontal
/// advances of the glyphs before it. Nothing else changes.
pub fn set_total_advance(buffer: &mut Vec<BubbleGlyph>)
    requires
        totals_fit(old(buffer)@),
    ensures
        final(buffer)@.len() == old(buffer)@.len(),
        forall|i: int|
            0 <= i < old(buffer)@.len() ==> #[trigger] final(buffer)@[i] == (BubbleGlyph {
                x_total_advance: advance_sum(old(buffer)@, i) as i32,
                ..old(buffer)@[i]
            }),
{
    let mut total: i32 = 0;
    let mut i: usize = 0;
    while i < buffer.len()
        invariant
            totals_fit(old(buffer)@),
            buffer@.len() == old(buffer)@.len(),
            i <= buffer@.len(),
            total == advance_sum(old(buffer)@, i as int),
            forall|k: int|
                0 <= k < i ==> #[trigger] buffer@[k] == (BubbleGlyph {
                    x_total_advance: advance_sum(old(buffer)@, k) as i32,
                    ..old(buffer)@[k]
                }),
            forall|k: int| i <= k < buffer@.len() ==> #[trigger] buffer@[k] == old(buffer)@[k],
        decreases buffer@.len() - i,
    {
        assert(i32::MIN <= advance_sum(old(buffer)@, i + 1) <= i32::MAX);
        assert(i32::MIN <= advance_sum(old(buffer)@, i as int) <= i32::MAX);
        buffer[i].x_total_advance = total;
        total = total + buffer[i].x_advance;
        i = i + 1;
    }
}

/// The bubble of a glyph where the glyph is drawn and then `push`
/// further right, as one list of segments. For a glyph without a bubble
/// the list is empty.
pub open spec fn bubble_segments(glyph: BubbleGlyph, push: int) -> Seq<Segment> {
    match glyph.bubble_paths {
        Some(paths) => segments_moved(
            all_segments(paths@),
            glyph.placed_x() + push,
            glyph.y_offset as int,
        ),
        None => Seq::empty(),
    }
}

/// The glyph is small and near enough for kerning: its bubble and its
/// place stay within `OUTLINE_LIMIT`, its advance within
/// `ADVANCE_LIMIT`.
pub open spec fn glyph_kernable(glyph: BubbleGlyph) -> bool {
    &&& glyph.bubble_paths matches Some(paths) ==> paths_within(paths@, OUTLINE_LIMIT as int)
    &&& -OUTLINE_LIMIT <= glyph.placed_x() <= OUTLINE_LIMIT
    &&& -OUTLINE_LIMIT <= glyph.y_offset <= OUTLINE_LIMIT
    &&& -ADVANCE_LIMIT <= glyph.x_advance <= ADVANCE_LIMIT
}

/// The buffer and the scale are fit for kerning with a floor of
/// `floor_units` design units.
pub open spec fn kernable(buffer: Seq<BubbleGlyph>, scale: ScaleFactor, floor_units: u32) -> bool {
    &&& scale.wf()
    &&& -SOLVER_LIMIT <= scale.kern_floor(floor_units) <= SOLVER_LIMIT
    &&& -OUTLINE_LIMIT <= scale.scaled(PUSH as int) <= OUTLINE_LIMIT
    &&& -OUTLINE_LIMIT <= scale.scaled(TARGET as int) <= OUTLINE_LIMIT
    &&& forall|i: int| 0 <= i < buffer.len() ==> glyph_kernable(#[trigger] buffer[i])
}

/// Tells whether the buffer and the scale are fit for kerning, which
/// `shape` needs.
pub fn is_kernable(buffer: &Vec<BubbleGlyph>, scale: ScaleFactor, floor_units: u32) -> (ok: bool)
    ensures
        ok == kernable(buffer@, scale, floor_units),
{
    if scale.upem == 0 {
        return false;
    }
    let floor = scale.floor(floor_units);
    if floor < -SOLVER_LIMIT || floor > SOLVER_LIMIT {
        return false;
    }
    let push = scale.scale(PUSH);
    if push < -OUTLINE_LIMIT || push > OUTLINE_LIMIT {
        return false;
    }
    let target = scale.scale(TARGET);
    if target < -OUTLINE_LIMIT || target > OUTLINE_LIMIT {
        return false;
    }
    let mut i: usize = 0;
    while i < buffer.len()
        invariant
            i <= buffer@.len(),
            forall|k: int| 0 <= k < i ==> glyph_kernable(#[trigger] buffer@[k]),
        decreases buffer@.len() - i,
    {
        let glyph = &buffer[i];
        let x: i64 = glyph.x_total_advance as i64 + glyph.x_offset as i64;
        let y: i64 = glyph.y_offset as i64;
        if x < -OUTLINE_LIMIT || x > OUTLINE_LIMIT || y < -OUTLINE_LIMIT || y > OUTLINE_LIMIT {
            return false;
        }
        if glyph.x_advance < -ADVANCE_LIMIT || glyph.x_advance > ADVANCE_LIMIT {
            return false;
        }
        match &glyph.bubble_paths {
            Some(paths) => {
                if !paths_are_within(paths, OUTLINE_LIMIT) {
                    return false;
                }
            },
            None => {},
        }
        i = i + 1;
    }
    true
}

/// `delta` is a kern for the glyph at `ix`: where the glyph and the one
/// after it both have a bubble, the push and what the single-shot solver
/// answers for the two bubbles, the right one pushed out; else zero.
/// `unsupported` tells whether the solver met a pair of segments for
/// which there is no rule.
pub open spec fn is_bubble_kern(
    buffer: Seq<BubbleGlyph>,
    scale: ScaleFactor,
    floor_units: u32,
    admits: spec_fn(CurveQuery, u64) -> bool,
    ix: int,
    delta: int,
    unsupported: bool,
) -> bool {
    if ix + 1 < buffer.len() && buffer[ix].bubble_paths is Some && buffer[ix + 1].bubble_paths
        is Some {
        exists|solution: KernSolution| #[trigger]
            once_outcome(
                bubble_segments(buffer[ix], 0),
                bubble_segments(buffer[ix + 1], scale.scaled(PUSH as int)),
                admits,
                scale.scaled(TARGET as int),
                scale.kern_floor(floor_units),
                solution,
            ) && delta == scale.scaled(PUSH as int) + solution.kern && unsupported
                == solution.unsupported
    } else {
        delta == 0 && !unsupported
    }
}

/// `after` is `before` with a kern added to the advance of each glyph,
/// and nothing else changed; `flags[ix]` tells whether the solver met a
/// pair of segments without a rule while it settled the kern of glyph
/// `ix`.
pub open spec fn kerns_applied(
    before: Seq<BubbleGlyph>,
    scale: ScaleFactor,
    floor_units: u32,
    admits: spec_fn(CurveQuery, u64) -> bool,
    after: Seq<BubbleGlyph>,
    flags: Seq<bool>,
) -> bool {
    &&& after.len() == before.len()
    &&& flags.len() == before.len()
    &&& forall|ix: int|
        0 <= ix < before.len() ==> {
            &&& #[trigger] after[ix] == (BubbleGlyph {
                x_advance: after[ix].x_advance,
                ..before[ix]
            })
            &&& is_bubble_kern(
                before,
                scale,
                floor_units,
                admits,
                ix,
                after[ix].x_advance - before[ix].x_advance,
                flags[ix],
            )
        }
}

/// Kerning makes `after` of `before`, and `tally` tells of it.
pub open spec fn kerning_done(
    before: Seq<BubbleGlyph>,
    scale: ScaleFactor,
    floor_units: u32,
    admits: spec_fn(CurveQuery, u64) -> bool,
    after: Seq<BubbleGlyph>,
    tally: KernTally,
) -> bool {
    exists|flags: Seq<bool>| #[trigger]
        kerns_applied(before, scale, floor_units, admits, after, flags) && tally.unsupported
            == flags_set(flags, before.len() as int) && tally.kerned == advances_changed(
            before,
            after,
            before.len() as int,
        )
}

/// Segments within `OUTLINE_LIMIT`, moved by no more than twice that
/// sideways and once that upward, lie within `COORD_LIMIT`.
proof fn lemma_bubble_within(segments: Seq<Segment>, dx: int, dy: int)
    requires
        segments_within(segments, OUTLINE_LIMIT as int),
        -2 * OUTLINE_LIMIT <= dx <= 2 * OUTLINE_LIMIT,
        -OUTLINE_LIMIT <= dy <= OUTLINE_LIMIT,
    ensures
        segments_within(segments_moved(segments, dx, dy), COORD_LIMIT as int),
{
    assert forall|i: int| 0 <= i < segments.len() implies (#[trigger] segments_moved(
        segments,
        dx,
        dy,
    )[i]).within(COORD_LIMIT as int) by {
        assert(segments[i].within(OUTLINE_LIMIT as int));
    }
}

/// Settles the kern of the glyph at `ix`.
pub fn kern_for_glyph<M: Fn(CurveQuery) -> u64>(
    buffer: &Vec<BubbleGlyph>,
    ix: usize,
    scale: ScaleFactor,
    floor_units: u32,
    metric: &M,
) -> (kern: GlyphKern)
    requires
        ix < buffer@.len(),
        kernable(buffer@, scale, floor_units),
        total(metric),
    ensures
        is_bubble_kern(
            buffer@,
            scale,
            floor_units,
            admission(metric),
            ix as int,
            kern.delta as int,
            kern.unsupported,
        ),
        -2 * SOLVER_LIMIT <= kern.delta <= 2 * SOLVER_LIMIT,
{
    let none = GlyphKern { delta: 0, unsupported: false };
    if ix >= buffer.len() - 1 {
        return none;
    }
    let push = scale.scale(PUSH);
    let target = scale.scale(TARGET);
    assert(glyph_kernable(buffer@[ix as int]));
    assert(glyph_kernable(buffer@[ix + 1]));
    match buffer[ix].positioned_bubble_paths(0) {
        None => none,
        Some(left) => match buffer[ix + 1].positioned_bubble_paths(push) {
            None => none,
            Some(right) => {
                proof {
                    let a = buffer@[ix as int];
                    let b = buffer@[ix + 1];
                    lemma_paths_within_segments(a.bubble_paths->Some_0@, OUTLINE_LIMIT as int);
                    lemma_paths_within_segments(b.bubble_paths->Some_0@, OUTLINE_LIMIT as int);
                    lemma_bubble_within(
                        all_segments(a.bubble_paths->Some_0@),
                        a.placed_x(),
                        a.y_offset as int,
                    );
                    lemma_bubble_within(
                        all_segments(b.bubble_paths->Some_0@),
                        b.placed_x() + push,
                        b.y_offset as int,
                    );
                }
                let solution = determine_kern_once(
                    left.as_slice(),
                    right.as_slice(),
                    target,
                    0,
                    scale,
                    floor_units,
                    metric,
                );
                proof {
                    assert(all_segments(left@) == bubble_segments(buffer@[ix as int], 0));
                    assert(all_segments(right@) == bubble_segments(buffer@[ix + 1], push as int));
                    assert(once_outcome(
                        bubble_segments(buffer@[ix as int], 0),
                        bubble_segments(buffer@[ix + 1], scale.scaled(PUSH as int)),
                        admission(metric),
                        scale.scaled(TARGET as int),
                        scale.kern_floor(floor_units),
                        solution,
                    ));
                }
                GlyphKern { delta: push + solution.kern, unsupported: solution.unsupported }
            },
        },
    }
}

/// How many of the first `n` glyphs have another advance in `after` than
/// in `before`.
pub open spec fn advances_changed(before: Seq<BubbleGlyph>, after: Seq<BubbleGlyph>, n: int) -> nat
    decreases n,
{
    if n <= 0 {
        0
    } else if after[n - 1].x_advance != before[n - 1].x_advance {
        advances_changed(before, after, n - 1) + 1
    } else {
        advances_changed(before, after, n - 1)
    }
}

/// The count of changed advances among the first `n` glyphs only looks
/// at those glyphs.
proof fn lemma_changed_upto(
    before: Seq<BubbleGlyph>,
    after: Seq<BubbleGlyph>,
    later: Seq<BubbleGlyph>,
    n: int,
)
    requires
        0 <= n <= after.len(),
        n <= later.len(),
        forall|k: int| 0 <= k < n ==> (#[trigger] later[k]).x_advance == after[k].x_advance,
    ensures
        advances_changed(before, later, n) == advances_changed(before, after, n),
    decreases n,
{
    if n > 0 {
        lemma_changed_upto(before, after, later, n - 1);
        assert(later[n - 1].x_advance == after[n - 1].x_advance);
    }
}

/// Kerns a buffer of bubbles: each glyph's advance grows by what sets
/// its bubble against the bubble of the glyph after it, and no kern that
/// the solver answers with is below minus `floor_units` design units.
/// The buffer comes in with its running totals; they are left as they
/// were. Answers with the number of glyphs whose advance has changed,
/// and with the number of glyphs for which a pair of segments without a
/// rule was met.
pub fn shape<M: Fn(CurveQuery) -> u64>(
    buffer: &mut Vec<BubbleGlyph>,
    scale: ScaleFactor,
    floor_units: u32,
    metric: &M,
) -> (tally: KernTally)
    requires
        kernable(old(buffer)@, scale, floor_units),
        total(metric),
    ensures
        final(buffer)@.len() == old(buffer)@.len(),
        kerning_done(old(buffer)@, scale, floor_units, admission(metric), final(buffer)@, tally),
{
    let mut deltas: Vec<i64> = Vec::new();
    let ghost mut flags: Seq<bool> = Seq::empty();
    let mut unsupported: usize = 0;
    let mut ix: usize = 0;
    while ix < buffer.len()
        invariant
            buffer@ == old(buffer)@,
            kernable(buffer@, scale, floor_units),
            total(metric),
            ix <= buffer@.len(),
            deltas@.len() == ix,
            flags.len() == ix,
            unsupported <= ix,
            unsupported == flags_set(flags, ix as int),
            forall|k: int|
                0 <= k < ix ==> is_bubble_kern(
                    buffer@,
                    scale,
                    floor_units,
                    admission(metric),
                    k,
                    #[trigger] deltas@[k] as int,
                    flags[k],
                ) && -2 * SOLVER_LIMIT <= deltas@[k] <= 2 * SOLVER_LIMIT,
        decreases buffer@.len() - ix,
    {
        let kern = kern_for_glyph(buffer, ix, scale, floor_units, metric);
        deltas.push(kern.delta);
        let ghost earlier = flags;
        proof {
            flags = earlier.push(kern.unsupported);
            lemma_flags_upto(earlier, flags, ix as int);
        }
        if kern.unsupported {
            unsupported = unsupported + 1;
        }
        ix = ix + 1;
    }
    let mut kerned: usize = 0;
    let mut at: usize = 0;
    while at < buffer.len()
        invariant
            buffer@.len() == old(buffer)@.len(),
            deltas@.len() == buffer@.len(),
            flags.len() == buffer@.len(),
            kernable(old(buffer)@, scale, floor_units),
            at <= buffer@.len(),
            kerned <= at,
            kerned == advances_changed(old(buffer)@, buffer@, at as int),
            forall|k: int|
                0 <= k < deltas@.len() ==> is_bubble_kern(
                    old(buffer)@,
                    scale,
                    floor_units,
                    admission(metric),
                    k,
                    #[trigger] deltas@[k] as int,
                    flags[k],
                ) && -2 * SOLVER_LIMIT <= deltas@[k] <= 2 * SOLVER_LIMIT,
            forall|k: int|
                0 <= k < at ==> #[trigger] buffer@[k] == (BubbleGlyph {
                    x_advance: (old(buffer)@[k].x_advance + deltas@[k]) as i32,
                    ..old(buffer)@[k]
                }),
            forall|k: int| at <= k < buffer@.len() ==> #[trigger] buffer@[k] == old(buffer)@[k],
        decreases buffer@.len() - at,
    {
        assert(glyph_kernable(old(buffer)@[at as int]));
        let delta = deltas[at];
        let ghost earlier = buffer@;
        if delta != 0 {
            buffer[at].x_advance = (buffer[at].x_advance as i64 + delta) as i32;
            kerned = kerned + 1;
        }
        proof {
            lemma_changed_upto(old(buffer)@, earlier, buffer@, at as int);
        }
        at = at + 1;
    }
    let tally = KernTally { kerned, unsupported };
    proof {
        assert forall|k: int| 0 <= k < old(buffer)@.len() implies {
            &&& #[trigger] buffer@[k] == (BubbleGlyph {
                x_advance: buffer@[k].x_advance,
                ..old(buffer)@[k]
            })
            &&& is_bubble_kern(
                old(buffer)@,
                scale,
                floor_units,
                admission(metric),
                k,
                buffer@[k].x_advance - old(buffer)@[k].x_advance,
                flags[k],
            )
        } by {
            assert(glyph_kernable(old(buffer)@[k]));
            assert(is_bubble_kern(
                old(buffer)@,
                scale,
                floor_units,
                admission(metric),
                k,
                deltas@[k] as int,
                flags[k],
            ));
        }
        assert(kerns_applied(
            old(buffer)@,
            scale,
            floor_units,
            admission(metric),
            buffer@,
            flags,
        ));
    }
    tally
}

} // verus!
