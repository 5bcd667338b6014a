//! Kerning a buffer: which glyphs are kerned against which, and by how
//! much.
//!
//! A glyph that starts a group of letters, or stands alone, is kerned
//! against the next glyph that ends a group or stands alone. Its own
//! outline is taken together with the outlines of a few glyphs before it,
//! dots left out, because those belong to the same stroke. All kerns are
//! settled on the buffer as it comes in, and only then added to the
//! advances.

use crate::geometry::{
    all_segments, collect_segments, segments_moved, segments_within, Segment, COORD_LIMIT,
};
use crate::glyph::{
    lemma_paths_within_segments, paths_are_within, paths_within, translate_paths, GulzarGlyph,
};
use crate::kern::{
    iterated_outcome, once_outcome, solve_kern, solve_kern_once, KernSolution, ScaleFactor,
    SOLVER_LIMIT, TARGET_LIMIT,
};
use crate::measure::{admission, total, CurveQuery};
use vstd::prelude::*;

verus! {

/// Largest absolute coordinate of an outline, and largest distance of a
/// glyph from the start of the line, that kerning accepts.
pub const OUTLINE_LIMIT: i64 = 0x100_0000;

/// Largest absolute advance that kerning accepts.
pub const ADVANCE_LIMIT: i32 = 0x4000_0000;

/// How a script wants its glyphs kerned.
#[derive(Clone, Copy, Debug, PartialEq, Eq, Structural)]
pub struct KernConfig {
    /// The distance that two kerned glyphs are to have.
    pub target_distance: i64,
    /// What is added to a kern across a space.
    pub space_allowance: i64,
    /// Whether a space ends the search for the glyph to kern against.
    pub stop_at_space: bool,
    /// Whether only kerns that tighten are kept.
    pub only_tighten: bool,
    /// How many glyphs before a glyph are taken together with it.
    pub context: usize,
    /// Whether the iterative solver is used, or the single-shot one.
    pub iterative: bool,
    /// The most that a glyph may be tucked under its neighbour. It is
    /// handed to the solver, which does not read it.
    pub max_tuck: i64,
    /// How many design units of tightening the solver allows: no kern
    /// that it answers with is below minus this many design units.
    pub floor_units: u32,
}

/// The glyph is a space that takes up room.
pub open spec fn is_wide_space(glyph: GulzarGlyph) -> bool {
    glyph.role.space && glyph.x_advance > 0
}

/// The glyph can be the left one of a kerned pair.
pub open spec fn can_start_pair(glyph: GulzarGlyph) -> bool {
    glyph.role.init || glyph.role.isol
}

/// The glyph can be the right one of a kerned pair.
pub open spec fn can_end_pair(glyph: GulzarGlyph) -> bool {
    glyph.role.isol || glyph.role.fina
}

/// The glyph is a dot, below or above.
pub open spec fn is_dot(glyph: GulzarGlyph) -> bool {
    glyph.role.dot_below || glyph.role.dot_above
}

/// The glyph at `p` is the first after `ix` that can end a pair.
pub open spec fn is_next_end(buffer: Seq<GulzarGlyph>, ix: int, p: int) -> bool {
    &&& ix < p < buffer.len()
    &&& can_end_pair(buffer[p])
    &&& forall|k: int| ix < k < p ==> !can_end_pair(#[trigger] buffer[k])
}

/// The glyph at `k` is a wide space after `ix` and not after `p`.
pub open spec fn is_space_upto(buffer: Seq<GulzarGlyph>, ix: int, p: int, k: int) -> bool {
    ix < k <= p && k < buffer.len() && is_wide_space(buffer[k])
}

/// A wide space lies after `ix` and not after `p`.
pub open spec fn space_within(buffer: Seq<GulzarGlyph>, ix: int, p: int) -> bool {
    exists|k: int| #[trigger] is_space_upto(buffer, ix, p, k)
}

/// The glyph to kern against, and whether a wide space lies on the way
/// to it.
#[derive(Clone, Copy, Debug, PartialEq, Eq, Structural)]
pub struct Partner {
    pub index: usize,
    pub across_space: bool,
}

/// `partner` is what the glyph at `ix` is kerned against: the first
/// glyph after it that can end a pair. Where spaces stop the search, a
/// wide space on the way leaves the glyph without a partner.
pub open spec fn is_partner(
    buffer: Seq<GulzarGlyph>,
    ix: int,
    stop_at_space: bool,
    partner: Option<Partner>,
) -> bool {
    match partner {
        Some(p) => {
            &&& is_next_end(buffer, ix, p.index as int)
            &&& p.across_space == space_within(buffer, ix, p.index as int)
            &&& !(stop_at_space && p.across_space)
        },
        None => forall|p: int| #[trigger]
            is_next_end(buffer, ix, p) ==> stop_at_space && space_within(buffer, ix, p),
    }
}

/// Finds the glyph that the glyph at `ix` is kerned against.
pub fn find_partner(buffer: &Vec<GulzarGlyph>, ix: usize, stop_at_space: bool) -> (partner: Option<
    Partner,
>)
    requires
        ix < buffer@.len(),
    ensures
        is_partner(buffer@, ix as int, stop_at_space, partner),
        partner matches Some(p) ==> ix < p.index < buffer@.len(),
{
    let len = buffer.len();
    let mut seen_space = false;
    let mut at: usize = ix + 1;
    while at < len
        invariant
            len == buffer@.len(),
            ix < at <= buffer@.len(),
            forall|k: int| ix < k < at ==> !can_end_pair(#[trigger] buffer@[k]),
            seen_space == space_within(buffer@, ix as int, at - 1),
            !(stop_at_space && seen_space),
        decreases buffer@.len() - at,
    {
        let glyph = &buffer[at];
        let ghost before = seen_space;
        if glyph.role.space && glyph.x_advance > 0 {
            assert(is_space_upto(buffer@, ix as int, at as int, at as int));
            if stop_at_space {
                assert forall|p: int| #[trigger] is_next_end(buffer@, ix as int, p) implies space_within(
                    buffer@,
                    ix as int,
                    p,
                ) by {
                    assert(is_space_upto(buffer@, ix as int, p, at as int));
                }
                return None;
            }
            seen_space = true;
        } else {
            assert(seen_space == space_within(buffer@, ix as int, at as int)) by {
                if space_within(buffer@, ix as int, at as int) {
                    let k = choose|k: int| #[trigger]
                        is_space_upto(buffer@, ix as int, at as int, k);
                    assert(is_space_upto(buffer@, ix as int, at - 1, k));
                }
                if before {
                    let k = choose|k: int| #[trigger]
                        is_space_upto(buffer@, ix as int, at - 1, k);
                    assert(is_space_upto(buffer@, ix as int, at as int, k));
                }
            }
        }
        if glyph.role.isol || glyph.role.fina {
            return Some(Partner { index: at, across_space: seen_space });
        }
        at = at + 1;
    }
    None
}

/// The glyphs before a glyph that are taken together with it: from
/// place `k` backward, dots passed over, until `need` glyphs are found
/// or the second glyph of the buffer has been looked at. The first glyph
/// of the buffer is never taken.
pub open spec fn context_from(buffer: Seq<GulzarGlyph>, k: int, need: nat) -> Seq<int>
    decreases k,
{
    if k <= 0 || need == 0 {
        Seq::empty()
    } else if is_dot(buffer[k]) {
        context_from(buffer, k - 1, need)
    } else {
        seq![k] + context_from(buffer, k - 1, (need - 1) as nat)
    }
}

/// The outline of a glyph where the glyph is drawn, as one list of
/// segments.
pub open spec fn placed_segments(glyph: GulzarGlyph) -> Seq<Segment> {
    segments_moved(all_segments(glyph.paths@), glyph.placed_x(), glyph.placed_y())
}

/// The outlines of the glyphs at the given places, one after another.
pub open spec fn segments_at(buffer: Seq<GulzarGlyph>, places: Seq<int>) -> Seq<Segment>
    decreases places.len(),
{
    if places.len() == 0 {
        Seq::empty()
    } else {
        segments_at(buffer, places.drop_last()) + placed_segments(buffer[places.last()])
    }
}

/// Some glyph at the given places has a path.
pub open spec fn any_paths_at(buffer: Seq<GulzarGlyph>, places: Seq<int>) -> bool {
    exists|n: int| 0 <= n < places.len() && (#[trigger] buffer[places[n]]).paths@.len() > 0
}

/// The left-hand side for the glyph at `ix`: its own outline, then the
/// outlines of the glyphs taken together with it, nearest first.
pub open spec fn left_segments(buffer: Seq<GulzarGlyph>, ix: int, context: nat) -> Seq<Segment> {
    placed_segments(buffer[ix]) + segments_at(buffer, context_from(buffer, ix - 1, context))
}

/// The left-hand side for the glyph at `ix` has a path.
pub open spec fn left_has_paths(buffer: Seq<GulzarGlyph>, ix: int, context: nat) -> bool {
    buffer[ix].paths@.len() > 0 || any_paths_at(buffer, context_from(buffer, ix - 1, context))
}

/// The glyph is small and near enough for kerning: its outline and its
/// place stay within `OUTLINE_LIMIT`, its advance within
/// `ADVANCE_LIMIT`.
pub open spec fn glyph_kernable(glyph: GulzarGlyph) -> bool {
    &&& paths_within(glyph.paths@, OUTLINE_LIMIT as int)
    &&& -OUTLINE_LIMIT <= glyph.placed_x() <= OUTLINE_LIMIT
    &&& -OUTLINE_LIMIT <= glyph.placed_y() <= OUTLINE_LIMIT
    &&& -ADVANCE_LIMIT <= glyph.x_advance <= ADVANCE_LIMIT
}

/// The numbers of the setup are small enough for kerning.
pub open spec fn setup_kernable(config: KernConfig, scale: ScaleFactor) -> bool {
    &&& scale.wf()
    &&& -SOLVER_LIMIT <= scale.kern_floor(config.floor_units) <= SOLVER_LIMIT
    &&& -TARGET_LIMIT <= config.target_distance <= TARGET_LIMIT
    &&& -SOLVER_LIMIT <= config.space_allowance <= SOLVER_LIMIT
}

/// The buffer and the setup are fit for kerning.
pub open spec fn kernable(buffer: Seq<GulzarGlyph>, config: KernConfig, scale: ScaleFactor) -> bool {
    &&& setup_kernable(config, scale)
    &&& forall|i: int| 0 <= i < buffer.len() ==> glyph_kernable(#[trigger] buffer[i])
}

/// The outline of a kernable glyph, where the glyph is drawn, stays
/// within `SOLVER_LIMIT`.
pub proof fn lemma_placed_within(glyph: GulzarGlyph)
    requires
        glyph_kernable(glyph),
    ensures
        segments_within(placed_segments(glyph), SOLVER_LIMIT as int),
        segments_within(placed_segments(glyph), COORD_LIMIT as int),
{
    lemma_paths_within_segments(glyph.paths@, OUTLINE_LIMIT as int);
    let flat = all_segments(glyph.paths@);
    assert forall|i: int| 0 <= i < flat.len() implies (#[trigger] placed_segments(
        glyph,
    )[i]).within(SOLVER_LIMIT as int) by {
        assert(flat[i].within(OUTLINE_LIMIT as int));
    }
}

/// Tells whether the buffer and the setup are fit for kerning, which
/// `kern_buffer` needs.
pub fn is_kernable(buffer: &Vec<GulzarGlyph>, config: &KernConfig, scale: ScaleFactor) -> (ok: bool)
    ensures
        ok == kernable(buffer@, *config, scale),
{
    if scale.upem == 0 {
        return false;
    }
    let floor = scale.floor(config.floor_units);
    if floor < -SOLVER_LIMIT || floor > SOLVER_LIMIT {
        return false;
    }
    if config.target_distance < -TARGET_LIMIT || config.target_distance > TARGET_LIMIT {
        return false;
    }
    if config.space_allowance < -SOLVER_LIMIT || config.space_allowance > SOLVER_LIMIT {
        return false;
    }
    let mut i: usize = 0;
    while i < buffer.len()
        invariant
            i <= buffer@.len(),
            forall|k: int| 0 <= k < i ==> glyph_kernable(#[trigger] buffer@[k]),
        decreases buffer@.len() - i,
    {
        let glyph = &buffer[i];
        let x: i64 = glyph.x_total_advance as i64 + glyph.x_offset as i64;
        let y: i64 = glyph.y_offset as i64;
        if x < -OUTLINE_LIMIT || x > OUTLINE_LIMIT || y < -OUTLINE_LIMIT || y > OUTLINE_LIMIT {
            return false;
        }
        if glyph.x_advance < -ADVANCE_LIMIT || glyph.x_advance > ADVANCE_LIMIT {
            return false;
        }
        if !paths_are_within(&glyph.paths, OUTLINE_LIMIT) {
            return false;
        }
        i = i + 1;
    }
    true
}

/// The outline of the glyph at `i` where the glyph is drawn, as one
/// list of segments.
pub fn segments_in_place(buffer: &Vec<GulzarGlyph>, i: usize) -> (segments: Vec<Segment>)
    requires
        i < buffer@.len(),
        glyph_kernable(buffer@[i as int]),
    ensures
        segments@ == placed_segments(buffer@[i as int]),
        segments_within(segments@, SOLVER_LIMIT as int),
        segments_within(segments@, COORD_LIMIT as int),
{
    let glyph = &buffer[i];
    proof {
        lemma_placed_within(*glyph);
        assert forall|k: int| 0 <= k < glyph.paths@.len() implies segments_within(
            (#[trigger] glyph.paths@[k]).segments@,
            COORD_LIMIT as int,
        ) by {
            assert(segments_within(glyph.paths@[k].segments@, OUTLINE_LIMIT as int));
            assert forall|n: int| 0 <= n < glyph.paths@[k].segments@.len() implies (
            #[trigger] glyph.paths@[k].segments@[n]).within(COORD_LIMIT as int) by {
                assert(glyph.paths@[k].segments@[n].within(OUTLINE_LIMIT as int));
            }
        }
    }
    let placed = translate_paths(
        &glyph.paths,
        glyph.x_total_advance as i64 + glyph.x_offset as i64,
        glyph.y_offset as i64,
    );
    collect_segments(placed.as_slice())
}

/// Appending segments within a limit to segments within that limit
/// gives segments within that limit.
proof fn lemma_joined_within(a: Seq<Segment>, b: Seq<Segment>, limit: int)
    requires
        segments_within(a, limit),
        segments_within(b, limit),
    ensures
        segments_within(a + b, limit),
{
    assert forall|i: int| 0 <= i < (a + b).len() implies (#[trigger] (a + b)[i]).within(limit) by {
        if i < a.len() {
            assert(a[i].within(limit));
        } else {
            assert(b[i - a.len()].within(limit));
        }
    }
}

/// Gathers the left-hand side for the glyph at `ix`: its own outline and
/// those of up to `context` glyphs before it, and whether any of them has
/// a path.
pub fn gather_left(buffer: &Vec<GulzarGlyph>, ix: usize, context: usize) -> (side: (
    Vec<Segment>,
    bool,
))
    requires
        ix < buffer@.len(),
        forall|i: int| 0 <= i < buffer@.len() ==> glyph_kernable(#[trigger] buffer@[i]),
    ensures
        side.0@ == left_segments(buffer@, ix as int, context as nat),
        side.1 == left_has_paths(buffer@, ix as int, context as nat),
        segments_within(side.0@, COORD_LIMIT as int),
{
    let mut left = segments_in_place(buffer, ix);
    let mut has_paths = buffer[ix].paths.len() > 0;
    let ghost mut taken: Seq<int> = Seq::empty();
    let mut k: usize = ix;
    let mut need: usize = context;
    while k > 1 && need > 0
        invariant
            ix < buffer@.len(),
            forall|i: int| 0 <= i < buffer@.len() ==> glyph_kernable(#[trigger] buffer@[i]),
            k <= ix,
            need <= context,
            left@ == placed_segments(buffer@[ix as int]) + segments_at(buffer@, taken),
            taken + context_from(buffer@, k - 1, need as nat) == context_from(
                buffer@,
                ix - 1,
                context as nat,
            ),
            forall|n: int| 0 <= n < taken.len() ==> 0 <= #[trigger] taken[n] < buffer@.len(),
            has_paths == (buffer@[ix as int].paths@.len() > 0 || any_paths_at(buffer@, taken)),
            segments_within(left@, COORD_LIMIT as int),
        decreases k,
    {
        let at: usize = k - 1;
        let glyph = &buffer[at];
        if !(glyph.role.dot_below || glyph.role.dot_above) {
            let more = segments_in_place(buffer, at);
            let ghost before = taken;
            let ghost had = has_paths;
            proof {
                taken = before.push(at as int);
                assert(taken.drop_last() == before);
                assert(taken.last() == at);
                assert(before + (seq![at as int] + context_from(
                    buffer@,
                    at - 1,
                    (need - 1) as nat,
                )) =~= taken + context_from(buffer@, at - 1, (need - 1) as nat));
                lemma_joined_within(left@, more@, COORD_LIMIT as int);
            }
            let mut more = more;
            left.append(&mut more);
            if glyph.paths.len() > 0 {
                has_paths = true;
            }
            proof {
                assert(left@ =~= placed_segments(buffer@[ix as int]) + segments_at(buffer@, taken));
                if glyph.paths@.len() > 0 {
                    assert(buffer@[taken[taken.len() - 1]].paths@.len() > 0);
                } else {
                    if any_paths_at(buffer@, taken) {
                        let n = choose|n: int|
                            0 <= n < taken.len() && (#[trigger] buffer@[taken[n]]).paths@.len()
                                > 0;
                        assert(n < before.len());
                        assert(buffer@[before[n]].paths@.len() > 0);
                    }
                    if any_paths_at(buffer@, before) {
                        let n = choose|n: int|
                            0 <= n < before.len() && (#[trigger] buffer@[before[n]]).paths@.len()
                                > 0;
                        assert(buffer@[taken[n]].paths@.len() > 0);
                    }
                }
                if had && !(buffer@[ix as int].paths@.len() > 0) {
                    let n = choose|n: int|
                        0 <= n < before.len() && (#[trigger] buffer@[before[n]]).paths@.len() > 0;
                    assert(buffer@[taken[n]].paths@.len() > 0);
                }
            }
            need = need - 1;
        }
        k = k - 1;
    }
    proof {
        assert(context_from(buffer@, k - 1, need as nat) =~= Seq::<int>::empty());
        assert(taken =~= context_from(buffer@, ix - 1, context as nat));
    }
    (left, has_paths)
}

/// `solution` is what the solver of the setup may answer for the two
/// sides.
pub open spec fn pair_outcome(
    left: Seq<Segment>,
    right: Seq<Segment>,
    admits: spec_fn(CurveQuery, u64) -> bool,
    config: KernConfig,
    scale: ScaleFactor,
    solution: KernSolution,
) -> bool {
    if config.iterative {
        iterated_outcome(
            left,
            right,
            admits,
            config.target_distance as int,
            scale.kern_floor(config.floor_units),
            solution,
        )
    } else {
        once_outcome(
            left,
            right,
            admits,
            config.target_distance as int,
            scale.kern_floor(config.floor_units),
            solution,
        )
    }
}

/// What becomes of the solver's answer: across a space the allowance is
/// added, and where only tightening is wanted a kern that would loosen
/// is dropped.
pub open spec fn adjusted(raw: int, across_space: bool, config: KernConfig) -> int {
    let kern = if across_space {
        raw + config.space_allowance
    } else {
        raw
    };
    if config.only_tighten && kern >= 0 {
        0
    } else {
        kern
    }
}

/// The kern of one glyph.
#[derive(Clone, Copy, Debug, PartialEq, Eq, Structural)]
pub struct GlyphKern {
    /// What is to be added to the glyph's advance.
    pub delta: i64,
    /// Whether the solver met a pair of segments for which there is no
    /// rule while it settled this kern.
    pub unsupported: bool,
}

/// `delta` is a kern for the glyph at `ix` against `partner`, and
/// `unsupported` tells whether the solver met a pair of segments without
/// a rule. Without a partner, or where one side has no path, nothing is
/// measured and the kern is zero.
pub open spec fn is_kern_against(
    buffer: Seq<GulzarGlyph>,
    config: KernConfig,
    scale: ScaleFactor,
    admits: spec_fn(CurveQuery, u64) -> bool,
    ix: int,
    partner: Option<Partner>,
    delta: int,
    unsupported: bool,
) -> bool {
    match partner {
        None => delta == 0 && !unsupported,
        Some(p) => if !left_has_paths(buffer, ix, config.context as nat)
            || buffer[p.index as int].paths@.len() == 0 {
            delta == 0 && !unsupported
        } else {
            exists|solution: KernSolution| #[trigger]
                pair_outcome(
                    left_segments(buffer, ix, config.context as nat),
                    placed_segments(buffer[p.index as int]),
                    admits,
                    config,
                    scale,
                    solution,
                ) && delta == adjusted(solution.kern as int, p.across_space, config)
                    && unsupported == solution.unsupported
        },
    }
}

/// `delta` is a kern for the glyph at `ix`: zero for a glyph that cannot
/// start a pair, else a kern against its partner.
pub open spec fn is_kern_delta(
    buffer: Seq<GulzarGlyph>,
    config: KernConfig,
    scale: ScaleFactor,
    admits: spec_fn(CurveQuery, u64) -> bool,
    ix: int,
    delta: int,
    unsupported: bool,
) -> bool {
    if !can_start_pair(buffer[ix]) {
        delta == 0 && !unsupported
    } else {
        exists|partner: Option<Partner>| #[trigger]
            is_partner(buffer, ix, config.stop_at_space, partner) && is_kern_against(
                buffer,
                config,
                scale,
                admits,
                ix,
                partner,
                delta,
                unsupported,
            )
    }
}

/// Settles the kern of the glyph at `ix`.
pub fn kern_for_glyph<M: Fn(CurveQuery) -> u64>(
    buffer: &Vec<GulzarGlyph>,
    ix: usize,
    config: &KernConfig,
    scale: ScaleFactor,
    metric: &M,
) -> (kern: GlyphKern)
    requires
        ix < buffer@.len(),
        kernable(buffer@, *config, scale),
        total(metric),
    ensures
        is_kern_delta(
            buffer@,
            *config,
            scale,
            admission(metric),
            ix as int,
            kern.delta as int,
            kern.unsupported,
        ),
        -2 * SOLVER_LIMIT <= kern.delta <= 2 * SOLVER_LIMIT,
{
    let glyph = &buffer[ix];
    let none = GlyphKern { delta: 0, unsupported: false };
    if !(glyph.role.init || glyph.role.isol) {
        return none;
    }
    let partner = find_partner(buffer, ix, config.stop_at_space);
    match partner {
        None => {
            assert(is_kern_against(
                buffer@,
                *config,
                scale,
                admission(metric),
                ix as int,
                partner,
                0,
                false,
            ));
            none
        },
        Some(p) => {
            let (left, left_has) = gather_left(buffer, ix, config.context);
            if !left_has || buffer[p.index].paths.len() == 0 {
                assert(is_kern_against(
                    buffer@,
                    *config,
                    scale,
                    admission(metric),
                    ix as int,
                    partner,
                    0,
                    false,
                ));
                return none;
            }
            let right = segments_in_place(buffer, p.index);
            let solution = if config.iterative {
                solve_kern(
                    &left,
                    &right,
                    config.target_distance,
                    scale,
                    config.floor_units,
                    metric,
                )
            } else {
                solve_kern_once(
                    &left,
                    &right,
                    config.target_distance,
                    scale,
                    config.floor_units,
                    metric,
                )
            };
            assert(pair_outcome(left@, right@, admission(metric), *config, scale, solution));
            let raw: i64 = solution.kern;
            let kern: i64 = if p.across_space {
                raw + config.space_allowance
            } else {
                raw
            };
            let delta: i64 = if config.only_tighten && kern >= 0 {
                0
            } else {
                kern
            };
            assert(is_kern_against(
                buffer@,
                *config,
                scale,
                admission(metric),
                ix as int,
                partner,
                delta as int,
                solution.unsupported,
            ));
            GlyphKern { delta, unsupported: solution.unsupported }
        },
    }
}

/// `after` is `before` with a kern added to the advance of each glyph,
/// and nothing else changed; `flags[ix]` tells whether the solver met a
/// pair of segments without a rule while it settled the kern of glyph
/// `ix`.
pub open spec fn kerns_applied(
    before: Seq<GulzarGlyph>,
    config: KernConfig,
    scale: ScaleFactor,
    admits: spec_fn(CurveQuery, u64) -> bool,
    after: Seq<GulzarGlyph>,
    flags: Seq<bool>,
) -> bool {
    &&& after.len() == before.len()
    &&& flags.len() == before.len()
    &&& forall|ix: int|
        0 <= ix < before.len() ==> {
            &&& #[trigger] after[ix] == (GulzarGlyph {
                x_advance: after[ix].x_advance,
                ..before[ix]
            })
            &&& is_kern_delta(
                before,
                config,
                scale,
                admits,
                ix,
                after[ix].x_advance - before[ix].x_advance,
                flags[ix],
            )
        }
}

/// How many of the first `n` glyphs have another advance in `after` than
/// in `before`.
pub open spec fn advances_changed(before: Seq<GulzarGlyph>, after: Seq<GulzarGlyph>, n: int) -> nat
    decreases n,
{
    if n <= 0 {
        0
    } else if after[n - 1].x_advance != before[n - 1].x_advance {
        advances_changed(before, after, n - 1) + 1
    } else {
        advances_changed(before, after, n - 1)
    }
}

/// How many of the first `n` flags are set.
pub open spec fn flags_set(flags: Seq<bool>, n: int) -> nat
    decreases n,
{
    if n <= 0 {
        0
    } else if flags[n - 1] {
        flags_set(flags, n - 1) + 1
    } else {
        flags_set(flags, n - 1)
    }
}

/// The count of changed advances among the first `n` glyphs only looks
/// at those glyphs.
proof fn lemma_changed_upto(
    before: Seq<GulzarGlyph>,
    after: Seq<GulzarGlyph>,
    later: Seq<GulzarGlyph>,
    n: int,
)
    requires
        0 <= n <= after.len(),
        n <= later.len(),
        forall|k: int| 0 <= k < n ==> (#[trigger] later[k]).x_advance == after[k].x_advance,
    ensures
        advances_changed(before, later, n) == advances_changed(before, after, n),
    decreases n,
{
    if n > 0 {
        lemma_changed_upto(before, after, later, n - 1);
        assert(later[n - 1].x_advance == after[n - 1].x_advance);
    }
}

/// What kerning a buffer came to.
#[derive(Clone, Copy, Debug, PartialEq, Eq, Structural)]
pub struct KernTally {
    /// How many glyphs have another advance than before.
    pub kerned: usize,
    /// For how many glyphs the solver met a pair of segments for which
    /// there is no rule. Their kerns may be wide of the mark.
    pub unsupported: usize,
}

/// Kerning makes `after` of `before`, and `tally` tells of it.
pub open spec fn kerning_done(
    before: Seq<GulzarGlyph>,
    config: KernConfig,
    scale: ScaleFactor,
    admits: spec_fn(CurveQuery, u64) -> bool,
    after: Seq<GulzarGlyph>,
    tally: KernTally,
) -> bool {
    exists|flags: Seq<bool>| #[trigger]
        kerns_applied(before, config, scale, admits, after, flags) && tally.unsupported
            == flags_set(flags, before.len() as int) && tally.kerned == advances_changed(
            before,
            after,
            before.len() as int,
        )
}

/// Kerns the buffer: settles the kern of every glyph on the buffer as it
/// comes in, then adds each kern to its glyph's advance. The running
/// totals are left as they were and no longer fit the advances. Answers
/// with the number of glyphs whose advance has changed, and with the
/// number of glyphs for which a pair of segments without a rule was met.
pub fn kern_buffer<M: Fn(CurveQuery) -> u64>(
    buffer: &mut Vec<GulzarGlyph>,
    config: &KernConfig,
    scale: ScaleFactor,
    metric: &M,
) -> (tally: KernTally)
    requires
        kernable(old(buffer)@, *config, scale),
        total(metric),
    ensures
        final(buffer)@.len() == old(buffer)@.len(),
        kerning_done(old(buffer)@, *config, scale, admission(metric), final(buffer)@, tally),
{
    let mut deltas: Vec<i64> = Vec::new();
    let ghost mut flags: Seq<bool> = Seq::empty();
    let mut unsupported: usize = 0;
    let mut ix: usize = 0;
    while ix < buffer.len()
        invariant
            buffer@ == old(buffer)@,
            kernable(buffer@, *config, scale),
            total(metric),
            ix <= buffer@.len(),
            deltas@.len() == ix,
            flags.len() == ix,
            unsupported <= ix,
            unsupported == flags_set(flags, ix as int),
            forall|k: int|
                0 <= k < ix ==> is_kern_delta(
                    buffer@,
                    *config,
                    scale,
                    admission(metric),
                    k,
                    #[trigger] deltas@[k] as int,
                    flags[k],
                ) && -2 * SOLVER_LIMIT <= deltas@[k] <= 2 * SOLVER_LIMIT,
        decreases buffer@.len() - ix,
    {
        let kern = kern_for_glyph(buffer, ix, config, scale, metric);
        deltas.push(kern.delta);
        let ghost earlier = flags;
        proof {
            flags = earlier.push(kern.unsupported);
            lemma_flags_upto(earlier, flags, ix as int);
        }
        if kern.unsupported {
            unsupported = unsupported + 1;
        }
        ix = ix + 1;
    }
    let mut kerned: usize = 0;
    let mut at: usize = 0;
    while at < buffer.len()
        invariant
            buffer@.len() == old(buffer)@.len(),
            deltas@.len() == buffer@.len(),
            flags.len() == buffer@.len(),
            kernable(old(buffer)@, *config, scale),
            at <= buffer@.len(),
            kerned <= at,
            kerned == advances_changed(old(buffer)@, buffer@, at as int),
            forall|k: int|
                0 <= k < deltas@.len() ==> is_kern_delta(
                    old(buffer)@,
                    *config,
                    scale,
                    admission(metric),
                    k,
                    #[trigger] deltas@[k] as int,
                    flags[k],
                ) && -2 * SOLVER_LIMIT <= deltas@[k] <= 2 * SOLVER_LIMIT,
            forall|k: int|
                0 <= k < at ==> #[trigger] buffer@[k] == (GulzarGlyph {
                    x_advance: (old(buffer)@[k].x_advance + deltas@[k]) as i32,
                    ..old(buffer)@[k]
                }),
            forall|k: int| at <= k < buffer@.len() ==> #[trigger] buffer@[k] == old(buffer)@[k],
        decreases buffer@.len() - at,
    {
        assert(glyph_kernable(old(buffer)@[at as int]));
        let delta = deltas[at];
        let ghost earlier = buffer@;
        if delta != 0 {
            buffer[at].x_advance = (buffer[at].x_advance as i64 + delta) as i32;
            kerned = kerned + 1;
        }
        proof {
            lemma_changed_upto(old(buffer)@, earlier, buffer@, at as int);
        }
        at = at + 1;
    }
    let tally = KernTally { kerned, unsupported };
    proof {
        assert forall|k: int| 0 <= k < old(buffer)@.len() implies {
            &&& #[trigger] buffer@[k] == (GulzarGlyph {
                x_advance: buffer@[k].x_advance,
                ..old(buffer)@[k]
            })
            &&& is_kern_delta(
                old(buffer)@,
                *config,
                scale,
                admission(metric),
                k,
                buffer@[k].x_advance - old(buffer)@[k].x_advance,
                flags[k],
            )
        } by {
            assert(glyph_kernable(old(buffer)@[k]));
            assert(is_kern_delta(
                old(buffer)@,
                *config,
                scale,
                admission(metric),
                k,
                deltas@[k] as int,
                flags[k],
            ));
        }
        assert(kerns_applied(old(buffer)@, *config, scale, admission(metric), buffer@, flags));
    }
    tally
}

/// The count of flags among the first `n` only looks at those flags.
pub proof fn lemma_flags_upto(flags: Seq<bool>, later: Seq<bool>, n: int)
    requires
        0 <= n <= flags.len(),
        n <= later.len(),
        forall|k: int| 0 <= k < n ==> later[k] == flags[k],
    ensures
        flags_set(later, n) == flags_set(flags, n),
    decreases n,
{
    if n > 0 {
        lemma_flags_upto(flags, later, n - 1);
    }
}

} // verus!
