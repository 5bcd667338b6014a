//! How far to move a glyph so that it sits a target distance from its
//! neighbour.
//!
//! Two solvers share one rule. The single-shot solver measures once and
//! answers with the target minus the distance. The iterative solver moves
//! a copy of the right-hand outlines by what it has found so far and
//! measures again, up to ten times, until the distance is within ten
//! units of the target. Neither ever answers with less than the floor,
//! which is a number of design units, as a rule a thousand, under the
//! font's scale. A solver also tells whether it had to measure a pair of
//! segments for which there is no rule.

use crate::geometry::{
    all_segments, all_within, collect_segments, segments_can_move, segments_moved,
    segments_within, translate_segments, Path, Segment, COORD_LIMIT,
};
use crate::measure::{
    admission, measure_segments, measured, total, CurveQuery, Measured, Refinement,
};
use vstd::prelude::*;

verus! {

/// How many times the iterative solver measures at most.
pub const MAX_ROUNDS: u8 = 10;

/// The iterative solver stops once the distance is this close to the
/// target.
pub const TOLERANCE: i64 = 10;

/// Design units of tightening that the floor allows as a rule.
pub const FLOOR_UNITS: u32 = 1000;

/// Largest absolute target distance that the iterative solver accepts.
pub const TARGET_LIMIT: i64 = 0x20_0000;

/// Largest absolute coordinate of the right-hand outlines, and largest
/// tightening, that the iterative solver accepts. It moves the outlines,
/// and they must stay within `COORD_LIMIT`.
pub const SOLVER_LIMIT: i64 = 0x200_0000;

/// The ratio between device units and design units: `x_scale` device
/// units make `upem` design units.
#[derive(Clone, Copy, Debug, PartialEq, Eq, Structural)]
pub struct ScaleFactor {
    pub x_scale: i32,
    pub upem: u32,
}

/// `n / d` cut toward zero, for a positive `d`.
pub open spec fn div_toward_zero(n: int, d: int) -> int {
    if n >= 0 {
        n / d
    } else {
        -((-n) / d)
    }
}

/// The nearest value to `v` that an advance or an offset can hold.
pub open spec fn clamped(v: int) -> int {
    if v < i32::MIN {
        i32::MIN as int
    } else if v > i32::MAX {
        i32::MAX as int
    } else {
        v
    }
}

impl ScaleFactor {
    /// A scale needs a positive number of units per em.
    pub open spec fn wf(self) -> bool {
        self.upem > 0
    }

    /// `design` design units in device units, cut toward zero.
    pub open spec fn scaled(self, design: int) -> int {
        div_toward_zero(design * self.x_scale, self.upem as int)
    }

    /// The least kern that a solver answers with where `units` design
    /// units of tightening are allowed: the least integer that is not
    /// below minus `units` design units.
    pub open spec fn kern_floor(self, units: u32) -> int {
        if self.x_scale >= 0 {
            -((units * self.x_scale) / (self.upem as int))
        } else {
            (units * (-self.x_scale) + self.upem - 1) / (self.upem as int)
        }
    }

    /// Converts a length in design units to device units, cutting toward
    /// zero.
    pub fn scale(&self, design: i32) -> (device: i64)
        requires
            self.wf(),
        ensures
            device == self.scaled(design as int),
    {
        assert(-0x4000_0000_0000_0000 <= design * self.x_scale <= 0x4000_0000_0000_0000)
            by (nonlinear_arith)
            requires
                -0x8000_0000 <= design <= 0x8000_0000,
                -0x8000_0000 <= self.x_scale <= 0x8000_0000,
        ;
        let product: i128 = (design as i128) * (self.x_scale as i128);
        let d: i128 = self.upem as i128;
        if product >= 0 {
            let q = product / d;
            assert(0 <= q <= product) by (nonlinear_arith)
                requires
                    q == product / d,
                    product >= 0,
                    d >= 1,
            ;
            q as i64
        } else {
            let opposite: i128 = -product;
            let q = opposite / d;
            assert(0 <= q <= opposite) by (nonlinear_arith)
                requires
                    q == opposite / d,
                    opposite >= 0,
                    d >= 1,
            ;
            (-q) as i64
        }
    }

    /// Converts a length in design units to device units, cutting toward
    /// zero, and answers with the nearest value that an advance or an
    /// offset can hold.
    pub fn scale_clamped(&self, design: i32) -> (device: i32)
        requires
            self.wf(),
        ensures
            device == clamped(self.scaled(design as int)),
    {
        let wide = self.scale(design);
        if wide < i32::MIN as i64 {
            i32::MIN
        } else if wide > i32::MAX as i64 {
            i32::MAX
        } else {
            wide as i32
        }
    }

    /// The least kern that a solver answers with where `units` design
    /// units of tightening are allowed.
    pub fn floor(&self, units: u32) -> (floor: i64)
        requires
            self.wf(),
        ensures
            floor == self.kern_floor(units),
    {
        let d: i128 = self.upem as i128;
        if self.x_scale >= 0 {
            assert(0 <= units * self.x_scale <= 0x7fff_ffff_0000_0000) by (nonlinear_arith)
                requires
                    0 <= units <= 0xffff_ffff,
                    0 <= self.x_scale <= 0x7fff_ffff,
            ;
            let n: i128 = (units as i128) * (self.x_scale as i128);
            let q = n / d;
            assert(0 <= q <= n) by (nonlinear_arith)
                requires
                    q == n / d,
                    n >= 0,
                    d >= 1,
            ;
            (-q) as i64
        } else {
            let span: i128 = -(self.x_scale as i128);
            assert(0 <= units * span <= 0x7fff_ffff_8000_0000) by (nonlinear_arith)
                requires
                    0 <= units <= 0xffff_ffff,
                    0 <= span <= 0x8000_0000,
            ;
            let a: i128 = (units as i128) * span;
            let n: i128 = a + d - 1;
            let q = n / d;
            assert(0 <= q <= a) by {
                vstd::arithmetic::div_mod::lemma_fundamental_div_mod(n as int, d as int);
                vstd::arithmetic::div_mod::lemma_mod_bound(n as int, d as int);
                assert(0 <= q) by (nonlinear_arith)
                    requires
                        n == d * q + n % d,
                        0 <= n % d < d,
                        n >= 0,
                        d >= 1,
                ;
                assert(q <= a) by (nonlinear_arith)
                    requires
                        n == d * q + n % d,
                        0 <= n % d < d,
                        n == a + d - 1,
                        a >= 0,
                        d >= 1,
                        q >= 0,
                ;
            }
            q as i64
        }
    }
}

/// The floor is not below minus `units` design units, and it is the
/// least such integer.
pub proof fn lemma_floor_bounds(scale: ScaleFactor, units: u32)
    requires
        scale.wf(),
    ensures
        scale.kern_floor(units) * scale.upem >= -units * scale.x_scale,
        (scale.kern_floor(units) - 1) * scale.upem < -units * scale.x_scale,
{
    let u = scale.upem as int;
    let x = scale.x_scale as int;
    let m = units as int;
    assert((-m) * x == -(m * x)) by (nonlinear_arith);
    if x >= 0 {
        let n = m * x;
        vstd::arithmetic::div_mod::lemma_fundamental_div_mod(n, u);
        vstd::arithmetic::div_mod::lemma_mod_bound(n, u);
        let q = n / u;
        assert(scale.kern_floor(units) == -q);
        assert((-q) * u == -(u * q)) by (nonlinear_arith);
        assert((-q - 1) * u == -(u * q) - u) by (nonlinear_arith);
    } else {
        assert(m * (-x) == -(m * x)) by (nonlinear_arith);
        let n = m * (-x) + u - 1;
        vstd::arithmetic::div_mod::lemma_fundamental_div_mod(n, u);
        vstd::arithmetic::div_mod::lemma_mod_bound(n, u);
        let q = n / u;
        assert(scale.kern_floor(units) == q);
        assert(q * u == u * q) by (nonlinear_arith);
        assert((q - 1) * u == u * q - u) by (nonlinear_arith);
    }
}

/// The kern for one measurement: the floor where nothing could be
/// measured, else the target minus the distance, but not less than the
/// floor.
pub open spec fn kern_for(measured: Option<u64>, target: int, floor: int) -> int {
    match measured {
        None => floor,
        Some(d) => if target - d < floor {
            floor
        } else {
            target - d
        },
    }
}

/// The kern for one measurement.
pub fn kern_for_distance(measured: Option<u64>, target: i64, floor: i64) -> (kern: i64)
    ensures
        kern == kern_for(measured, target as int, floor as int),
        kern >= floor,
        kern == floor || kern <= target,
{
    match measured {
        None => floor,
        Some(d) => {
            let raw: i128 = (target as i128) - (d as i128);
            if raw < floor as i128 {
                floor
            } else {
                raw as i64
            }
        },
    }
}

/// The distance of a measurement, where there is one.
pub open spec fn distance_of(m: Option<Measured>) -> Option<u64> {
    match m {
        Some(found) => Some(found.distance),
        None => None,
    }
}

/// The measurement fell on a pair of segments for which there is no
/// rule, and so gave zero.
pub open spec fn lacks_rule(m: Option<Measured>) -> bool {
    m matches Some(found) && found.rule == Refinement::Unsupported
}

/// What a solver answers with.
#[derive(Clone, Copy, Debug, PartialEq, Eq, Structural)]
pub struct KernSolution {
    /// The kern.
    pub kern: i64,
    /// How many times the distance was measured, or tried to be.
    pub measurements: u8,
    /// Whether a measurement fell on a pair of segments for which there
    /// is no rule. Such a measurement gives zero, and the kern may be
    /// wide of the mark.
    pub unsupported: bool,
}

/// `solution` is an outcome of the single-shot solver: the kern for one
/// measurement of `left` against `right`.
pub open spec fn once_outcome(
    left: Seq<Segment>,
    right: Seq<Segment>,
    admits: spec_fn(CurveQuery, u64) -> bool,
    target: int,
    floor: int,
    solution: KernSolution,
) -> bool {
    exists|m: Option<Measured>| #[trigger]
        measured(left, right, admits, m) && solution.kern == kern_for(
            distance_of(m),
            target,
            floor,
        ) && solution.measurements == 1 && solution.unsupported == lacks_rule(m)
}

/// The numbers are small enough for the single-shot solver: both sides
/// lie within `COORD_LIMIT`, and the scale has units.
pub open spec fn measurable(left: Seq<Segment>, right: Seq<Segment>, scale: ScaleFactor) -> bool {
    &&& scale.wf()
    &&& segments_within(left, COORD_LIMIT as int)
    &&& segments_within(right, COORD_LIMIT as int)
}

/// The single-shot solver on two lists of segments.
pub fn solve_kern_once<M: Fn(CurveQuery) -> u64>(
    left: &Vec<Segment>,
    right: &Vec<Segment>,
    target_distance: i64,
    scale_factor: ScaleFactor,
    floor_units: u32,
    metric: &M,
) -> (solution: KernSolution)
    requires
        measurable(left@, right@, scale_factor),
        total(metric),
    ensures
        solution.kern >= scale_factor.kern_floor(floor_units),
        solution.kern == scale_factor.kern_floor(floor_units) || solution.kern <= target_distance,
        once_outcome(
            left@,
            right@,
            admission(metric),
            target_distance as int,
            scale_factor.kern_floor(floor_units),
            solution,
        ),
        (left@.len() == 0 || right@.len() == 0) ==> solution.kern == scale_factor.kern_floor(
            floor_units,
        ) && !solution.unsupported,
{
    let floor = scale_factor.floor(floor_units);
    let m = measure_segments(left, right, metric);
    let (distance, unsupported) = match m {
        Some(found) => (
            Some(found.distance),
            match found.rule {
                Refinement::Unsupported => true,
                _ => false,
            },
        ),
        None => (None, false),
    };
    let kern = kern_for_distance(distance, target_distance, floor);
    KernSolution { kern, measurements: 1, unsupported }
}

/// The single-shot solver: measures the distance between the two sets of
/// paths once and answers with the kern for it, held at the floor that
/// `floor_units` design units of tightening give. `max_tuck` is accepted
/// for the caller's sake and has no influence on the answer.
pub fn determine_kern_once<M: Fn(CurveQuery) -> u64>(
    left_paths: &[Path],
    right_paths: &[Path],
    target_distance: i64,
    max_tuck: i64,
    scale_factor: ScaleFactor,
    floor_units: u32,
    metric: &M,
) -> (solution: KernSolution)
    requires
        measurable(all_segments(left_paths@), all_segments(right_paths@), scale_factor),
        total(metric),
    ensures
        solution.kern >= scale_factor.kern_floor(floor_units),
        once_outcome(
            all_segments(left_paths@),
            all_segments(right_paths@),
            admission(metric),
            target_distance as int,
            scale_factor.kern_floor(floor_units),
            solution,
        ),
        (all_segments(left_paths@).len() == 0 || all_segments(right_paths@).len() == 0)
            ==> solution.kern == scale_factor.kern_floor(floor_units) && !solution.unsupported,
{
    let left = collect_segments(left_paths);
    let right = collect_segments(right_paths);
    solve_kern_once(&left, &right, target_distance, scale_factor, floor_units, metric)
}

/// The distance `d` is within the tolerance of the target.
pub open spec fn close_enough(target: int, d: u64) -> bool {
    -TOLERANCE <= target - d <= TOLERANCE
}

/// The iterative solver goes on after `rounds` measurements, the last of
/// which gave `last`: fewer than ten were made, and the last one, if
/// there was one, was not close enough to the target.
pub open spec fn goes_on(target: int, rounds: nat, last: Option<u64>) -> bool {
    &&& rounds < MAX_ROUNDS
    &&& match last {
        None => true,
        Some(d) => !close_enough(target, d),
    }
}

/// Where the iterative solver stands between two rounds.
pub struct SolverState {
    /// How far the right-hand segments stand moved: the kern so far.
    pub at: int,
    /// How many measurements have been made.
    pub rounds: nat,
    /// What the last measurement gave.
    pub last: Option<u64>,
    /// Whether a measurement so far fell on a pair without a rule.
    pub seen: bool,
}

/// The state before the first round.
pub open spec fn start() -> SolverState {
    SolverState { at: 0, rounds: 0, last: None, seen: false }
}

/// The solution of a solver that stops in state `state` with kern
/// `kern`.
pub open spec fn stops_with(state: SolverState, kern: int, solution: KernSolution) -> bool {
    &&& solution.kern == kern
    &&& solution.measurements == state.rounds
    &&& solution.unsupported == state.seen
}

/// The state after a round that measured `found` and did not pass the
/// floor.
pub open spec fn after_round(state: SolverState, target: int, found: Measured) -> SolverState {
    SolverState {
        at: state.at + target - found.distance,
        rounds: state.rounds + 1,
        last: Some(found.distance),
        seen: state.seen || found.rule == Refinement::Unsupported,
    }
}

/// The state after a round that ends the work at the floor, having
/// measured `m`.
pub open spec fn after_last_round(state: SolverState, m: Option<Measured>) -> SolverState {
    SolverState {
        at: state.at,
        rounds: state.rounds + 1,
        last: state.last,
        seen: state.seen || lacks_rule(m),
    }
}

/// `solution` is an outcome of the iterative solver when it starts from
/// `state`.
///
/// Where the solver does not go on, it answers with the kern it has.
/// Where it goes on, it measures `left` against `right` moved by the kern
/// so far. Without a distance, or where the kern so far and the target
/// less the distance come to less than the floor, it answers with the
/// floor. Otherwise it goes on from there.
#[verifier::opaque]
pub open spec fn kern_outcome(
    left: Seq<Segment>,
    right: Seq<Segment>,
    admits: spec_fn(CurveQuery, u64) -> bool,
    target: int,
    floor: int,
    state: SolverState,
    solution: KernSolution,
) -> bool
    decreases MAX_ROUNDS - state.rounds,
{
    if !goes_on(target, state.rounds, state.last) {
        stops_with(state, state.at, solution)
    } else {
        exists|m: Option<Measured>| #[trigger]
            measured(left, segments_moved(right, state.at, 0), admits, m) && match m {
                None => stops_with(after_last_round(state, m), floor, solution),
                Some(found) => if state.at + target - found.distance < floor {
                    stops_with(after_last_round(state, m), floor, solution)
                } else {
                    kern_outcome(
                        left,
                        right,
                        admits,
                        target,
                        floor,
                        after_round(state, target, found),
                        solution,
                    )
                },
            }
    }
}

/// A solver that does not go on answers with the kern it has.
proof fn lemma_kern_at_rest(
    left: Seq<Segment>,
    right: Seq<Segment>,
    admits: spec_fn(CurveQuery, u64) -> bool,
    target: int,
    floor: int,
    state: SolverState,
    solution: KernSolution,
)
    requires
        !goes_on(target, state.rounds, state.last),
        stops_with(state, state.at, solution),
    ensures
        kern_outcome(left, right, admits, target, floor, state, solution),
{
    reveal(kern_outcome);
}

/// A solver that goes on and measures nothing, or would pass the floor,
/// answers with the floor.
proof fn lemma_kern_held_at_floor(
    left: Seq<Segment>,
    right: Seq<Segment>,
    admits: spec_fn(CurveQuery, u64) -> bool,
    target: int,
    floor: int,
    state: SolverState,
    m: Option<Measured>,
    solution: KernSolution,
)
    requires
        goes_on(target, state.rounds, state.last),
        measured(left, segments_moved(right, state.at, 0), admits, m),
        m matches Some(found) ==> state.at + target - found.distance < floor,
        stops_with(after_last_round(state, m), floor, solution),
    ensures
        kern_outcome(left, right, admits, target, floor, state, solution),
{
    reveal(kern_outcome);
}

/// An outcome of the solver after one more round is an outcome of the
/// solver before that round.
proof fn lemma_kern_after_round(
    left: Seq<Segment>,
    right: Seq<Segment>,
    admits: spec_fn(CurveQuery, u64) -> bool,
    target: int,
    floor: int,
    state: SolverState,
    found: Measured,
    solution: KernSolution,
)
    requires
        goes_on(target, state.rounds, state.last),
        measured(left, segments_moved(right, state.at, 0), admits, Some(found)),
        state.at + target - found.distance >= floor,
        kern_outcome(
            left,
            right,
            admits,
            target,
            floor,
            after_round(state, target, found),
            solution,
        ),
    ensures
        kern_outcome(left, right, admits, target, floor, state, solution),
{
    reveal(kern_outcome);
}

/// `solution` is an outcome of the iterative solver when it starts with
/// the right-hand segments where they are.
pub open spec fn iterated_outcome(
    left: Seq<Segment>,
    right: Seq<Segment>,
    admits: spec_fn(CurveQuery, u64) -> bool,
    target: int,
    floor: int,
    solution: KernSolution,
) -> bool {
    kern_outcome(left, right, admits, target, floor, start(), solution)
}

/// The measurement that a solver in state `state` makes, with what
/// follows from it for `solution`.
spec fn round_of(
    left: Seq<Segment>,
    right: Seq<Segment>,
    admits: spec_fn(CurveQuery, u64) -> bool,
    target: int,
    floor: int,
    state: SolverState,
    solution: KernSolution,
) -> Option<Measured> {
    choose|m: Option<Measured>| #[trigger]
        measured(left, segments_moved(right, state.at, 0), admits, m) && match m {
            None => stops_with(after_last_round(state, m), floor, solution),
            Some(found) => if state.at + target - found.distance < floor {
                stops_with(after_last_round(state, m), floor, solution)
            } else {
                kern_outcome(
                    left,
                    right,
                    admits,
                    target,
                    floor,
                    after_round(state, target, found),
                    solution,
                )
            },
        }
}

/// Every outcome of the iterative solver takes at most ten measurements,
/// whatever the outlines and whatever the metric answers, and it is
/// never below the floor, provided the state it starts from is not.
pub proof fn lemma_outcome_bounds(
    left: Seq<Segment>,
    right: Seq<Segment>,
    admits: spec_fn(CurveQuery, u64) -> bool,
    target: int,
    floor: int,
    state: SolverState,
    solution: KernSolution,
)
    requires
        state.rounds <= MAX_ROUNDS,
        kern_outcome(left, right, admits, target, floor, state, solution),
    ensures
        state.rounds <= solution.measurements <= MAX_ROUNDS,
        state.at >= floor ==> solution.kern >= floor,
        goes_on(target, state.rounds, state.last) ==> solution.kern >= floor
            && solution.measurements > state.rounds,
    decreases MAX_ROUNDS - state.rounds,
{
    reveal(kern_outcome);
    if goes_on(target, state.rounds, state.last) {
        let m = round_of(left, right, admits, target, floor, state, solution);
        match m {
            None => {},
            Some(found) => {
                if state.at + target - found.distance >= floor {
                    lemma_outcome_bounds(
                        left,
                        right,
                        admits,
                        target,
                        floor,
                        after_round(state, target, found),
                        solution,
                    );
                }
            },
        }
    }
}

/// What the single-shot solver answers with is never below minus
/// `units` design units.
pub proof fn single_shot_kern_is_above_floor(
    left: Seq<Segment>,
    right: Seq<Segment>,
    admits: spec_fn(CurveQuery, u64) -> bool,
    target: int,
    scale: ScaleFactor,
    units: u32,
    solution: KernSolution,
)
    requires
        scale.wf(),
        once_outcome(left, right, admits, target, scale.kern_floor(units), solution),
    ensures
        solution.kern >= scale.kern_floor(units),
        solution.kern * scale.upem >= -units * scale.x_scale,
{
    lemma_floor_bounds(scale, units);
    lemma_scaled_above(solution.kern as int, scale.kern_floor(units), scale.upem as int);
}

/// What the iterative solver answers with is never below minus `units`
/// design units, and it never takes more than ten measurements to get
/// there.
pub proof fn iterative_kern_is_above_floor(
    left: Seq<Segment>,
    right: Seq<Segment>,
    admits: spec_fn(CurveQuery, u64) -> bool,
    target: int,
    scale: ScaleFactor,
    units: u32,
    solution: KernSolution,
)
    requires
        scale.wf(),
        iterated_outcome(left, right, admits, target, scale.kern_floor(units), solution),
    ensures
        solution.kern >= scale.kern_floor(units),
        solution.kern * scale.upem >= -units * scale.x_scale,
        1 <= solution.measurements <= MAX_ROUNDS,
{
    lemma_outcome_bounds(left, right, admits, target, scale.kern_floor(units), start(), solution);
    lemma_floor_bounds(scale, units);
    lemma_scaled_above(solution.kern as int, scale.kern_floor(units), scale.upem as int);
}

/// A number that is no smaller than another is no smaller when both are
/// multiplied by a positive number.
proof fn lemma_scaled_above(a: int, b: int, by: int)
    requires
        a >= b,
        by > 0,
    ensures
        a * by >= b * by,
{
    assert(a * by >= b * by) by (nonlinear_arith)
        requires
            a >= b,
            by > 0,
    ;
}

/// Segments within `SOLVER_LIMIT`, moved sideways by no more than
/// `SOLVER_LIMIT`, lie within `COORD_LIMIT`.
proof fn lemma_moved_within(segments: Seq<Segment>, dx: int)
    requires
        segments_within(segments, SOLVER_LIMIT as int),
        -SOLVER_LIMIT <= dx <= SOLVER_LIMIT,
    ensures
        segments_can_move(segments, dx, 0),
        segments_within(segments_moved(segments, dx, 0), COORD_LIMIT as int),
{
    assert forall|i: int| 0 <= i < segments.len() implies (#[trigger] segments[i]).can_move(
        dx,
        0,
    ) by {
        assert(segments[i].within(SOLVER_LIMIT as int));
    }
    assert forall|i: int| 0 <= i < segments.len() implies (#[trigger] segments_moved(
        segments,
        dx,
        0,
    )[i]).within(COORD_LIMIT as int) by {
        assert(segments[i].within(SOLVER_LIMIT as int));
    }
}

/// The numbers are small enough for the iterative solver: the floor is
/// not below `-SOLVER_LIMIT`, the target within `TARGET_LIMIT`, the left
/// side within `COORD_LIMIT` and the right side within `SOLVER_LIMIT`.
pub open spec fn solvable(
    left: Seq<Segment>,
    right: Seq<Segment>,
    target: int,
    scale: ScaleFactor,
    units: u32,
) -> bool {
    &&& scale.wf()
    &&& scale.kern_floor(units) >= -SOLVER_LIMIT
    &&& -TARGET_LIMIT <= target <= TARGET_LIMIT
    &&& segments_within(left, COORD_LIMIT as int)
    &&& segments_within(right, SOLVER_LIMIT as int)
}

/// Tells whether the numbers are small enough for the iterative solver.
pub fn is_solvable(
    left: &Vec<Segment>,
    right: &Vec<Segment>,
    target_distance: i64,
    scale_factor: ScaleFactor,
    floor_units: u32,
) -> (ok: bool)
    ensures
        ok == solvable(left@, right@, target_distance as int, scale_factor, floor_units),
{
    if scale_factor.upem == 0 {
        return false;
    }
    if scale_factor.floor(floor_units) < -SOLVER_LIMIT {
        return false;
    }
    if target_distance < -TARGET_LIMIT || target_distance > TARGET_LIMIT {
        return false;
    }
    all_within(left, COORD_LIMIT) && all_within(right, SOLVER_LIMIT)
}

/// The iterative solver on two lists of segments.
///
/// The left side stays where it is. A copy of the right side is moved by
/// the kern found so far before each measurement; `right` itself is not
/// changed.
pub fn solve_kern<M: Fn(CurveQuery) -> u64>(
    left: &Vec<Segment>,
    right: &Vec<Segment>,
    target_distance: i64,
    scale_factor: ScaleFactor,
    floor_units: u32,
    metric: &M,
) -> (solution: KernSolution)
    requires
        solvable(left@, right@, target_distance as int, scale_factor, floor_units),
        total(metric),
    ensures
        solution.kern >= scale_factor.kern_floor(floor_units),
        solution.kern == scale_factor.kern_floor(floor_units) || solution.kern <= MAX_ROUNDS
            * TARGET_LIMIT,
        1 <= solution.measurements <= MAX_ROUNDS,
        iterated_outcome(
            left@,
            right@,
            admission(metric),
            target_distance as int,
            scale_factor.kern_floor(floor_units),
            solution,
        ),
        (left@.len() == 0 || right@.len() == 0) ==> solution == (KernSolution {
            kern: scale_factor.kern_floor(floor_units) as i64,
            measurements: 1,
            unsupported: false,
        }),
{
    let floor = scale_factor.floor(floor_units);
    let ghost admits = admission(metric);
    let ghost target = target_distance as int;
    let mut kern: i64 = 0;
    let mut rounds: u8 = 0;
    let mut last: Option<u64> = None;
    let mut seen: bool = false;
    let ghost mut state = start();
    loop
        invariant
            floor == scale_factor.kern_floor(floor_units),
            floor >= -SOLVER_LIMIT,
            admits == admission(metric),
            target == target_distance as int,
            -TARGET_LIMIT <= target_distance <= TARGET_LIMIT,
            segments_within(left@, COORD_LIMIT as int),
            segments_within(right@, SOLVER_LIMIT as int),
            total(metric),
            rounds <= MAX_ROUNDS,
            state == (SolverState { at: kern as int, rounds: rounds as nat, last, seen }),
            rounds == 0 ==> state == start(),
            rounds > 0 ==> floor <= kern,
            -SOLVER_LIMIT <= kern <= rounds * TARGET_LIMIT,
            rounds > 0 ==> last is Some,
            forall|solution: KernSolution| #[trigger]
                kern_outcome(left@, right@, admits, target, floor as int, state, solution)
                    ==> kern_outcome(
                    left@,
                    right@,
                    admits,
                    target,
                    floor as int,
                    start(),
                    solution,
                ),
            (left@.len() == 0 || right@.len() == 0) ==> rounds == 0,
        decreases MAX_ROUNDS - rounds,
    {
        let stop = rounds >= MAX_ROUNDS || match last {
            None => false,
            Some(d) => {
                let off: i128 = (target_distance as i128) - (d as i128);
                -(TOLERANCE as i128) <= off && off <= TOLERANCE as i128
            },
        };
        if stop {
            let solution = KernSolution { kern, measurements: rounds, unsupported: seen };
            proof {
                assert(!goes_on(target, rounds as nat, last));
                lemma_kern_at_rest(left@, right@, admits, target, floor as int, state, solution);
            }
            assert(rounds * TARGET_LIMIT <= MAX_ROUNDS * TARGET_LIMIT) by (nonlinear_arith)
                requires
                    rounds <= MAX_ROUNDS,
            ;
            return solution;
        }
        assert(goes_on(target, rounds as nat, last));
        proof {
            lemma_moved_within(right@, kern as int);
        }
        let moved = translate_segments(right, kern, 0);
        let m = measure_segments(left, &moved, metric);
        match m {
            None => {
                let solution = KernSolution {
                    kern: floor,
                    measurements: rounds + 1,
                    unsupported: seen,
                };
                proof {
                    lemma_kern_held_at_floor(
                        left@,
                        right@,
                        admits,
                        target,
                        floor as int,
                        state,
                        m,
                        solution,
                    );
                }
                return solution;
            },
            Some(found) => {
                let odd = match found.rule {
                    Refinement::Unsupported => true,
                    _ => false,
                };
                let next: i128 = (kern as i128) + (target_distance as i128) - (
                found.distance as i128);
                if next < floor as i128 {
                    let solution = KernSolution {
                        kern: floor,
                        measurements: rounds + 1,
                        unsupported: seen || odd,
                    };
                    proof {
                        lemma_kern_held_at_floor(
                            left@,
                            right@,
                            admits,
                            target,
                            floor as int,
                            state,
                            m,
                            solution,
                        );
                    }
                    return solution;
                }
                assert(next <= (rounds + 1) * TARGET_LIMIT) by (nonlinear_arith)
                    requires
                        kern <= rounds * TARGET_LIMIT,
                        next <= kern + TARGET_LIMIT,
                ;
                let ghost before = state;
                kern = next as i64;
                last = Some(found.distance);
                rounds = rounds + 1;
                seen = seen || odd;
                proof {
                    state = after_round(before, target, found);
                    assert forall|solution: KernSolution| #[trigger]
                        kern_outcome(
                            left@,
                            right@,
                            admits,
                            target,
                            floor as int,
                            state,
                            solution,
                        ) implies kern_outcome(
                        left@,
                        right@,
                        admits,
                        target,
                        floor as int,
                        start(),
                        solution,
                    ) by {
                        lemma_kern_after_round(
                            left@,
                            right@,
                            admits,
                            target,
                            floor as int,
                            before,
                            found,
                            solution,
                        );
                    }
                }
            },
        }
    }
}

/// The iterative solver: the kern that brings the right-hand paths to
/// within ten units of `target_distance` from the left-hand paths, as
/// far as at most ten measurements get, held at the floor that
/// `floor_units` design units of tightening give. `max_tuck` is accepted
/// for the caller's sake and has no influence on the answer.
pub fn determine_kern<M: Fn(CurveQuery) -> u64>(
    left_paths: &[Path],
    right_paths: &[Path],
    target_distance: i64,
    max_tuck: i64,
    scale_factor: ScaleFactor,
    floor_units: u32,
    metric: &M,
) -> (solution: KernSolution)
    requires
        solvable(
            all_segments(left_paths@),
            all_segments(right_paths@),
            target_distance as int,
            scale_factor,
            floor_units,
        ),
        total(metric),
    ensures
        solution.kern >= scale_factor.kern_floor(floor_units),
        1 <= solution.measurements <= MAX_ROUNDS,
        iterated_outcome(
            all_segments(left_paths@),
            all_segments(right_paths@),
            admission(metric),
            target_distance as int,
            scale_factor.kern_floor(floor_units),
            solution,
        ),
        (all_segments(left_paths@).len() == 0 || all_segments(right_paths@).len() == 0)
            ==> solution.kern == scale_factor.kern_floor(floor_units),
{
    let left = collect_segments(left_paths);
    let right = collect_segments(right_paths);
    solve_kern(&left, &right, target_distance, scale_factor, floor_units, metric)
}

/// The single-shot solver for any numbers: where they are small enough
/// for it, what `determine_kern_once` answers; where they are not,
/// nothing, and nothing is measured.
pub fn try_determine_kern_once<M: Fn(CurveQuery) -> u64>(
    left_paths: &[Path],
    right_paths: &[Path],
    target_distance: i64,
    max_tuck: i64,
    scale_factor: ScaleFactor,
    floor_units: u32,
    metric: &M,
) -> (solution: Option<KernSolution>)
    requires
        total(metric),
    ensures
        solution is Some <==> measurable(
            all_segments(left_paths@),
            all_segments(right_paths@),
            scale_factor,
        ),
        solution matches Some(found) ==> {
            &&& found.kern >= scale_factor.kern_floor(floor_units)
            &&& once_outcome(
                all_segments(left_paths@),
                all_segments(right_paths@),
                admission(metric),
                target_distance as int,
                scale_factor.kern_floor(floor_units),
                found,
            )
        },
{
    let left = collect_segments(left_paths);
    let right = collect_segments(right_paths);
    if scale_factor.upem == 0 || !all_within(&left, COORD_LIMIT) || !all_within(
        &right,
        COORD_LIMIT,
    ) {
        return None;
    }
    Some(solve_kern_once(&left, &right, target_distance, scale_factor, floor_units, metric))
}

/// The iterative solver for any numbers: where they are small enough for
/// it, what `determine_kern` answers; where they are not, nothing, and
/// nothing is measured.
pub fn try_determine_kern<M: Fn(CurveQuery) -> u64>(
    left_paths: &[Path],
    right_paths: &[Path],
    target_distance: i64,
    max_tuck: i64,
    scale_factor: ScaleFactor,
    floor_units: u32,
    metric: &M,
) -> (solution: Option<KernSolution>)
    requires
        total(metric),
    ensures
        solution is Some <==> solvable(
            all_segments(left_paths@),
            all_segments(right_paths@),
            target_distance as int,
            scale_factor,
            floor_units,
        ),
        solution matches Some(found) ==> {
            &&& found.kern >= scale_factor.kern_floor(floor_units)
            &&& 1 <= found.measurements <= MAX_ROUNDS
            &&& iterated_outcome(
                all_segments(left_paths@),
                all_segments(right_paths@),
                admission(metric),
                target_distance as int,
                scale_factor.kern_floor(floor_units),
                found,
            )
        },
{
    let left = collect_segments(left_paths);
    let right = collect_segments(right_paths);
    if !is_solvable(&left, &right, target_distance, scale_factor, floor_units) {
        return None;
    }
    Some(solve_kern(&left, &right, target_distance, scale_factor, floor_units, metric))
}

} // verus!
