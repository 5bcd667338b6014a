//! Moving dots out of the ink of their neighbours.
//!
//! A pass walks the buffer from its end to its start. At each dot of the
//! kind it is after, it looks at the glyphs a few places to either side,
//! from the left, and stops at the first that collides with the dot. The
//! dot, or for dots below an earlier such dot that it ran into, is moved
//! by one step, and the next pass starts. A pass that finds no collision
//! ends the work; so does running out of the passes allowed, which leaves
//! the remaining collisions as they are.

use crate::glyph::GulzarGlyph;
use vstd::prelude::*;

verus! {

/// Which dots a pass is after.
#[derive(Clone, Copy, Debug, PartialEq, Eq, Structural)]
pub enum MarkKind {
    Below,
    Above,
}

/// Every glyph of the buffer is well formed.
pub open spec fn all_wf(buffer: Seq<GulzarGlyph>) -> bool {
    forall|i: int| 0 <= i < buffer.len() ==> (#[trigger] buffer[i]).wf()
}

/// The glyph is a dot of the given kind.
pub open spec fn is_mark(glyph: GulzarGlyph, kind: MarkKind) -> bool {
    match kind {
        MarkKind::Below => glyph.role.dot_below,
        MarkKind::Above => glyph.role.dot_above,
    }
}

/// First place of the window round place `i`.
pub open spec fn window_start(i: int, window: int) -> int {
    if i - window < 0 {
        0
    } else {
        i - window
    }
}

/// Last place of the window round place `i` in a buffer of `len` glyphs.
pub open spec fn window_end(i: int, window: int, len: int) -> int {
    if i + window > len - 1 {
        len - 1
    } else {
        i + window
    }
}

/// Place `j` lies in the window round place `i`.
pub open spec fn in_window(i: int, j: int, window: int, len: int) -> bool {
    window_start(i, window) <= j <= window_end(i, window, len)
}

/// The glyph at `i` collides with the one at `j`, which is another glyph
/// of its window.
pub open spec fn hits(buffer: Seq<GulzarGlyph>, i: int, j: int, window: int) -> bool {
    &&& in_window(i, j, window, buffer.len() as int)
    &&& j != i
    &&& buffer[i].collides_with(&buffer[j])
}

/// The glyph at `i` collides with some other glyph of its window.
pub open spec fn has_hit(buffer: Seq<GulzarGlyph>, i: int, window: int) -> bool {
    exists|j: int| #[trigger] hits(buffer, i, j, window)
}

/// The glyph at `j` is the first in the window of `i` that `i` collides
/// with.
pub open spec fn is_first_hit(buffer: Seq<GulzarGlyph>, i: int, j: int, window: int) -> bool {
    &&& hits(buffer, i, j, window)
    &&& forall|k: int| k < j ==> !#[trigger] hits(buffer, i, k, window)
}

/// No dot of the kind collides with a glyph of its window.
pub open spec fn settled(buffer: Seq<GulzarGlyph>, kind: MarkKind, window: int) -> bool {
    forall|i: int|
        0 <= i < buffer.len() && is_mark(#[trigger] buffer[i], kind) ==> !has_hit(
            buffer,
            i,
            window,
        )
}

/// A pass stops at the dot at `i` on its collision with the glyph at
/// `j`: the dot is the last of its kind that collides at all, and `j` is
/// its first hit.
pub open spec fn pass_stops_at(
    buffer: Seq<GulzarGlyph>,
    kind: MarkKind,
    window: int,
    i: int,
    j: int,
) -> bool {
    &&& 0 <= i < buffer.len()
    &&& is_mark(buffer[i], kind)
    &&& is_first_hit(buffer, i, j, window)
    &&& forall|i2: int|
        i < i2 < buffer.len() && is_mark(#[trigger] buffer[i2], kind) ==> !has_hit(
            buffer,
            i2,
            window,
        )
}

/// The glyph that moves when a pass stops at the dot at `i` on the glyph
/// at `j`. A dot below gives way to an earlier dot below; in every other
/// case the dot itself moves.
pub open spec fn mark_to_move(buffer: Seq<GulzarGlyph>, kind: MarkKind, i: int, j: int) -> int {
    if kind == MarkKind::Below && buffer[j].role.dot_below && j < i {
        j
    } else {
        i
    }
}

/// The buffer with the glyph at `at` moved up by `step`.
pub open spec fn with_mark_moved(buffer: Seq<GulzarGlyph>, at: int, step: int) -> Seq<
    GulzarGlyph,
> {
    buffer.update(
        at,
        GulzarGlyph { y_offset: (buffer[at].y_offset + step) as i32, ..buffer[at] },
    )
}

/// `after` is what `budget` passes at most make of `buffer`, and `moves`
/// is how many of them moved a dot.
#[verifier::opaque]
pub open spec fn nudge_outcome(
    buffer: Seq<GulzarGlyph>,
    kind: MarkKind,
    step: int,
    window: int,
    budget: nat,
    after: Seq<GulzarGlyph>,
    moves: nat,
) -> bool
    decreases budget,
{
    if budget == 0 || settled(buffer, kind, window) {
        after == buffer && moves == 0
    } else {
        exists|i: int, j: int| #[trigger]
            pass_stops_at(buffer, kind, window, i, j) && moves >= 1 && nudge_outcome(
                with_mark_moved(buffer, mark_to_move(buffer, kind, i, j), step),
                kind,
                step,
                window,
                (budget - 1) as nat,
                after,
                (moves - 1) as nat,
            )
    }
}

/// The first glyph in the window of `i` that the glyph at `i` collides
/// with.
pub fn first_hit(buffer: &Vec<GulzarGlyph>, i: usize, window: usize) -> (hit: Option<usize>)
    requires
        all_wf(buffer@),
        i < buffer@.len(),
    ensures
        hit is None <==> !has_hit(buffer@, i as int, window as int),
        hit matches Some(j) ==> j < buffer@.len() && is_first_hit(
            buffer@,
            i as int,
            j as int,
            window as int,
        ),
{
    let len = buffer.len();
    let start: usize = if i >= window {
        i - window
    } else {
        0
    };
    let end: usize = if window >= len - 1 - i {
        len - 1
    } else {
        i + window
    };
    assert(start == window_start(i as int, window as int));
    assert(end == window_end(i as int, window as int, len as int));
    let mut j: usize = start;
    while j <= end
        invariant
            all_wf(buffer@),
            len == buffer@.len(),
            i < len,
            start == window_start(i as int, window as int),
            end == window_end(i as int, window as int, len as int),
            end < len,
            start <= j <= end + 1,
            forall|k: int| k < j ==> !#[trigger] hits(buffer@, i as int, k, window as int),
        decreases end + 1 - j,
    {
        if j != i && buffer[i].collides(&buffer[j]) {
            assert(hits(buffer@, i as int, j as int, window as int));
            return Some(j);
        }
        j = j + 1;
    }
    None
}

/// One pass: the dot at which the pass stops and the glyph it collides
/// with, or `None` where no dot of the kind collides.
pub fn find_collision(buffer: &Vec<GulzarGlyph>, kind: MarkKind, window: usize) -> (found: Option<
    (usize, usize),
>)
    requires
        all_wf(buffer@),
    ensures
        found is None <==> settled(buffer@, kind, window as int),
        found matches Some((i, j)) ==> j < buffer@.len() && pass_stops_at(
            buffer@,
            kind,
            window as int,
            i as int,
            j as int,
        ),
{
    let mut i: usize = buffer.len();
    while i > 0
        invariant
            all_wf(buffer@),
            i <= buffer@.len(),
            forall|i2: int|
                i <= i2 < buffer@.len() && is_mark(#[trigger] buffer@[i2], kind) ==> !has_hit(
                    buffer@,
                    i2,
                    window as int,
                ),
        decreases i,
    {
        i = i - 1;
        let marked = match kind {
            MarkKind::Below => buffer[i].role.dot_below,
            MarkKind::Above => buffer[i].role.dot_above,
        };
        if marked {
            match first_hit(buffer, i, window) {
                Some(j) => {
                    assert(has_hit(buffer@, i as int, window as int)) by {
                        assert(hits(buffer@, i as int, j as int, window as int));
                    }
                    return Some((i, j));
                },
                None => {},
            }
        }
    }
    None
}

/// The outcome of a run of passes.
#[derive(Clone, Copy, Debug, PartialEq, Eq, Structural)]
pub struct Resolution {
    /// How many passes moved a dot.
    pub moves: usize,
    /// Whether the last pass found no collision. Where it is false the
    /// passes ran out and collisions remain.
    pub settled: bool,
}

/// `after` is `before` with nothing changed but vertical offsets.
pub open spec fn only_offsets_differ(before: Seq<GulzarGlyph>, after: Seq<GulzarGlyph>) -> bool {
    &&& after.len() == before.len()
    &&& forall|i: int|
        0 <= i < before.len() ==> #[trigger] after[i] == (GulzarGlyph {
            y_offset: after[i].y_offset,
            ..before[i]
        })
}

/// The offset `to` lies between `from` and `from + count * step`.
pub open spec fn drifted(from: int, to: int, step: int, count: int) -> bool {
    if step >= 0 {
        from <= to <= from + count * step
    } else {
        from + count * step <= to <= from
    }
}

/// No vertical offset has gone further than `count` steps.
pub open spec fn drift_bounded(
    before: Seq<GulzarGlyph>,
    after: Seq<GulzarGlyph>,
    step: int,
    count: int,
) -> bool {
    forall|i: int|
        0 <= i < before.len() ==> drifted(
            before[i].y_offset as int,
            (#[trigger] after[i]).y_offset as int,
            step,
            count,
        )
}

/// Every vertical offset can take `count` more steps.
pub open spec fn steps_fit(buffer: Seq<GulzarGlyph>, step: int, count: int) -> bool {
    forall|i: int|
        0 <= i < buffer.len() ==> i32::MIN <= (#[trigger] buffer[i]).y_offset + count * step
            <= i32::MAX
}

/// An offset that can take `count` steps can take any smaller number.
proof fn lemma_fewer_steps_fit(y: int, step: int, count: int, fewer: int)
    requires
        0 <= fewer <= count,
        i32::MIN <= y <= i32::MAX,
        i32::MIN <= y + count * step <= i32::MAX,
    ensures
        i32::MIN <= y + fewer * step <= i32::MAX,
{
    if step >= 0 {
        assert(0 <= fewer * step <= count * step) by (nonlinear_arith)
            requires
                0 <= fewer <= count,
                step >= 0,
        ;
    } else {
        assert(count * step <= fewer * step <= 0) by (nonlinear_arith)
            requires
                0 <= fewer <= count,
                step < 0,
        ;
    }
}

/// Moving one dot by one step keeps what a run of passes relies on: the
/// glyphs stay well formed, nothing but vertical offsets differs from the
/// buffer `origin` that the run started with, no offset has gone further
/// than the steps taken, and every offset can take the steps that are
/// left.
proof fn lemma_move_keeps(
    origin: Seq<GulzarGlyph>,
    before: Seq<GulzarGlyph>,
    at: int,
    step: int,
    taken: int,
    left: int,
)
    requires
        0 <= at < before.len(),
        0 <= taken,
        1 <= left,
        all_wf(before),
        only_offsets_differ(origin, before),
        drift_bounded(origin, before, step, taken),
        steps_fit(before, step, left),
    ensures
        i32::MIN <= before[at].y_offset + step <= i32::MAX,
        all_wf(with_mark_moved(before, at, step)),
        only_offsets_differ(origin, with_mark_moved(before, at, step)),
        drift_bounded(origin, with_mark_moved(before, at, step), step, taken + 1),
        steps_fit(with_mark_moved(before, at, step), step, left - 1),
{
    let after = with_mark_moved(before, at, step);
    assert(i32::MIN <= before[at].y_offset + left * step <= i32::MAX);
    lemma_fewer_steps_fit(before[at].y_offset as int, step, left, 1);
    assert forall|k: int| 0 <= k < after.len() implies (#[trigger] after[k]).wf() by {
        assert(before[k].wf());
    }
    assert forall|k: int| 0 <= k < origin.len() implies #[trigger] after[k] == (GulzarGlyph {
        y_offset: after[k].y_offset,
        ..origin[k]
    }) by {
        assert(before[k] == (GulzarGlyph { y_offset: before[k].y_offset, ..origin[k] }));
    }
    assert forall|k: int| 0 <= k < origin.len() implies drifted(
        origin[k].y_offset as int,
        (#[trigger] after[k]).y_offset as int,
        step,
        taken + 1,
    ) by {
        assert(drifted(origin[k].y_offset as int, before[k].y_offset as int, step, taken));
        assert((taken + 1) * step == taken * step + step) by (nonlinear_arith);
    }
    assert forall|k: int| 0 <= k < after.len() implies i32::MIN <= (#[trigger] after[k]).y_offset
        + (left - 1) * step <= i32::MAX by {
        assert(i32::MIN <= before[k].y_offset + left * step <= i32::MAX);
        assert((left - 1) * step == left * step - step) by (nonlinear_arith);
        if k != at {
            lemma_fewer_steps_fit(before[k].y_offset as int, step, left, left - 1);
        }
    }
}

/// An outcome of the passes that follow a move is an outcome of the
/// passes from before the move, with one move more.
proof fn lemma_outcome_after_move(
    before: Seq<GulzarGlyph>,
    kind: MarkKind,
    step: int,
    window: int,
    budget: nat,
    i: int,
    j: int,
    after: Seq<GulzarGlyph>,
    more: nat,
)
    requires
        budget >= 1,
        pass_stops_at(before, kind, window, i, j),
        nudge_outcome(
            with_mark_moved(before, mark_to_move(before, kind, i, j), step),
            kind,
            step,
            window,
            (budget - 1) as nat,
            after,
            more,
        ),
    ensures
        nudge_outcome(before, kind, step, window, budget, after, more + 1),
{
    reveal(nudge_outcome);
    assert(has_hit(before, i, window)) by {
        assert(hits(before, i, j, window));
    }
    assert(!settled(before, kind, window));
}

/// Where no pass is left, or no dot collides, the buffer stays as it is.
proof fn lemma_outcome_at_rest(
    buffer: Seq<GulzarGlyph>,
    kind: MarkKind,
    step: int,
    window: int,
    budget: nat,
)
    requires
        budget == 0 || settled(buffer, kind, window),
    ensures
        nudge_outcome(buffer, kind, step, window, budget, buffer, 0),
{
    reveal(nudge_outcome);
}

/// A buffer in which no dot collides has itself as its only outcome.
pub proof fn lemma_settled_stays(
    buffer: Seq<GulzarGlyph>,
    kind: MarkKind,
    step: int,
    window: int,
    budget: nat,
    after: Seq<GulzarGlyph>,
    moves: nat,
)
    requires
        settled(buffer, kind, window),
        nudge_outcome(buffer, kind, step, window, budget, after, moves),
    ensures
        after == buffer,
        moves == 0,
{
    reveal(nudge_outcome);
}

/// Moves the glyph at `at` up by `step`.
fn move_mark(buffer: &mut Vec<GulzarGlyph>, at: usize, step: i64)
    requires
        at < old(buffer)@.len(),
        i32::MIN <= old(buffer)@[at as int].y_offset + step <= i32::MAX,
    ensures
        final(buffer)@ == with_mark_moved(old(buffer)@, at as int, step as int),
{
    buffer[at].y_offset = (buffer[at].y_offset as i64 + step) as i32;
    assert(buffer@ =~= with_mark_moved(old(buffer)@, at as int, step as int));
}

/// Runs passes over the buffer until one finds no collision, or until
/// `max_passes` passes have each moved a dot. A dot moves up by `step`,
/// which is negative for dots that are to go down.
pub fn nudge_marks(
    buffer: &mut Vec<GulzarGlyph>,
    kind: MarkKind,
    step: i64,
    window: usize,
    max_passes: usize,
) -> (outcome: Resolution)
    requires
        all_wf(old(buffer)@),
        steps_fit(old(buffer)@, step as int, max_passes as int),
    ensures
        all_wf(final(buffer)@),
        final(buffer)@.len() == old(buffer)@.len(),
        nudge_outcome(
            old(buffer)@,
            kind,
            step as int,
            window as int,
            max_passes as nat,
            final(buffer)@,
            outcome.moves as nat,
        ),
        outcome.moves <= max_passes,
        outcome.settled == settled(final(buffer)@, kind, window as int),
        only_offsets_differ(old(buffer)@, final(buffer)@),
        drift_bounded(old(buffer)@, final(buffer)@, step as int, outcome.moves as int),
        settled(old(buffer)@, kind, window as int) ==> final(buffer)@ == old(buffer)@
            && outcome.moves == 0 && outcome.settled,
{
    let mut moves: usize = 0;
    loop
        invariant
            all_wf(buffer@),
            buffer@.len() == old(buffer)@.len(),
            moves <= max_passes,
            steps_fit(buffer@, step as int, max_passes - moves),
            moves == 0 ==> buffer@ == old(buffer)@,
            only_offsets_differ(old(buffer)@, buffer@),
            drift_bounded(old(buffer)@, buffer@, step as int, moves as int),
            forall|after: Seq<GulzarGlyph>, more: nat|
                #![trigger nudge_outcome(buffer@, kind, step as int, window as int, (max_passes - moves) as nat, after, more)]
                nudge_outcome(
                    buffer@,
                    kind,
                    step as int,
                    window as int,
                    (max_passes - moves) as nat,
                    after,
                    more,
                ) ==> nudge_outcome(
                    old(buffer)@,
                    kind,
                    step as int,
                    window as int,
                    max_passes as nat,
                    after,
                    (moves + more) as nat,
                ),
        decreases max_passes - moves,
    {
        let found = find_collision(buffer, kind, window);
        match found {
            None => {
                proof {
                    lemma_outcome_at_rest(
                        buffer@,
                        kind,
                        step as int,
                        window as int,
                        (max_passes - moves) as nat,
                    );
                    assert(nudge_outcome(
                        old(buffer)@,
                        kind,
                        step as int,
                        window as int,
                        max_passes as nat,
                        buffer@,
                        (moves + 0) as nat,
                    ));
                    if settled(old(buffer)@, kind, window as int) {
                        lemma_settled_stays(
                            old(buffer)@,
                            kind,
                            step as int,
                            window as int,
                            max_passes as nat,
                            buffer@,
                            moves as nat,
                        );
                    }
                }
                return Resolution { moves, settled: true };
            },
            Some((i, j)) => {
                if moves >= max_passes {
                    proof {
                        lemma_outcome_at_rest(
                            buffer@,
                            kind,
                            step as int,
                            window as int,
                            (max_passes - moves) as nat,
                        );
                        assert(nudge_outcome(
                            old(buffer)@,
                            kind,
                            step as int,
                            window as int,
                            max_passes as nat,
                            buffer@,
                            (moves + 0) as nat,
                        ));
                        if settled(old(buffer)@, kind, window as int) {
                            lemma_settled_stays(
                                old(buffer)@,
                                kind,
                                step as int,
                                window as int,
                                max_passes as nat,
                                buffer@,
                                moves as nat,
                            );
                        }
                    }
                    return Resolution { moves, settled: false };
                }
                let below = match kind {
                    MarkKind::Below => true,
                    MarkKind::Above => false,
                };
                let at: usize = if below && buffer[j].role.dot_below && j < i {
                    j
                } else {
                    i
                };
                let ghost before = buffer@;
                let ghost budget = (max_passes - moves) as nat;
                proof {
                    assert(at == mark_to_move(before, kind, i as int, j as int));
                    lemma_move_keeps(
                        old(buffer)@,
                        before,
                        at as int,
                        step as int,
                        moves as int,
                        budget as int,
                    );
                }
                move_mark(buffer, at, step);
                proof {
                    assert forall|after: Seq<GulzarGlyph>, more: nat| #[trigger]
                        nudge_outcome(
                            buffer@,
                            kind,
                            step as int,
                            window as int,
                            (budget - 1) as nat,
                            after,
                            more,
                        ) implies nudge_outcome(
                        old(buffer)@,
                        kind,
                        step as int,
                        window as int,
                        max_passes as nat,
                        after,
                        (moves + 1 + more) as nat,
                    ) by {
                        lemma_outcome_after_move(
                            before,
                            kind,
                            step as int,
                            window as int,
                            budget,
                            i as int,
                            j as int,
                            after,
                            more,
                        );
                    }
                }
                moves = moves + 1;
            },
        }
    }
}

/// How the two runs of passes are carried out.
#[derive(Clone, Copy, Debug, PartialEq, Eq, Structural)]
pub struct MarkConfig {
    /// How far a dot below goes down in one pass.
    pub below_delta: i32,
    /// How many glyphs to either side of a dot below are looked at.
    pub below_window: usize,
    /// How far a dot above goes up in one pass.
    pub above_delta: i32,
    /// How many glyphs to either side of a dot above are looked at.
    pub above_window: usize,
    /// How many passes of each kind may move a dot.
    pub max_passes: usize,
}

/// What the two runs of passes came to.
#[derive(Clone, Copy, Debug, PartialEq, Eq, Structural)]
pub struct MarkReport {
    pub below: Resolution,
    pub above: Resolution,
}

/// Every vertical offset can go down by all the passes allowed for dots
/// below, up by all those allowed for dots above, or both.
pub open spec fn offsets_have_room(buffer: Seq<GulzarGlyph>, config: MarkConfig) -> bool {
    forall|i: int|
        0 <= i < buffer.len() ==> {
            let y = (#[trigger] buffer[i]).y_offset as int;
            let down = config.max_passes * config.below_delta;
            let up = config.max_passes * config.above_delta;
            &&& i32::MIN <= y - down <= i32::MAX
            &&& i32::MIN <= y + up <= i32::MAX
            &&& i32::MIN <= y - down + up <= i32::MAX
        }
}

/// The passes for dots below make `between` of `before`, the passes for
/// dots above make `after` of `between`, and `report` tells of both.
pub open spec fn resolved_through(
    before: Seq<GulzarGlyph>,
    config: MarkConfig,
    between: Seq<GulzarGlyph>,
    after: Seq<GulzarGlyph>,
    report: MarkReport,
) -> bool {
    &&& nudge_outcome(
        before,
        MarkKind::Below,
        -config.below_delta,
        config.below_window as int,
        config.max_passes as nat,
        between,
        report.below.moves as nat,
    )
    &&& report.below.settled == settled(between, MarkKind::Below, config.below_window as int)
    &&& nudge_outcome(
        between,
        MarkKind::Above,
        config.above_delta as int,
        config.above_window as int,
        config.max_passes as nat,
        after,
        report.above.moves as nat,
    )
    &&& report.above.settled == settled(after, MarkKind::Above, config.above_window as int)
}

/// The two runs of passes, first for dots below and then for dots above,
/// make `after` of `before`, and `report` tells of them.
pub open spec fn resolved(
    before: Seq<GulzarGlyph>,
    config: MarkConfig,
    after: Seq<GulzarGlyph>,
    report: MarkReport,
) -> bool {
    exists|between: Seq<GulzarGlyph>| #[trigger]
        resolved_through(before, config, between, after, report)
}

/// The two runs of passes leave a buffer as it is where no dot below and
/// no dot above collides with a glyph of its window.
pub proof fn resolving_leaves_settled_buffer_alone(
    before: Seq<GulzarGlyph>,
    config: MarkConfig,
    after: Seq<GulzarGlyph>,
    report: MarkReport,
)
    requires
        resolved(before, config, after, report),
        settled(before, MarkKind::Below, config.below_window as int),
        settled(before, MarkKind::Above, config.above_window as int),
    ensures
        after == before,
        report.below.moves == 0,
        report.above.moves == 0,
        report.below.settled,
        report.above.settled,
{
    let between = choose|between: Seq<GulzarGlyph>| #[trigger]
        resolved_through(before, config, between, after, report);
    lemma_settled_stays(
        before,
        MarkKind::Below,
        -config.below_delta,
        config.below_window as int,
        config.max_passes as nat,
        between,
        report.below.moves as nat,
    );
    lemma_settled_stays(
        between,
        MarkKind::Above,
        config.above_delta as int,
        config.above_window as int,
        config.max_passes as nat,
        after,
        report.above.moves as nat,
    );
}

/// Offsets with room for both runs can take all the downward steps.
proof fn lemma_room_to_go_down(buffer: Seq<GulzarGlyph>, config: MarkConfig)
    requires
        offsets_have_room(buffer, config),
    ensures
        steps_fit(buffer, -config.below_delta, config.max_passes as int),
{
    let passes = config.max_passes as int;
    let down = config.below_delta as int;
    assert(passes * (-down) == -(passes * down)) by (nonlinear_arith);
    assert forall|i: int| 0 <= i < buffer.len() implies i32::MIN <= (#[trigger] buffer[i]).y_offset
        + passes * (-down) <= i32::MAX by {
        let y = buffer[i].y_offset as int;
        assert(i32::MIN <= y - passes * down <= i32::MAX);
    }
}

/// Offsets that had room for both runs, and have since gone down by some
/// of the passes allowed, can take all the upward steps.
proof fn lemma_room_to_go_up(
    origin: Seq<GulzarGlyph>,
    between: Seq<GulzarGlyph>,
    config: MarkConfig,
    moves: int,
)
    requires
        offsets_have_room(origin, config),
        between.len() == origin.len(),
        0 <= moves <= config.max_passes,
        drift_bounded(origin, between, -config.below_delta, moves),
    ensures
        steps_fit(between, config.above_delta as int, config.max_passes as int),
{
    let passes = config.max_passes as int;
    let down = config.below_delta as int;
    let up = config.above_delta as int;
    assert(passes * (-down) == -(passes * down)) by (nonlinear_arith);
    if -down >= 0 {
        assert(0 <= moves * (-down) <= passes * (-down)) by (nonlinear_arith)
            requires
                0 <= moves <= passes,
                -down >= 0,
        ;
    } else {
        assert(passes * (-down) <= moves * (-down) <= 0) by (nonlinear_arith)
            requires
                0 <= moves <= passes,
                -down < 0,
        ;
    }
    assert forall|i: int| 0 <= i < between.len() implies i32::MIN <= (#[trigger] between[i]).y_offset
        + passes * up <= i32::MAX by {
        let y = origin[i].y_offset as int;
        let z = between[i].y_offset as int;
        assert(drifted(y, z, -down, moves));
        assert(i32::MIN <= y - passes * down <= i32::MAX);
        assert(i32::MIN <= y + passes * up <= i32::MAX);
        assert(i32::MIN <= y - passes * down + passes * up <= i32::MAX);
    }
}

/// Where only offsets differ between a first and a second buffer, and
/// between the second and a third, only offsets differ between the first
/// and the third.
proof fn lemma_only_offsets_differ_twice(
    first: Seq<GulzarGlyph>,
    second: Seq<GulzarGlyph>,
    third: Seq<GulzarGlyph>,
)
    requires
        only_offsets_differ(first, second),
        only_offsets_differ(second, third),
    ensures
        only_offsets_differ(first, third),
{
    assert forall|i: int| 0 <= i < first.len() implies #[trigger] third[i] == (GulzarGlyph {
        y_offset: third[i].y_offset,
        ..first[i]
    }) by {
        assert(second[i] == (GulzarGlyph { y_offset: second[i].y_offset, ..first[i] }));
        assert(third[i] == (GulzarGlyph { y_offset: third[i].y_offset, ..second[i] }));
    }
}

/// Moves colliding dots out of the way: first the dots below, downward,
/// then the dots above, upward. A buffer in which no dot collides is left
/// as it is.
pub fn resolve_marks(buffer: &mut Vec<GulzarGlyph>, config: &MarkConfig) -> (report: MarkReport)
    requires
        all_wf(old(buffer)@),
        offsets_have_room(old(buffer)@, *config),
    ensures
        all_wf(final(buffer)@),
        only_offsets_differ(old(buffer)@, final(buffer)@),
        resolved(old(buffer)@, *config, final(buffer)@, report),
        report.below.moves <= config.max_passes,
        report.above.moves <= config.max_passes,
        settled(old(buffer)@, MarkKind::Below, config.below_window as int) && settled(
            old(buffer)@,
            MarkKind::Above,
            config.above_window as int,
        ) ==> final(buffer)@ == old(buffer)@ && report.below.moves == 0 && report.above.moves
            == 0,
{
    proof {
        lemma_room_to_go_down(buffer@, *config);
    }
    let below = nudge_marks(
        buffer,
        MarkKind::Below,
        -(config.below_delta as i64),
        config.below_window,
        config.max_passes,
    );
    let ghost between = buffer@;
    proof {
        lemma_room_to_go_up(old(buffer)@, between, *config, below.moves as int);
    }
    let above = nudge_marks(
        buffer,
        MarkKind::Above,
        config.above_delta as i64,
        config.above_window,
        config.max_passes,
    );
    proof {
        lemma_only_offsets_differ_twice(old(buffer)@, between, buffer@);
        assert(resolved_through(
            old(buffer)@,
            *config,
            between,
            buffer@,
            MarkReport { below, above },
        ));
    }
    MarkReport { below, above }
}

/// The glyph at `t` is the last tail before place `i`.
pub open spec fn is_last_tail_before(buffer: Seq<GulzarGlyph>, i: int, t: int) -> bool {
    &&& 0 <= t < i
    &&& buffer[t].role.tail
    &&& forall|k: int| t < k < i ==> !(#[trigger] buffer[k]).role.tail
}

/// The glyph at `i` is a dot below that stands over a tail and collides
/// with that tail, the last one before it.
pub open spec fn rests_on_tail(buffer: Seq<GulzarGlyph>, i: int) -> bool {
    &&& !buffer[i].role.tail
    &&& buffer[i].in_bari_ye
    &&& buffer[i].role.dot_below
    &&& exists|t: int| #[trigger]
        is_last_tail_before(buffer, i, t) && buffer[i].collides_with(&buffer[t])
}

/// The glyph with its vertical offset set to its height less `drop`.
pub open spec fn set_on_tail(glyph: GulzarGlyph, drop: int) -> GulzarGlyph {
    GulzarGlyph { y_offset: (glyph.extents.height - drop) as i32, ..glyph }
}

/// Every glyph's height less `drop` fits a vertical offset.
pub open spec fn drops_fit(buffer: Seq<GulzarGlyph>, drop: int) -> bool {
    forall|i: int|
        0 <= i < buffer.len() ==> i32::MIN <= (#[trigger] buffer[i]).extents.height - drop
            <= i32::MAX
}

/// Gives every dot below that rests on a tail a fixed vertical offset:
/// its height less `drop`. Which dots rest on a tail is settled on the
/// buffer as it comes in, before any dot is moved.
pub fn place_tail_dots(buffer: &mut Vec<GulzarGlyph>, drop: i32)
    requires
        all_wf(old(buffer)@),
        drops_fit(old(buffer)@, drop as int),
    ensures
        all_wf(final(buffer)@),
        final(buffer)@.len() == old(buffer)@.len(),
        only_offsets_differ(old(buffer)@, final(buffer)@),
        forall|i: int|
            0 <= i < old(buffer)@.len() ==> #[trigger] final(buffer)@[i] == if rests_on_tail(
                old(buffer)@,
                i,
            ) {
                set_on_tail(old(buffer)@[i], drop as int)
            } else {
                old(buffer)@[i]
            },
{
    let mut resting: Vec<bool> = Vec::new();
    let mut last_tail: Option<usize> = None;
    let mut i: usize = 0;
    while i < buffer.len()
        invariant
            buffer@ == old(buffer)@,
            all_wf(buffer@),
            i <= buffer@.len(),
            resting@.len() == i,
            forall|k: int| 0 <= k < i ==> #[trigger] resting@[k] == rests_on_tail(buffer@, k),
            match last_tail {
                None => forall|k: int| 0 <= k < i ==> !(#[trigger] buffer@[k]).role.tail,
                Some(t) => is_last_tail_before(buffer@, i as int, t as int),
            },
        decreases buffer@.len() - i,
    {
        let glyph = &buffer[i];
        let mut rests = false;
        if glyph.role.tail {
            last_tail = Some(i);
        } else {
            match last_tail {
                None => {
                    assert(!rests_on_tail(buffer@, i as int)) by {
                        assert forall|t: int| !(#[trigger] is_last_tail_before(
                            buffer@,
                            i as int,
                            t,
                        )) by {}
                    }
                },
                Some(t) => {
                    if glyph.in_bari_ye && glyph.role.dot_below {
                        rests = glyph.collides(&buffer[t]);
                    }
                    assert(rests == rests_on_tail(buffer@, i as int)) by {
                        assert(is_last_tail_before(buffer@, i as int, t as int));
                        assert forall|t2: int| #[trigger]
                            is_last_tail_before(buffer@, i as int, t2) implies t2 == t by {
                            if t2 < t {
                                assert(buffer@[t as int].role.tail);
                            }
                            if t < t2 {
                                assert(buffer@[t2].role.tail);
                            }
                        }
                    }
                    proof {
                        assert(is_last_tail_before(buffer@, i + 1, t as int));
                    }
                },
            }
        }
        resting.push(rests);
        i = i + 1;
    }
    let mut k: usize = 0;
    while k < buffer.len()
        invariant
            buffer@.len() == old(buffer)@.len(),
            resting@.len() == buffer@.len(),
            drops_fit(old(buffer)@, drop as int),
            k <= buffer@.len(),
            forall|m: int|
                0 <= m < buffer@.len() ==> #[trigger] resting@[m] == rests_on_tail(old(buffer)@, m),
            forall|m: int|
                0 <= m < k ==> #[trigger] buffer@[m] == if rests_on_tail(old(buffer)@, m) {
                    set_on_tail(old(buffer)@[m], drop as int)
                } else {
                    old(buffer)@[m]
                },
            forall|m: int| k <= m < buffer@.len() ==> #[trigger] buffer@[m] == old(buffer)@[m],
        decreases buffer@.len() - k,
    {
        if resting[k] {
            assert(i32::MIN <= old(buffer)@[k as int].extents.height - drop <= i32::MAX);
            buffer[k].y_offset = buffer[k].extents.height - drop;
        }
        k = k + 1;
    }
    proof {
        assert forall|m: int| 0 <= m < buffer@.len() implies (#[trigger] buffer@[m]).wf() by {
            assert(old(buffer)@[m].wf());
        }
    }
}

/// Tells whether every glyph of the buffer is well formed, which the
/// functions of this module need.
pub fn all_are_wf(buffer: &Vec<GulzarGlyph>) -> (ok: bool)
    ensures
        ok == all_wf(buffer@),
{
    let mut i: usize = 0;
    while i < buffer.len()
        invariant
            i <= buffer@.len(),
            forall|k: int| 0 <= k < i ==> (#[trigger] buffer@[k]).wf(),
        decreases buffer@.len() - i,
    {
        if !buffer[i].is_wf() {
            return false;
        }
        i = i + 1;
    }
    true
}

/// Tells whether every glyph's height less `drop` fits a vertical
/// offset, which `place_tail_dots` needs.
pub fn drops_all_fit(buffer: &Vec<GulzarGlyph>, drop: i32) -> (ok: bool)
    ensures
        ok == drops_fit(buffer@, drop as int),
{
    let mut i: usize = 0;
    while i < buffer.len()
        invariant
            i <= buffer@.len(),
            forall|k: int|
                0 <= k < i ==> i32::MIN <= (#[trigger] buffer@[k]).extents.height - drop
                    <= i32::MAX,
        decreases buffer@.len() - i,
    {
        let set: i64 = buffer[i].extents.height as i64 - drop as i64;
        if set < i32::MIN as i64 || set > i32::MAX as i64 {
            return false;
        }
        i = i + 1;
    }
    true
}

/// Tells whether every vertical offset has room for both runs of
/// passes, which `resolve_marks` needs.
pub fn offsets_all_have_room(buffer: &Vec<GulzarGlyph>, config: &MarkConfig) -> (ok: bool)
    ensures
        ok == offsets_have_room(buffer@, *config),
{
    let passes: i128 = config.max_passes as i128;
    assert(-0x8000_0000_0000_0000_0000_0000 <= passes * config.below_delta
        <= 0x8000_0000_0000_0000_0000_0000) by (nonlinear_arith)
        requires
            0 <= passes <= 0x1_0000_0000_0000_0000,
            -0x8000_0000 <= config.below_delta <= 0x8000_0000,
    ;
    assert(-0x8000_0000_0000_0000_0000_0000 <= passes * config.above_delta
        <= 0x8000_0000_0000_0000_0000_0000) by (nonlinear_arith)
        requires
            0 <= passes <= 0x1_0000_0000_0000_0000,
            -0x8000_0000 <= config.above_delta <= 0x8000_0000,
    ;
    let down: i128 = passes * (config.below_delta as i128);
    let up: i128 = passes * (config.above_delta as i128);
    let low: i128 = i32::MIN as i128;
    let high: i128 = i32::MAX as i128;
    let mut i: usize = 0;
    while i < buffer.len()
        invariant
            i <= buffer@.len(),
            down == config.max_passes * config.below_delta,
            up == config.max_passes * config.above_delta,
            -0x8000_0000_0000_0000_0000_0000 <= down <= 0x8000_0000_0000_0000_0000_0000,
            -0x8000_0000_0000_0000_0000_0000 <= up <= 0x8000_0000_0000_0000_0000_0000,
            low == i32::MIN,
            high == i32::MAX,
            forall|k: int|
                0 <= k < i ==> {
                    let y = (#[trigger] buffer@[k]).y_offset as int;
                    &&& i32::MIN <= y - down <= i32::MAX
                    &&& i32::MIN <= y + up <= i32::MAX
                    &&& i32::MIN <= y - down + up <= i32::MAX
                },
        decreases buffer@.len() - i,
    {
        let y: i128 = buffer[i].y_offset as i128;
        let a = y - down;
        let b = y + up;
        let c = y - down + up;
        if a < low || a > high || b < low || b > high || c < low || c > high {
            return false;
        }
        i = i + 1;
    }
    true
}

} // verus!
