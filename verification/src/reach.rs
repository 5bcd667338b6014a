//! Which glyphs stand over the tail of a letter before them.
//!
//! A letter with a long tail reaches under the glyphs that follow it. A
//! small automaton walks the buffer once. At a tail it takes the length of
//! the tail as what remains of the reach. Each later glyph uses up its own
//! advance of what remains and is marked as being in reach, until nothing
//! remains. A glyph that starts a new group of letters while something
//! remains is instead made wider by what remains, so that the group clears
//! the tail, and the reach ends there.

use crate::glyph::GulzarGlyph;
use vstd::prelude::*;

verus! {

/// The state of the automaton between two glyphs.
#[derive(Clone, Copy, Debug, PartialEq, Eq, Structural)]
pub enum Reach {
    /// No tail reaches here.
    Idle,
    /// A tail reaches here, and `remaining` units of it are left.
    InReach { remaining: i64 },
}

/// What one step of the automaton comes to.
#[derive(Clone, Copy, Debug, PartialEq, Eq, Structural)]
pub struct Stepped {
    /// The state after the glyph.
    pub state: Reach,
    /// The glyph's advance, made wider where the glyph has to clear the
    /// tail.
    pub x_advance: i32,
    /// Whether the glyph is to be marked as standing in reach.
    pub in_reach: bool,
}

/// The step can be taken without leaving the range of an advance or of
/// what remains.
pub open spec fn step_fits(state: Reach, is_tail: bool, is_init: bool, advance: i32) -> bool {
    match state {
        Reach::Idle => true,
        Reach::InReach { remaining } => if is_tail {
            true
        } else if is_init && remaining > 0 {
            advance + remaining <= i32::MAX
        } else {
            i64::MIN <= remaining - advance <= i64::MAX
        },
    }
}

/// One step of the automaton, over a glyph that is or is not a tail
/// (with a tail of `tail_length` units if it is), that does or does not
/// start a group, and that has the given advance.
pub open spec fn stepped(
    state: Reach,
    is_tail: bool,
    tail_length: i64,
    is_init: bool,
    advance: i32,
) -> Stepped {
    if is_tail {
        Stepped {
            state: Reach::InReach { remaining: tail_length },
            x_advance: advance,
            in_reach: true,
        }
    } else {
        match state {
            Reach::Idle => Stepped { state: Reach::Idle, x_advance: advance, in_reach: false },
            Reach::InReach { remaining } => if is_init && remaining > 0 {
                Stepped {
                    state: Reach::Idle,
                    x_advance: (advance + remaining) as i32,
                    in_reach: false,
                }
            } else if remaining - advance > 0 {
                Stepped {
                    state: Reach::InReach { remaining: (remaining - advance) as i64 },
                    x_advance: advance,
                    in_reach: true,
                }
            } else {
                Stepped { state: Reach::Idle, x_advance: advance, in_reach: false }
            },
        }
    }
}

/// Takes one step of the automaton.
pub fn reach_step(state: Reach, is_tail: bool, tail_length: i64, is_init: bool, advance: i32) -> (next:
    Stepped)
    requires
        step_fits(state, is_tail, is_init, advance),
    ensures
        next == stepped(state, is_tail, tail_length, is_init, advance),
{
    if is_tail {
        return Stepped {
            state: Reach::InReach { remaining: tail_length },
            x_advance: advance,
            in_reach: true,
        };
    }
    match state {
        Reach::Idle => Stepped { state: Reach::Idle, x_advance: advance, in_reach: false },
        Reach::InReach { remaining } => {
            if is_init && remaining > 0 {
                Stepped {
                    state: Reach::Idle,
                    x_advance: (advance as i64 + remaining) as i32,
                    in_reach: false,
                }
            } else {
                let left: i64 = remaining - advance as i64;
                if left > 0 {
                    Stepped {
                        state: Reach::InReach { remaining: left },
                        x_advance: advance,
                        in_reach: true,
                    }
                } else {
                    Stepped { state: Reach::Idle, x_advance: advance, in_reach: false }
                }
            }
        },
    }
}

/// The step that the automaton takes over glyph `i`, from the state
/// `state`. `tails[i]` is the length of the glyph's tail where the glyph
/// is a tail.
pub open spec fn step_over(
    buffer: Seq<GulzarGlyph>,
    tails: Seq<i64>,
    i: int,
    state: Reach,
) -> Stepped {
    stepped(state, buffer[i].role.tail, tails[i], buffer[i].role.init, buffer[i].x_advance)
}

/// The state of the automaton before glyph `i`, when it has started idle
/// before the first glyph.
pub open spec fn reach_before(buffer: Seq<GulzarGlyph>, tails: Seq<i64>, i: int) -> Reach
    decreases i,
{
    if i <= 0 {
        Reach::Idle
    } else {
        step_over(buffer, tails, i - 1, reach_before(buffer, tails, i - 1)).state
    }
}

/// Every step of the walk over the buffer can be taken.
pub open spec fn reach_fits(buffer: Seq<GulzarGlyph>, tails: Seq<i64>) -> bool {
    forall|i: int|
        0 <= i < buffer.len() ==> step_fits(
            #[trigger] reach_before(buffer, tails, i),
            buffer[i].role.tail,
            buffer[i].role.init,
            buffer[i].x_advance,
        )
}

/// Glyph `i` as the walk leaves it: with the advance that its step gives
/// it, and marked as in reach where its step says so. A mark that the
/// glyph already had stays.
pub open spec fn annotated(buffer: Seq<GulzarGlyph>, tails: Seq<i64>, i: int) -> GulzarGlyph {
    let step = step_over(buffer, tails, i, reach_before(buffer, tails, i));
    GulzarGlyph {
        x_advance: step.x_advance,
        in_bari_ye: buffer[i].in_bari_ye || step.in_reach,
        ..buffer[i]
    }
}

/// Tells whether every step of the walk over the buffer can be taken,
/// which `annotate_reach` needs.
pub fn check_reach_fits(buffer: &Vec<GulzarGlyph>, tails: &Vec<i64>) -> (ok: bool)
    requires
        tails@.len() == buffer@.len(),
    ensures
        ok == reach_fits(buffer@, tails@),
{
    let mut state = Reach::Idle;
    let mut i: usize = 0;
    while i < buffer.len()
        invariant
            tails@.len() == buffer@.len(),
            i <= buffer@.len(),
            state == reach_before(buffer@, tails@, i as int),
            forall|k: int|
                0 <= k < i ==> step_fits(
                    #[trigger] reach_before(buffer@, tails@, k),
                    buffer@[k].role.tail,
                    buffer@[k].role.init,
                    buffer@[k].x_advance,
                ),
        decreases buffer@.len() - i,
    {
        let glyph = &buffer[i];
        let fits = match state {
            Reach::Idle => true,
            Reach::InReach { remaining } => if glyph.role.tail {
                true
            } else if glyph.role.init && remaining > 0 {
                (glyph.x_advance as i128) + (remaining as i128) <= i32::MAX as i128
            } else {
                let left: i128 = (remaining as i128) - (glyph.x_advance as i128);
                i64::MIN as i128 <= left && left <= i64::MAX as i128
            },
        };
        if !fits {
            return false;
        }
        let next = reach_step(state, glyph.role.tail, tails[i], glyph.role.init, glyph.x_advance);
        state = next.state;
        i = i + 1;
    }
    true
}

/// Walks the buffer once, marks the glyphs that stand over a tail, and
/// widens the glyphs that have to clear one. `tails[i]` is the length of
/// the tail of glyph `i`, and is read only where that glyph is a tail.
pub fn annotate_reach(buffer: &mut Vec<GulzarGlyph>, tails: &Vec<i64>)
    requires
        tails@.len() == old(buffer)@.len(),
        reach_fits(old(buffer)@, tails@),
    ensures
        final(buffer)@.len() == old(buffer)@.len(),
        forall|i: int|
            0 <= i < old(buffer)@.len() ==> #[trigger] final(buffer)@[i] == annotated(
                old(buffer)@,
                tails@,
                i,
            ),
{
    let mut state = Reach::Idle;
    let mut i: usize = 0;
    while i < buffer.len()
        invariant
            tails@.len() == old(buffer)@.len(),
            buffer@.len() == old(buffer)@.len(),
            reach_fits(old(buffer)@, tails@),
            i <= buffer@.len(),
            state == reach_before(old(buffer)@, tails@, i as int),
            forall|k: int|
                0 <= k < i ==> #[trigger] buffer@[k] == annotated(old(buffer)@, tails@, k),
            forall|k: int| i <= k < buffer@.len() ==> #[trigger] buffer@[k] == old(buffer)@[k],
        decreases buffer@.len() - i,
    {
        assert(step_fits(
            reach_before(old(buffer)@, tails@, i as int),
            old(buffer)@[i as int].role.tail,
            old(buffer)@[i as int].role.init,
            old(buffer)@[i as int].x_advance,
        ));
        let next = reach_step(
            state,
            buffer[i].role.tail,
            tails[i],
            buffer[i].role.init,
            buffer[i].x_advance,
        );
        buffer[i].x_advance = next.x_advance;
        if next.in_reach {
            buffer[i].in_bari_ye = true;
        }
        state = next.state;
        i = i + 1;
    }
}

} // verus!
