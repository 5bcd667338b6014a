//! The network style: every glyph is drawn three times, twice of them a
//! little off its place, so that the strokes look woven.

use crate::glyph::Glyph;
use tiny_rng::{Rand, Rng};
use vstd::prelude::*;

verus! {

/// The generator of pseudo-random numbers of the crate `tiny_rng`.
#[verifier::external_type_specification]
#[verifier::external_body]
pub struct ExRng(Rng);

/// How many steps a glyph may be drawn off its place to the left or
/// downward.
pub const REACH: i32 = 2;

/// Largest absolute step.
pub const STEP_LIMIT: i32 = 0x3fff_ffff;

/// `m` divides two to the power of 32, so that no draw of 32 bits has to
/// be thrown away to pick one of `m` values evenly.
pub open spec fn splits_evenly(m: int) -> bool {
    0 < m <= 0x4000_0000 && 0x1_0000_0000int % m == 0
}

/// A generator that starts from `seed`.
///
/// Calls `Rand::from_seed` of `tiny_rng::Rng`. Nothing is claimed of the
/// generator.
#[verifier::external_body]
fn seeded(seed: u64) -> (rng: Rng) {
    Rng::from_seed(seed)
}

/// Draws a byte and moves the generator on.
///
/// Calls `Rand::rand_u8` of `tiny_rng::Rng`. Nothing is claimed of the
/// byte.
#[verifier::external_body]
fn draw_byte(rng: &mut Rng) -> (byte: u8) {
    rng.rand_u8()
}

/// Draws a number from `low` up to, and not including, `high`.
///
/// Calls `Rand::rand_range_i32` of `tiny_rng::Rng`, which adds to `low` a
/// draw below `high - low`. The contract claims the range of the result
/// and nothing else. It asks that `high - low` divide two to the power of
/// 32: then the first draw of the generator is taken, whatever it is.
#[verifier::external_body]
fn draw_between(rng: &mut Rng, low: i32, high: i32) -> (drawn: i32)
    requires
        splits_evenly(high - low),
    ensures
        low <= drawn < high,
{
    rng.rand_range_i32(low, high)
}

/// The sum of the numbers of the first `n` glyphs.
pub open spec fn codepoint_sum(glyphs: Seq<Glyph>, n: int) -> int
    decreases n,
{
    if n <= 0 {
        0
    } else {
        codepoint_sum(glyphs, n - 1) + glyphs[n - 1].codepoint
    }
}

/// The seed for a line: the sum of the numbers of its glyphs, or `None`
/// where that sum leaves the range of a glyph number.
pub fn seed_for(glyphs: &Vec<Glyph>) -> (seed: Option<u64>)
    ensures
        seed is Some <==> codepoint_sum(glyphs@, glyphs@.len() as int) <= u32::MAX,
        seed matches Some(sum) ==> sum == codepoint_sum(glyphs@, glyphs@.len() as int),
{
    let mut sum: u64 = 0;
    let mut i: usize = 0;
    while i < glyphs.len()
        invariant
            i <= glyphs@.len(),
            sum == codepoint_sum(glyphs@, i as int),
            sum <= u32::MAX,
        decreases glyphs@.len() - i,
    {
        sum = sum + glyphs[i].codepoint as u64;
        if sum > u32::MAX as u64 {
            proof {
                lemma_sum_grows(glyphs@, i + 1, glyphs@.len() as int);
            }
            return None;
        }
        i = i + 1;
    }
    Some(sum)
}

/// The sum of the numbers of more glyphs is no smaller.
proof fn lemma_sum_grows(glyphs: Seq<Glyph>, n: int, m: int)
    requires
        0 <= n <= m,
    ensures
        codepoint_sum(glyphs, n) <= codepoint_sum(glyphs, m),
    decreases m - n,
{
    if n < m {
        lemma_sum_grows(glyphs, n, m - 1);
    }
}

/// `offset` is a whole number of steps off, at most `REACH` steps to
/// the left or downward and fewer than `REACH` to the right or upward.
pub open spec fn is_off_by_steps(offset: int, step: int) -> bool {
    exists|steps: int| -REACH <= steps < REACH && offset == #[trigger] (steps * step)
}

/// The glyph in its place, taking up no room.
pub open spec fn in_place(glyph: Glyph) -> Glyph {
    Glyph {
        codepoint: glyph.codepoint,
        cluster: glyph.cluster,
        x_advance: 0,
        y_advance: 0,
        x_offset: 0,
        y_offset: 0,
        flags: 0,
    }
}

/// `drawn` is `glyph` drawn off its place, with the given advance.
pub open spec fn is_off_place(drawn: Glyph, glyph: Glyph, x_advance: int, step: int) -> bool {
    &&& drawn.codepoint == glyph.codepoint
    &&& drawn.cluster == glyph.cluster
    &&& drawn.x_advance == x_advance
    &&& drawn.y_advance == 0
    &&& drawn.flags == 0
    &&& is_off_by_steps(drawn.x_offset as int, step)
    &&& is_off_by_steps(drawn.y_offset as int, step)
}

/// `woven` holds every glyph of the line three times: in its place and
/// twice off its place. The third drawing carries the glyph's advance.
pub open spec fn is_woven(glyphs: Seq<Glyph>, step: int, woven: Seq<Glyph>) -> bool {
    &&& woven.len() == 3 * glyphs.len()
    &&& forall|i: int|
        0 <= i < glyphs.len() ==> {
            &&& #[trigger] woven[3 * i] == in_place(glyphs[i])
            &&& is_off_place(woven[3 * i + 1], glyphs[i], 0, step)
            &&& is_off_place(woven[3 * i + 2], glyphs[i], glyphs[i].x_advance as int, step)
        }
}

/// Draws a number of steps and answers with that many steps.
fn draw_offset(rng: &mut Rng, step: i32) -> (offset: i32)
    requires
        -STEP_LIMIT <= step <= STEP_LIMIT,
    ensures
        is_off_by_steps(offset as int, step as int),
{
    let steps = draw_between(rng, -REACH, REACH);
    assert(-0x8000_0000 <= steps * step <= 0x7fff_ffff) by (nonlinear_arith)
        requires
            -2 <= steps < 2,
            -0x3fff_ffff <= step <= 0x3fff_ffff,
    ;
    steps * step
}

/// Draws every glyph of the line three times. The glyphs come in with
/// their numbers in the font and their advances. How far off its place a
/// glyph is drawn is up to a generator that starts from `seed`.
pub fn shape(glyphs: &Vec<Glyph>, step: i32, seed: u64) -> (woven: Vec<Glyph>)
    requires
        -STEP_LIMIT <= step <= STEP_LIMIT,
    ensures
        is_woven(glyphs@, step as int, woven@),
{
    let mut rng = seeded(seed);
    draw_byte(&mut rng);
    draw_byte(&mut rng);
    let mut woven: Vec<Glyph> = Vec::new();
    let mut i: usize = 0;
    while i < glyphs.len()
        invariant
            -STEP_LIMIT <= step <= STEP_LIMIT,
            i <= glyphs@.len(),
            woven@.len() == 3 * i,
            forall|k: int|
                0 <= k < i ==> {
                    &&& #[trigger] woven@[3 * k] == in_place(glyphs@[k])
                    &&& is_off_place(woven@[3 * k + 1], glyphs@[k], 0, step as int)
                    &&& is_off_place(
                        woven@[3 * k + 2],
                        glyphs@[k],
                        glyphs@[k].x_advance as int,
                        step as int,
                    )
                },
        decreases glyphs@.len() - i,
    {
        let glyph = glyphs[i];
        let ghost before = woven@;
        woven.push(
            Glyph {
                codepoint: glyph.codepoint,
                cluster: glyph.cluster,
                x_advance: 0,
                y_advance: 0,
                x_offset: 0,
                y_offset: 0,
                flags: 0,
            },
        );
        let x1 = draw_offset(&mut rng, step);
        let y1 = draw_offset(&mut rng, step);
        woven.push(
            Glyph {
                codepoint: glyph.codepoint,
                cluster: glyph.cluster,
                x_advance: 0,
                y_advance: 0,
                x_offset: x1,
                y_offset: y1,
                flags: 0,
            },
        );
        let x2 = draw_offset(&mut rng, step);
        let y2 = draw_offset(&mut rng, step);
        woven.push(
            Glyph {
                codepoint: glyph.codepoint,
                cluster: glyph.cluster,
                x_advance: glyph.x_advance,
                y_advance: 0,
                x_offset: x2,
                y_offset: y2,
                flags: 0,
            },
        );
        proof {
            assert forall|k: int| 0 <= k < i + 1 implies {
                &&& #[trigger] woven@[3 * k] == in_place(glyphs@[k])
                &&& is_off_place(woven@[3 * k + 1], glyphs@[k], 0, step as int)
                &&& is_off_place(
                    woven@[3 * k + 2],
                    glyphs@[k],
                    glyphs@[k].x_advance as int,
                    step as int,
                )
            } by {
                if k < i {
                    assert(woven@[3 * k] == before[3 * k]);
                    assert(woven@[3 * k + 1] == before[3 * k + 1]);
                    assert(woven@[3 * k + 2] == before[3 * k + 2]);
                }
            }
        }
        i = i + 1;
    }
    woven
}

} // verus!
