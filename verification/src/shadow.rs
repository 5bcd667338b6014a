//! The shadow style: every line is drawn twice, once in the glyphs of
//! the shadow and once, on top of it, in the glyphs of the letters.

use crate::glyph::Glyph;
use vstd::prelude::*;

verus! {

/// How far the glyphs of the shadow lie behind the glyphs of the letters
/// in the font.
pub const SHADOW_GLYPHS: u32 = 26;

/// The sum of the horizontal advances of the first `n` glyphs.
pub open spec fn advance_sum(glyphs: Seq<Glyph>, n: int) -> int
    decreases n,
{
    if n <= 0 {
        0
    } else {
        advance_sum(glyphs, n - 1) + glyphs[n - 1].x_advance
    }
}

/// The line can be drawn twice: it is not empty, its advances add up
/// within the range of an advance, also when the last glyph is set back
/// by their sum, every glyph has a shadow, and the clusters of the second
/// drawing can be told from those of the first.
pub open spec fn can_shadow(glyphs: Seq<Glyph>) -> bool {
    &&& 0 < glyphs.len() <= u32::MAX
    &&& forall|n: int|
        0 <= n <= glyphs.len() ==> i32::MIN <= #[trigger] advance_sum(glyphs, n) <= i32::MAX
    &&& i32::MIN <= glyphs.last().x_advance - advance_sum(glyphs, glyphs.len() as int)
        <= i32::MAX
    &&& forall|i: int|
        0 <= i < glyphs.len() ==> (#[trigger] glyphs[i]).codepoint + SHADOW_GLYPHS <= u32::MAX
    &&& forall|i: int|
        0 <= i < glyphs.len() ==> (#[trigger] glyphs[i]).cluster + glyphs.len() <= u32::MAX
}

/// Glyph `i` of the first drawing: the shadow of glyph `i` of the line.
/// The last one sets the pen back to where the line began.
pub open spec fn shadow_of(glyphs: Seq<Glyph>, i: int) -> Glyph {
    Glyph {
        codepoint: (glyphs[i].codepoint + SHADOW_GLYPHS) as u32,
        x_advance: if i == glyphs.len() - 1 {
            (glyphs[i].x_advance - advance_sum(glyphs, glyphs.len() as int)) as i32
        } else {
            glyphs[i].x_advance
        },
        ..glyphs[i]
    }
}

/// Glyph `i` of the second drawing: glyph `i` of the line, in a cluster
/// of its own.
pub open spec fn letter_of(glyphs: Seq<Glyph>, i: int) -> Glyph {
    Glyph { cluster: (glyphs[i].cluster + glyphs.len()) as u32, ..glyphs[i] }
}

/// The line drawn twice: first its shadow, then its letters.
pub open spec fn shadowed(glyphs: Seq<Glyph>) -> Seq<Glyph> {
    Seq::new(
        2 * glyphs.len(),
        |i: int|
            if i < glyphs.len() {
                shadow_of(glyphs, i)
            } else {
                letter_of(glyphs, i - glyphs.len())
            },
    )
}

/// Tells whether the line can be drawn twice, which `shape` needs.
pub fn check_can_shadow(glyphs: &Vec<Glyph>) -> (ok: bool)
    ensures
        ok == can_shadow(glyphs@),
{
    let len = glyphs.len();
    if len == 0 || len > u32::MAX as usize {
        return false;
    }
    let mut total: i64 = 0;
    let mut i: usize = 0;
    while i < len
        invariant
            len == glyphs@.len(),
            0 < len <= u32::MAX,
            i <= len,
            total == advance_sum(glyphs@, i as int),
            i32::MIN <= total <= i32::MAX,
            forall|n: int|
                0 <= n <= i ==> i32::MIN <= #[trigger] advance_sum(glyphs@, n) <= i32::MAX,
            forall|k: int|
                0 <= k < i ==> (#[trigger] glyphs@[k]).codepoint + SHADOW_GLYPHS <= u32::MAX,
            forall|k: int| 0 <= k < i ==> (#[trigger] glyphs@[k]).cluster + len <= u32::MAX,
        decreases len - i,
    {
        let glyph = glyphs[i];
        total = total + glyph.x_advance as i64;
        if total < i32::MIN as i64 || total > i32::MAX as i64 {
            assert(advance_sum(glyphs@, i + 1) == total);
            return false;
        }
        if glyph.codepoint > u32::MAX - SHADOW_GLYPHS {
            return false;
        }
        if glyph.cluster as u64 + len as u64 > u32::MAX as u64 {
            return false;
        }
        i = i + 1;
    }
    let back: i64 = glyphs[len - 1].x_advance as i64 - total;
    i32::MIN as i64 <= back && back <= i32::MAX as i64
}

/// Draws the line twice: the buffer gets the shadow of every glyph, the
/// last of which sets the pen back to where the line began, and then
/// the glyphs themselves, in clusters of their own.
pub fn shape(glyphs: &mut Vec<Glyph>)
    requires
        can_shadow(old(glyphs)@),
    ensures
        final(glyphs)@ == shadowed(old(glyphs)@),
{
    let len = glyphs.len();
    let mut total: i32 = 0;
    let mut letters: Vec<Glyph> = Vec::new();
    let mut i: usize = 0;
    while i < len
        invariant
            glyphs@ == old(glyphs)@,
            can_shadow(glyphs@),
            len == glyphs@.len(),
            i <= len,
            total == advance_sum(glyphs@, i as int),
            letters@.len() == i,
            forall|k: int| 0 <= k < i ==> #[trigger] letters@[k] == letter_of(glyphs@, k),
        decreases len - i,
    {
        let glyph = glyphs[i];
        assert(i32::MIN <= advance_sum(glyphs@, i + 1) <= i32::MAX);
        total = total + glyph.x_advance;
        letters.push(Glyph { cluster: glyph.cluster + len as u32, ..glyph });
        i = i + 1;
    }
    let mut k: usize = 0;
    while k < len
        invariant
            can_shadow(old(glyphs)@),
            len == old(glyphs)@.len(),
            glyphs@.len() == len,
            total == advance_sum(old(glyphs)@, len as int),
            k <= len,
            forall|m: int| 0 <= m < k ==> #[trigger] glyphs@[m] == shadow_of(old(glyphs)@, m),
            forall|m: int| k <= m < len ==> #[trigger] glyphs@[m] == old(glyphs)@[m],
        decreases len - k,
    {
        let glyph = glyphs[k];
        let x_advance = if k == len - 1 {
            glyph.x_advance - total
        } else {
            glyph.x_advance
        };
        glyphs.set(k, Glyph { codepoint: glyph.codepoint + SHADOW_GLYPHS, x_advance, ..glyph });
        k = k + 1;
    }
    glyphs.append(&mut letters);
    assert(glyphs@ =~= shadowed(old(glyphs)@));
}

} // verus!
