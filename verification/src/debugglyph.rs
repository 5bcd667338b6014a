//! The glyph debugger: a text that starts with a mark is shown as the
//! names of the glyphs that the rest of it is shaped to.

use crate::glyph::Glyph;
use vstd::prelude::*;
use vstd::string::StringExecFns;

verus! {

/// How many characters the mark has.
pub const MARK_LENGTH: usize = 7;

/// The mark, `debug: `, as bytes.
pub open spec fn mark() -> Seq<u8> {
    seq![100u8, 101u8, 98u8, 117u8, 103u8, 58u8, 32u8]
}

/// The text of the glyphs starts with the mark. Of each glyph's number
/// the lowest byte counts.
pub open spec fn starts_with_mark(glyphs: Seq<Glyph>) -> bool {
    &&& glyphs.len() >= MARK_LENGTH
    &&& forall|i: int| 0 <= i < MARK_LENGTH ==> (#[trigger] glyphs[i]).codepoint % 256 == mark()[i]
}

/// Tells whether the text of the glyphs starts with the mark.
pub fn is_marked(glyphs: &Vec<Glyph>) -> (marked: bool)
    ensures
        marked == starts_with_mark(glyphs@),
{
    if glyphs.len() < MARK_LENGTH {
        return false;
    }
    let wanted: [u8; 7] = [100, 101, 98, 117, 103, 58, 32];
    assert(wanted@ =~= mark());
    let mut i: usize = 0;
    while i < MARK_LENGTH
        invariant
            glyphs@.len() >= MARK_LENGTH,
            wanted@ == mark(),
            i <= MARK_LENGTH,
            forall|k: int| 0 <= k < i ==> (#[trigger] glyphs@[k]).codepoint % 256 == mark()[k],
        decreases MARK_LENGTH - i,
    {
        if glyphs[i].codepoint % 256 != wanted[i] as u32 {
            return false;
        }
        i = i + 1;
    }
    true
}

/// The glyphs behind the mark.
pub fn strip_mark(glyphs: &Vec<Glyph>) -> (rest: Vec<Glyph>)
    requires
        glyphs@.len() >= MARK_LENGTH,
    ensures
        rest@ == glyphs@.skip(MARK_LENGTH as int),
{
    let mut rest: Vec<Glyph> = Vec::new();
    let mut i: usize = MARK_LENGTH;
    while i < glyphs.len()
        invariant
            MARK_LENGTH <= i <= glyphs@.len(),
            rest@.len() == i - MARK_LENGTH,
            forall|k: int| 0 <= k < rest@.len() ==> #[trigger] rest@[k] == glyphs@[k + MARK_LENGTH],
        decreases glyphs@.len() - i,
    {
        rest.push(glyphs[i]);
        i = i + 1;
    }
    assert(rest@ =~= glyphs@.skip(MARK_LENGTH as int));
    rest
}

/// The names one after another, with `|` between them.
pub open spec fn joined(names: Seq<String>, n: int) -> Seq<char>
    decreases n,
{
    if n <= 0 {
        Seq::empty()
    } else if n == 1 {
        names[0]@
    } else {
        joined(names, n - 1) + "|"@ + names[n - 1]@
    }
}

/// Writes the names one after another, with `|` between them.
pub fn join_names(names: &Vec<String>) -> (text: String)
    ensures
        text@ == joined(names@, names@.len() as int),
{
    let mut text = String::new();
    let mut i: usize = 0;
    while i < names.len()
        invariant
            i <= names@.len(),
            text@ == joined(names@, i as int),
        decreases names@.len() - i,
    {
        if i > 0 {
            text.append("|");
        }
        text.append(names[i].as_str());
        proof {
            if i == 0 {
                assert(text@ =~= names@[0]@);
            }
        }
        i = i + 1;
    }
    text
}

/// The glyph that spells character `i` of a text: the character as its
/// number, in a cluster of its own, taking up no room.
pub open spec fn spelled(text: Seq<char>, i: int) -> Glyph {
    Glyph {
        codepoint: text[i] as u32,
        cluster: i as u32,
        x_advance: 0,
        y_advance: 0,
        x_offset: 0,
        y_offset: 0,
        flags: 0,
    }
}

/// Spells a text: one glyph for each of its characters.
pub fn spell(text: &str) -> (glyphs: Vec<Glyph>)
    requires
        text@.len() <= u32::MAX,
    ensures
        glyphs@.len() == text@.len(),
        forall|i: int| 0 <= i < text@.len() ==> #[trigger] glyphs@[i] == spelled(text@, i),
{
    let len = text.unicode_len();
    let mut glyphs: Vec<Glyph> = Vec::new();
    let mut i: usize = 0;
    while i < len
        invariant
            len == text@.len(),
            len <= u32::MAX,
            i <= len,
            glyphs@.len() == i,
            forall|k: int| 0 <= k < i ==> #[trigger] glyphs@[k] == spelled(text@, k),
        decreases len - i,
    {
        let c = text.get_char(i);
        glyphs.push(
            Glyph {
                codepoint: c as u32,
                cluster: i as u32,
                x_advance: 0,
                y_advance: 0,
                x_offset: 0,
                y_offset: 0,
                flags: 0,
            },
        );
        i = i + 1;
    }
    glyphs
}

} // verus!
