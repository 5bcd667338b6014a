//! Words of a buffer that runs from the end of a line to its start, and
//! lifting each word as a whole.
//!
//! In such a buffer the glyph that starts a word comes after the glyph
//! that ends it. A word reaches from a glyph whose name marks it as the
//! start of a group back to the nearest glyph whose name marks it as the
//! end of one. Each word is moved up by half of how far its first letter
//! hangs below the baseline, so that the word sits evenly on the line.

use crate::glyph::{contains, is_infix, GulzarGlyph};
use vstd::prelude::*;

verus! {

/// A word: the place of the glyph that starts it, the place of the glyph
/// that ends it, which comes earlier in the buffer, and how far the word
/// is moved up.
#[derive(Clone, Copy, Debug, PartialEq, Eq, Structural)]
pub struct Word {
    pub start: usize,
    pub end: usize,
    pub shift: i32,
}

/// The glyph's name marks it as the start of a word.
pub open spec fn starts_word(glyph: GulzarGlyph) -> bool {
    is_infix(glyph.name@, ".init"@)
}

/// The glyph's name marks it as the end of a word.
pub open spec fn ends_word(glyph: GulzarGlyph) -> bool {
    is_infix(glyph.name@, ".fina"@)
}

/// Half of `-y`, cut toward zero.
pub open spec fn half_lift(y: int) -> int {
    if y <= 0 {
        (-y) / 2
    } else {
        -(y / 2)
    }
}

/// The place of the last glyph at or before `s` that ends a word, or -1
/// where there is none.
pub open spec fn last_end(buffer: Seq<GulzarGlyph>, s: int) -> int
    decreases s + 1,
{
    if s < 0 {
        -1
    } else if ends_word(buffer[s]) {
        s
    } else {
        last_end(buffer, s - 1)
    }
}

/// The words of the buffer from place `s` backward, the one nearest to
/// the end of the buffer first. The first glyph of the buffer is never
/// looked at as the start of a word. There is no answer where a glyph
/// that starts a word has no glyph before it that ends one, or ends a
/// word itself.
pub open spec fn words_from(buffer: Seq<GulzarGlyph>, s: int) -> Option<Seq<Word>>
    decreases s,
{
    if s <= 0 {
        Some(Seq::empty())
    } else if !starts_word(buffer[s]) {
        words_from(buffer, s - 1)
    } else {
        let e = last_end(buffer, s);
        if e < 0 || e >= s {
            None
        } else {
            match words_from(buffer, e) {
                None => None,
                Some(rest) => Some(
                    seq![
                        Word {
                            start: s as usize,
                            end: e as usize,
                            shift: half_lift(buffer[s].y_offset as int) as i32,
                        },
                    ] + rest,
                ),
            }
        }
    }
}

/// The words of the whole buffer.
pub open spec fn words_of(buffer: Seq<GulzarGlyph>) -> Option<Seq<Word>> {
    words_from(buffer, buffer.len() - 1)
}

/// The place of the last glyph at or before `s` that ends a word.
fn find_end(buffer: &Vec<GulzarGlyph>, s: usize) -> (end: Option<usize>)
    requires
        s < buffer@.len(),
    ensures
        end is None <==> last_end(buffer@, s as int) < 0,
        end matches Some(e) ==> e == last_end(buffer@, s as int) && e <= s,
{
    let mut e: usize = s;
    loop
        invariant
            e <= s,
            s < buffer@.len(),
            last_end(buffer@, s as int) == last_end(buffer@, e as int),
        decreases e,
    {
        if contains(buffer[e].name.as_str(), ".fina") {
            return Some(e);
        }
        if e == 0 {
            assert(last_end(buffer@, -1) == -1);
            return None;
        }
        e = e - 1;
    }
}

/// Finds the words of the buffer, or `None` where they cannot be told
/// apart.
pub fn find_words(buffer: &Vec<GulzarGlyph>) -> (words: Option<Vec<Word>>)
    ensures
        words is None <==> words_of(buffer@) is None,
        words matches Some(found) ==> words_of(buffer@) == Some(found@),
{
    let mut found: Vec<Word> = Vec::new();
    if buffer.len() == 0 {
        return Some(found);
    }
    let mut s: usize = buffer.len() - 1;
    while s > 0
        invariant
            s < buffer@.len(),
            match words_from(buffer@, s as int) {
                None => words_of(buffer@) is None,
                Some(rest) => words_of(buffer@) == Some(found@ + rest),
            },
        decreases s,
    {
        if !contains(buffer[s].name.as_str(), ".init") {
            s = s - 1;
        } else {
            match find_end(buffer, s) {
                None => {
                    return None;
                },
                Some(e) => {
                    if e >= s {
                        return None;
                    }
                    let y: i64 = buffer[s].y_offset as i64;
                    let shift: i64 = if y <= 0 {
                        (-y) / 2
                    } else {
                        -(y / 2)
                    };
                    let word = Word { start: s, end: e, shift: shift as i32 };
                    proof {
                        match words_from(buffer@, e as int) {
                            None => {},
                            Some(rest) => {
                                assert(words_from(buffer@, s as int) == Some(seq![word] + rest));
                                assert(found@ + (seq![word] + rest) =~= found@.push(word) + rest);
                            },
                        }
                    }
                    found.push(word);
                    s = e;
                },
            }
        }
    }
    proof {
        assert(words_from(buffer@, 0) == Some(Seq::<Word>::empty()));
        assert(found@ + Seq::<Word>::empty() =~= found@);
    }
    Some(found)
}

/// How far the glyph at place `i` is moved up by the given words: by
/// the shift of the first word that it belongs to, or not at all.
pub open spec fn lift_at(words: Seq<Word>, i: int) -> int
    decreases words.len(),
{
    if words.len() == 0 {
        0
    } else if words[0].end <= i <= words[0].start {
        words[0].shift as int
    } else {
        lift_at(words.skip(1), i)
    }
}

/// Every glyph can be moved up by what the words ask of it.
pub open spec fn lifts_fit(buffer: Seq<GulzarGlyph>, words: Seq<Word>) -> bool {
    forall|i: int|
        0 <= i < buffer.len() ==> i32::MIN <= (#[trigger] buffer[i]).y_offset + lift_at(words, i)
            <= i32::MAX
}

/// The buffer with every glyph moved up by what the words ask of it.
pub open spec fn with_words_lifted(buffer: Seq<GulzarGlyph>, words: Seq<Word>) -> Seq<GulzarGlyph> {
    Seq::new(
        buffer.len(),
        |i: int|
            GulzarGlyph { y_offset: (buffer[i].y_offset + lift_at(words, i)) as i32, ..buffer[i] },
    )
}

/// The words lie one before another: each word ends before it starts,
/// within the buffer, and starts before the word listed before it ends.
pub open spec fn words_descend(words: Seq<Word>, len: int) -> bool {
    &&& forall|k: int| 0 <= k < words.len() ==> (#[trigger] words[k]).end < words[k].start < len
    &&& forall|k: int| 0 < k < words.len() ==> (#[trigger] words[k]).start < words[k - 1].end
}

/// The last end at or before a place lies at or before that place.
proof fn lemma_last_end_bounds(buffer: Seq<GulzarGlyph>, s: int)
    ensures
        -1 <= last_end(buffer, s),
        s >= 0 ==> last_end(buffer, s) <= s,
        s < 0 ==> last_end(buffer, s) == -1,
        last_end(buffer, s) >= 0 ==> ends_word(buffer[last_end(buffer, s)]),
    decreases s + 1,
{
    if s >= 0 && !ends_word(buffer[s]) {
        lemma_last_end_bounds(buffer, s - 1);
    }
}

/// The words that a walk finds lie one before another, all at or before
/// the place where the walk began.
proof fn lemma_words_descend(buffer: Seq<GulzarGlyph>, s: int)
    requires
        s < buffer.len() <= usize::MAX,
        words_from(buffer, s) is Some,
    ensures
        words_descend(words_from(buffer, s)->Some_0, buffer.len() as int),
        words_from(buffer, s)->Some_0.len() > 0 ==> {
            &&& words_from(buffer, s)->Some_0[0].start <= s
            &&& !ends_word(buffer[words_from(buffer, s)->Some_0[0].start as int])
        },
    decreases s,
{
    if s <= 0 {
    } else if !starts_word(buffer[s]) {
        lemma_words_descend(buffer, s - 1);
    } else {
        let e = last_end(buffer, s);
        lemma_last_end_bounds(buffer, s);
        lemma_words_descend(buffer, e);
        let rest = words_from(buffer, e)->Some_0;
        let all = words_from(buffer, s)->Some_0;
        assert(all[0].start == s && all[0].end == e);
        assert forall|k: int| 0 <= k < all.len() implies (#[trigger] all[k]).end < all[k].start
            < buffer.len() by {
            if k > 0 {
                assert(all[k] == rest[k - 1]);
            }
        }
        assert forall|k: int| 0 < k < all.len() implies (#[trigger] all[k]).start < all[k
            - 1].end by {
            assert(all[k] == rest[k - 1]);
            if k > 1 {
                assert(all[k - 1] == rest[k - 2]);
            }
        }
    }
}

/// Among words that lie one before another, a glyph that belongs to
/// word `k` belongs to no word listed before it, so it is moved by the
/// shift of word `k`; a glyph before the end of the last word, or after
/// the start of the first, is not moved.
proof fn lemma_lift_of_descending(words: Seq<Word>, len: int, k: int, i: int)
    requires
        words_descend(words, len),
        0 <= k < words.len(),
        words[k].end <= i <= words[k].start,
        k > 0 ==> i < words[k - 1].end,
    ensures
        lift_at(words, i) == words[k].shift,
    decreases k,
{
    if k > 0 {
        let rest = words.skip(1);
        assert(words[0].end >= words[k].start || k == 1) by {
            lemma_ends_descend(words, len, 0, k - 1);
        }
        lemma_ends_descend(words, len, 0, k - 1);
        assert(i < words[0].end);
        assert(words_descend(rest, len)) by {
            assert forall|n: int| 0 <= n < rest.len() implies (#[trigger] rest[n]).end
                < rest[n].start < len by {
                assert(rest[n] == words[n + 1]);
            }
            assert forall|n: int| 0 < n < rest.len() implies (#[trigger] rest[n]).start < rest[n
                - 1].end by {
                assert(rest[n] == words[n + 1]);
                assert(rest[n - 1] == words[n]);
            }
        }
        assert(rest[k - 1] == words[k]);
        if k > 1 {
            assert(rest[k - 2] == words[k - 1]);
        }
        lemma_lift_of_descending(rest, len, k - 1, i);
    }
}

/// Among words that lie one before another, a later word ends no later
/// than an earlier one.
proof fn lemma_ends_descend(words: Seq<Word>, len: int, a: int, b: int)
    requires
        words_descend(words, len),
        0 <= a <= b < words.len(),
    ensures
        words[b].end <= words[a].end,
    decreases b - a,
{
    if a < b {
        lemma_ends_descend(words, len, a, b - 1);
        assert(words[b].start < words[b - 1].end);
        assert(words[b].end < words[b].start);
    }
}

/// A glyph that belongs to no word is not moved.
proof fn lemma_no_lift_outside(words: Seq<Word>, i: int)
    requires
        forall|k: int|
            0 <= k < words.len() ==> i < (#[trigger] words[k]).end || i > words[k].start,
    ensures
        lift_at(words, i) == 0,
    decreases words.len(),
{
    if words.len() > 0 {
        assert(i < words[0].end || i > words[0].start);
        assert forall|k: int| 0 <= k < words.skip(1).len() implies i < (#[trigger] words.skip(
            1,
        )[k]).end || i > words.skip(1)[k].start by {
            assert(words.skip(1)[k] == words[k + 1]);
        }
        lemma_no_lift_outside(words.skip(1), i);
    }
}

/// Among words that lie one before another, a glyph between the start of
/// word `k` and the end of the word listed before it, or behind the start
/// of the first word, is not moved. Here `k` may be the number of words,
/// for the glyphs before the end of the last word.
proof fn lemma_no_lift_between(words: Seq<Word>, len: int, k: int, i: int)
    requires
        words_descend(words, len),
        0 <= k <= words.len(),
        k < words.len() ==> words[k].start < i,
        k > 0 ==> i < words[k - 1].end,
    ensures
        lift_at(words, i) == 0,
{
    assert forall|n: int| 0 <= n < words.len() implies i < (#[trigger] words[n]).end || i
        > words[n].start by {
        if n < k {
            lemma_ends_descend(words, len, n, k - 1);
        } else {
            lemma_starts_descend(words, len, k, n);
        }
    }
    lemma_no_lift_outside(words, i);
}

/// Among words that lie one before another, a later word starts no later
/// than an earlier one.
proof fn lemma_starts_descend(words: Seq<Word>, len: int, a: int, b: int)
    requires
        words_descend(words, len),
        0 <= a <= b < words.len(),
    ensures
        words[b].start <= words[a].start,
    decreases b - a,
{
    if a < b {
        lemma_starts_descend(words, len, a, b - 1);
        assert(words[b].start < words[b - 1].end);
        assert(words[b - 1].end < words[b - 1].start);
    }
}

/// The glyph at place `i` as the words leave it.
pub open spec fn lifted_glyph(buffer: Seq<GulzarGlyph>, words: Seq<Word>, i: int) -> GulzarGlyph {
    GulzarGlyph { y_offset: (buffer[i].y_offset + lift_at(words, i)) as i32, ..buffer[i] }
}

/// The place from which on the buffer is done with, once the first `k`
/// words have been dealt with.
pub open spec fn done_from(words: Seq<Word>, len: int, k: int) -> int {
    if k <= 0 {
        len
    } else {
        words[k - 1].end as int
    }
}

/// Tells whether every glyph can be moved up by what the words ask of
/// it, which `lift_words` needs.
pub fn lifts_all_fit(buffer: &Vec<GulzarGlyph>, words: &Vec<Word>) -> (ok: bool)
    requires
        words_descend(words@, buffer@.len() as int),
    ensures
        ok == lifts_fit(buffer@, words@),
{
    let ghost len = buffer@.len() as int;
    let mut k: usize = 0;
    while k < words.len()
        invariant
            len == buffer@.len(),
            words_descend(words@, len),
            k <= words@.len(),
            forall|i: int|
                done_from(words@, len, k as int) <= i < len ==> i32::MIN <= (
                #[trigger] buffer@[i]).y_offset + lift_at(words@, i) <= i32::MAX,
        decreases words@.len() - k,
    {
        let word = words[k];
        let ghost top = done_from(words@, len, k as int);
        proof {
            assert forall|i: int| word.start < i < top implies i32::MIN <= (
            #[trigger] buffer@[i]).y_offset + lift_at(words@, i) <= i32::MAX by {
                lemma_no_lift_between(words@, len, k as int, i);
            }
        }
        let mut ix: usize = word.start;
        loop
            invariant
                len == buffer@.len(),
                words_descend(words@, len),
                k < words@.len(),
                word == words@[k as int],
                word.end <= ix <= word.start,
                forall|i: int|
                    ix < i < len ==> i32::MIN <= (#[trigger] buffer@[i]).y_offset + lift_at(
                        words@,
                        i,
                    ) <= i32::MAX,
            ensures
                forall|i: int|
                    word.end <= i < len ==> i32::MIN <= (#[trigger] buffer@[i]).y_offset + lift_at(
                        words@,
                        i,
                    ) <= i32::MAX,
            decreases ix,
        {
            proof {
                if k > 0 {
                    assert(words@[k as int].start < words@[k - 1].end);
                }
                lemma_lift_of_descending(words@, len, k as int, ix as int);
            }
            let lifted: i64 = buffer[ix].y_offset as i64 + word.shift as i64;
            if lifted < i32::MIN as i64 || lifted > i32::MAX as i64 {
                return false;
            }
            if ix == word.end {
                break;
            }
            ix = ix - 1;
        }
        k = k + 1;
    }
    proof {
        assert forall|i: int| 0 <= i < len implies i32::MIN <= (#[trigger] buffer@[i]).y_offset
            + lift_at(words@, i) <= i32::MAX by {
            if i < done_from(words@, len, k as int) {
                lemma_no_lift_between(words@, len, k as int, i);
            }
        }
    }
    true
}

/// Moves every glyph up by what the words ask of it.
pub fn lift_words(buffer: &mut Vec<GulzarGlyph>, words: &Vec<Word>)
    requires
        words_descend(words@, old(buffer)@.len() as int),
        lifts_fit(old(buffer)@, words@),
    ensures
        final(buffer)@ == with_words_lifted(old(buffer)@, words@),
{
    let ghost len = buffer@.len() as int;
    let mut k: usize = 0;
    while k < words.len()
        invariant
            len == old(buffer)@.len(),
            buffer@.len() == len,
            words_descend(words@, len),
            lifts_fit(old(buffer)@, words@),
            k <= words@.len(),
            forall|i: int|
                done_from(words@, len, k as int) <= i < len ==> #[trigger] buffer@[i]
                    == lifted_glyph(old(buffer)@, words@, i),
            forall|i: int|
                0 <= i < done_from(words@, len, k as int) ==> #[trigger] buffer@[i] == old(
                    buffer,
                )@[i],
        decreases words@.len() - k,
    {
        let word = words[k];
        let ghost top = done_from(words@, len, k as int);
        proof {
            if k > 0 {
                assert(words@[k as int].start < words@[k - 1].end);
            }
            assert forall|i: int| word.start < i < top implies #[trigger] buffer@[i]
                == lifted_glyph(old(buffer)@, words@, i) by {
                lemma_no_lift_between(words@, len, k as int, i);
            }
        }
        let mut ix: usize = word.start;
        loop
            invariant_except_break
                forall|i: int|
                    ix < i < len ==> #[trigger] buffer@[i] == lifted_glyph(
                        old(buffer)@,
                        words@,
                        i,
                    ),
                forall|i: int| 0 <= i <= ix ==> #[trigger] buffer@[i] == old(buffer)@[i],
            invariant
                len == old(buffer)@.len(),
                buffer@.len() == len,
                words_descend(words@, len),
                lifts_fit(old(buffer)@, words@),
                k < words@.len(),
                word == words@[k as int],
                word.end <= ix <= word.start,
                k > 0 ==> word.start < words@[k - 1].end,
            ensures
                buffer@.len() == len,
                forall|i: int|
                    word.end <= i < len ==> #[trigger] buffer@[i] == lifted_glyph(
                        old(buffer)@,
                        words@,
                        i,
                    ),
                forall|i: int| 0 <= i < word.end ==> #[trigger] buffer@[i] == old(buffer)@[i],
            decreases ix,
        {
            proof {
                lemma_lift_of_descending(words@, len, k as int, ix as int);
                assert(i32::MIN <= old(buffer)@[ix as int].y_offset + lift_at(words@, ix as int)
                    <= i32::MAX);
            }
            buffer[ix].y_offset = buffer[ix].y_offset + word.shift;
            if ix == word.end {
                break;
            }
            ix = ix - 1;
        }
        k = k + 1;
    }
    proof {
        assert forall|i: int| 0 <= i < len implies buffer@[i] == with_words_lifted(
            old(buffer)@,
            words@,
        )[i] by {
            if i < done_from(words@, len, k as int) {
                lemma_no_lift_between(words@, len, k as int, i);
            }
        }
        assert(buffer@ =~= with_words_lifted(old(buffer)@, words@));
    }
}

/// Finds the words of the buffer and moves each up by half of how far
/// its first letter hangs below the baseline. Where the words cannot be
/// told apart, or a glyph cannot be moved as far as its word asks, the
/// buffer stays as it is and the answer is `false`.
pub fn lift_buffer_words(buffer: &mut Vec<GulzarGlyph>) -> (lifted: bool)
    ensures
        lifted == (words_of(old(buffer)@) matches Some(words) && lifts_fit(old(buffer)@, words)),
        lifted ==> final(buffer)@ == with_words_lifted(
            old(buffer)@,
            words_of(old(buffer)@)->Some_0,
        ),
        !lifted ==> final(buffer)@ == old(buffer)@,
{
    let len = buffer.len();
    match find_words(buffer) {
        None => false,
        Some(words) => {
            proof {
                assert(buffer@.len() == len);
                if buffer@.len() > 0 {
                    lemma_words_descend(buffer@, buffer@.len() - 1);
                }
            }
            if !lifts_all_fit(buffer, &words) {
                return false;
            }
            lift_words(buffer, &words);
            true
        },
    }
}

} // verus!
