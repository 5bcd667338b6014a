//! Tokens of a hieroglyphic cluster description.

use vstd::prelude::*;

verus! {

/// One token of the input: a sign, one of the nine format controls, or
/// any other codepoint.
#[derive(Debug, Clone, Copy, PartialEq, Eq, Structural)]
pub enum Tok {
    Sign(u32),
    Vert,
    Hor,
    St,
    Sb,
    Et,
    Eb,
    Overlay,
    Begin,
    End,
    Other(u32),
}

/// The error type of the lexer. Every codepoint is some token, so the
/// lexer never hands one out; the single variant only gives the type a
/// value.
#[derive(Debug, Clone, Copy, PartialEq, Eq, Structural)]
pub enum LexicalError {
    Unlexable,
}

/// A token between the position where it starts and the position just
/// after it.
pub type Spanned<Token, Loc, Error> = Result<(Loc, Token, Loc), Error>;

/// First codepoint of the block of signs.
pub const FIRST_SIGN: u32 = 0x13000;

/// Last codepoint of the block of signs.
pub const LAST_SIGN: u32 = 0x1342F;

/// The token that a codepoint stands for.
pub open spec fn token_of(cp: u32) -> Tok {
    if cp == 0x13430 {
        Tok::Vert
    } else if cp == 0x13431 {
        Tok::Hor
    } else if cp == 0x13432 {
        Tok::St
    } else if cp == 0x13433 {
        Tok::Sb
    } else if cp == 0x13434 {
        Tok::Et
    } else if cp == 0x13435 {
        Tok::Eb
    } else if cp == 0x13436 {
        Tok::Overlay
    } else if cp == 0x13437 {
        Tok::Begin
    } else if cp == 0x13438 {
        Tok::End
    } else if FIRST_SIGN <= cp <= LAST_SIGN {
        Tok::Sign(cp)
    } else {
        Tok::Other(cp)
    }
}

/// Classifies one codepoint.
pub fn classify(cp: u32) -> (tok: Tok)
    ensures
        tok == token_of(cp),
{
    if cp == 0x13430 {
        Tok::Vert
    } else if cp == 0x13431 {
        Tok::Hor
    } else if cp == 0x13432 {
        Tok::St
    } else if cp == 0x13433 {
        Tok::Sb
    } else if cp == 0x13434 {
        Tok::Et
    } else if cp == 0x13435 {
        Tok::Eb
    } else if cp == 0x13436 {
        Tok::Overlay
    } else if cp == 0x13437 {
        Tok::Begin
    } else if cp == 0x13438 {
        Tok::End
    } else if FIRST_SIGN <= cp && cp <= LAST_SIGN {
        Tok::Sign(cp)
    } else {
        Tok::Other(cp)
    }
}

/// Walks a run of codepoints and hands out one token per codepoint.
pub struct Lexer<'input> {
    input: &'input [u32],
    pos: usize,
}

impl<'input> Lexer<'input> {
    /// The codepoints that the lexer walks.
    pub closed spec fn source(&self) -> Seq<u32> {
        self.input@
    }

    /// How many codepoints have been handed out.
    pub closed spec fn position(&self) -> nat {
        self.pos as nat
    }

    /// The position never passes the end of the input.
    pub closed spec fn wf(&self) -> bool {
        self.pos <= self.input@.len()
    }

    /// A lexer at the start of `input`.
    pub fn new(input: &'input [u32]) -> (lexer: Self)
        ensures
            lexer.wf(),
            lexer.source() == input@,
            lexer.position() == 0,
    {
        Lexer { input, pos: 0 }
    }

    /// The next token with its span, or `None` at the end of the input.
    /// A token always spans exactly one codepoint.
    pub fn next(&mut self) -> (item: Option<Spanned<Tok, usize, LexicalError>>)
        requires
            old(self).wf(),
        ensures
            final(self).wf(),
            final(self).source() == old(self).source(),
            old(self).position() >= old(self).source().len() ==> {
                &&& item is None
                &&& final(self).position() == old(self).position()
            },
            old(self).position() < old(self).source().len() ==> {
                &&& final(self).position() == old(self).position() + 1
                &&& item == Some(
                    Spanned::<Tok, usize, LexicalError>::Ok(
                        (
                            old(self).position() as usize,
                            token_of(old(self).source()[old(self).position() as int]),
                            (old(self).position() + 1) as usize,
                        ),
                    ),
                )
            },
    {
        if self.pos < self.input.len() {
            let i = self.pos;
            let tok = classify(self.input[i]);
            self.pos = i + 1;
            Some(Ok((i, tok, i + 1)))
        } else {
            None
        }
    }

    /// All remaining tokens, in order.
    pub fn tokens(&mut self) -> (toks: Vec<Tok>)
        requires
            old(self).wf(),
        ensures
            final(self).wf(),
            final(self).source() == old(self).source(),
            final(self).position() == old(self).source().len(),
            toks@.len() == old(self).source().len() - old(self).position(),
            forall|k: int|
                0 <= k < toks@.len() ==> #[trigger] toks@[k] == token_of(
                    old(self).source()[old(self).position() + k],
                ),
    {
        let mut toks: Vec<Tok> = Vec::new();
        let ghost start = self.pos;
        while self.pos < self.input.len()
            invariant
                self.wf(),
                self.input@ == old(self).input@,
                start == old(self).pos,
                start <= self.pos,
                toks@.len() == self.pos - start,
                forall|k: int|
                    0 <= k < toks@.len() ==> #[trigger] toks@[k] == token_of(
                        self.input@[start + k],
                    ),
            decreases self.input@.len() - self.pos,
        {
            let tok = classify(self.input[self.pos]);
            toks.push(tok);
            self.pos = self.pos + 1;
        }
        toks
    }
}

} // verus!
