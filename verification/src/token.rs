//! Position-tagged characters as handed over by the tokenizer, and a
//! cursor over a buffer of them with single-token lookahead.

use vstd::prelude::*;
use crate::span::Span;

verus! {

/// One source character together with the span it occupies.
#[derive(Clone, Copy, PartialEq, Eq, Structural, Debug)]
pub struct Token {
    pub kind: char,
    pub pos: Span,
}

impl Token {
    pub fn new(pos: Span, kind: char) -> (r: Token)
        ensures
            r == (Token { kind, pos }),
    {
        Token { kind, pos }
    }

    pub fn pos(&self) -> (r: Span)
        ensures
            r == self.pos,
    {
        self.pos
    }
}

/// A cursor over a token buffer: the binder's peekable input stream.
pub struct Toks {
    buf: Vec<Token>,
    at: usize,
}

impl Toks {
    /// The tokens not yet consumed.
    pub closed spec fn rem(self) -> Seq<Token> {
        self.buf@.skip(self.at as int)
    }

    pub closed spec fn wf(self) -> bool {
        self.at <= self.buf@.len()
    }

    pub fn new(buf: Vec<Token>) -> (r: Toks)
        ensures
            r.wf(),
            r.rem() == buf@,
    {
        let r = Toks { buf, at: 0 };
        proof {
            assert(r.rem() =~= r.buf@);
        }
        r
    }

    /// Look at the next token without consuming it.
    pub fn peek(&self) -> (r: Option<Token>)
        requires
            self.wf(),
        ensures
            r == if self.rem().len() > 0 {
                Some(self.rem()[0])
            } else {
                Option::<Token>::None
            },
    {
        if self.at < self.buf.len() {
            Some(self.buf[self.at])
        } else {
            None
        }
    }

    /// Consume and return the next token.
    pub fn next_tok(&mut self) -> (r: Option<Token>)
        requires
            old(self).wf(),
        ensures
            final(self).wf(),
            old(self).rem().len() > 0 ==> {
                &&& r == Some(old(self).rem()[0])
                &&& final(self).rem() == old(self).rem().skip(1)
            },
            old(self).rem().len() == 0 ==> {
                &&& r is None
                &&& *final(self) == *old(self)
            },
    {
        if self.at < self.buf.len() {
            let t = self.buf[self.at];
            self.at = self.at + 1;
            proof {
                assert(self.rem() =~= old(self).rem().skip(1));
            }
            Some(t)
        } else {
            None
        }
    }

    /// True when every token has been consumed.
    pub fn is_done(&self) -> (r: bool)
        requires
            self.wf(),
        ensures
            r == (self.rem().len() == 0),
    {
        self.at >= self.buf.len()
    }
}

} // verus!
