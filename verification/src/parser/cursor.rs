//! A cursor over a token sequence, with one token of lookahead.
use vstd::prelude::*;
use crate::parser::lexer::{tokens_view, Token, TokenView};

verus! {

/// A place in a token sequence. It moves forward only, one token at a time.
#[derive(Debug)]
pub struct TokenCursor<'a> {
    tokens: &'a Vec<Token>,
    position: usize,
}

impl<'a> TokenCursor<'a> {
    /// The tokens that the cursor runs over.
    pub closed spec fn tokens(&self) -> Seq<TokenView> {
        tokens_view(self.tokens@)
    }

    /// The number of tokens that were consumed; never more than there are.
    pub closed spec fn position(&self) -> int {
        if self.position <= self.tokens@.len() {
            self.position as int
        } else {
            self.tokens@.len() as int
        }
    }

    /// No token is left.
    pub open spec fn exhausted(&self) -> bool {
        self.position() >= self.tokens().len()
    }

    /// The token that comes next, if one is left.
    pub open spec fn next(&self) -> Option<TokenView> {
        if self.exhausted() {
            None
        } else {
            Some(self.tokens()[self.position()])
        }
    }

    /// The consumed tokens are never more than there are.
    pub proof fn lemma_position_bounds(&self)
        ensures
            0 <= self.position() <= self.tokens().len() <= usize::MAX,
    {
        vstd::std_specs::vec::axiom_spec_len(self.tokens);
    }

    /// A cursor before the first of `tokens`.
    pub fn new(tokens: &'a Vec<Token>) -> (r: Self)
        ensures
            r.tokens() == tokens_view(tokens@),
            r.position() == 0,
    {
        TokenCursor { tokens, position: 0 }
    }

    /// Whether no token is left.
    pub fn is_exhausted(&self) -> (r: bool)
        ensures
            r == self.exhausted(),
    {
        self.position >= self.tokens.len()
    }

    /// The next token, which stays unconsumed; `None` where no token is left.
    pub fn peek(&self) -> (r: Option<&'a Token>)
        ensures
            match r {
                Some(t) => self.next() == Some(t@),
                None => self.next() is None,
            },
    {
        if self.position < self.tokens.len() {
            Some(&self.tokens[self.position])
        } else {
            None
        }
    }

    /// Consumes the next token and hands it out; `None`, and no move, where
    /// no token is left.
    pub fn advance(&mut self) -> (r: Option<&'a Token>)
        ensures
            final(self).tokens() == old(self).tokens(),
            match r {
                Some(t) => old(self).next() == Some(t@) && final(self).position() == old(
                    self,
                ).position() + 1,
                None => old(self).next() is None && final(self).position() == old(
                    self,
                ).position(),
            },
    {
        if self.position < self.tokens.len() {
            let t = &self.tokens[self.position];
            self.position += 1;
            Some(t)
        } else {
            None
        }
    }
}

} // verus!
