//! The interface between a lexer and the parser.
use vstd::prelude::*;

use crate::common::errors::{ErrWithCtx, LexerError};
use crate::parsing::lexer;
use crate::parsing::token::TokenWithCtx;

verus! {

/// A source of tokens with one token of lookahead.
///
/// The model of a stream is the text it reads, the position from which the
/// next token is read, and whether that token has been read ahead already.
pub trait TokenStream {
    /// The text that the tokens come from.
    spec fn source(&self) -> Seq<char>;

    /// Where in the text the next token is read from.
    spec fn position(&self) -> int;

    /// Whether the next token has been read ahead and is held back.
    spec fn buffered(&self) -> bool;

    /// What every stream keeps true of itself.
    spec fn well_formed(&self) -> bool;

    /// A stream stands inside its text, whose length fits the machine.
    proof fn lemma_position_in_source(&self)
        requires
            self.well_formed(),
        ensures
            0 <= self.position() <= self.source().len() <= usize::MAX,
    ;

    /// Drops the token that was read ahead; without one, steps over one
    /// character of the text.
    fn advance(&mut self)
        requires
            old(self).well_formed(),
        ensures
            final(self).well_formed(),
            final(self).source() == old(self).source(),
            !final(self).buffered(),
            final(self).position() == (if old(self).buffered() {
                lexer::lex_token(old(self).source(), old(self).position()).end
            } else if old(self).position() < old(self).source().len() {
                old(self).position() + 1
            } else {
                old(self).position()
            }),
    ;

    /// True when no token is held back and the text is used up.
    fn reached_end(&self) -> (at_end: bool)
        requires
            self.well_formed(),
        ensures
            at_end == (!self.buffered() && self.position() >= self.source().len()),
    ;

    /// The offset of the token that is held back, or else of the position.
    fn offset(&self) -> (offset: usize)
        requires
            self.well_formed(),
        ensures
            offset <= self.source().len(),
            offset == (if self.buffered() {
                lexer::lex_token(self.source(), self.position()).result->Ok_0.offset as int
            } else {
                self.position()
            }),
    ;

    /// Reads the next token without passing it. After an error the stream
    /// stands where the lexer stopped, and the error carries that offset.
    fn peek(&mut self) -> (next: Result<TokenWithCtx, ErrWithCtx<LexerError>>)
        requires
            old(self).well_formed(),
        ensures
            final(self).well_formed(),
            final(self).source() == old(self).source(),
            lexer::peeked(old(self).source(), old(self).position(), next),
            final(self).buffered() == next is Ok,
            final(self).position() == (if next is Ok {
                old(self).position()
            } else {
                lexer::lex_token(old(self).source(), old(self).position()).end
            }),
    ;

    /// Reads the next token and passes it.
    fn next(&mut self) -> (next: Result<TokenWithCtx, ErrWithCtx<LexerError>>)
        requires
            old(self).well_formed(),
        ensures
            final(self).well_formed(),
            final(self).source() == old(self).source(),
            lexer::peeked(old(self).source(), old(self).position(), next),
            !final(self).buffered(),
            final(self).position() == lexer::lex_token(
                old(self).source(),
                old(self).position(),
            ).end,
    ;
}

} // verus!
