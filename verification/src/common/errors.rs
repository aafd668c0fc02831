//! The errors of the front end. They form a hierarchy: an error of the
//! character stream becomes a lexer error, a lexer error becomes a parser
//! error, and each can be tagged with the offset at which it arose.
use vstd::prelude::*;
use vstd::std_specs::convert::FromSpecImpl;

use crate::parsing::token::TokenKind;

verus! {

/// An error that knows where in the source text it arose.
pub trait ErrorWithContext {
    /// The offset, in characters, at which the error arose.
    spec fn offset(&self) -> usize;

    fn get_offset(&self) -> (offset: usize)
        ensures
            offset == self.offset(),
    ;
}

/// An error that can say what went wrong.
pub trait ErrorWithReason {
    /// The message for this error, where it has one.
    spec fn reason(&self) -> Option<Seq<char>>;

    fn get_reason(&self) -> (reason: Option<String>)
        ensures
            crate::common::text::text_of(reason) == self.reason(),
    ;
}

/// An error together with the offset at which it arose.
#[derive(Debug)]
pub struct ErrWithCtx<E: ErrorWithReason>(pub E, pub usize);

impl<E: ErrorWithReason + View> View for ErrWithCtx<E> {
    type V = (E::V, usize);

    open spec fn view(&self) -> (E::V, usize) {
        (self.0@, self.1)
    }
}

impl<E: ErrorWithReason> ErrorWithContext for ErrWithCtx<E> {
    open spec fn offset(&self) -> usize {
        self.1
    }

    fn get_offset(&self) -> (offset: usize) {
        self.1
    }
}

impl<E: ErrorWithReason> ErrorWithReason for ErrWithCtx<E> {
    open spec fn reason(&self) -> Option<Seq<char>> {
        self.0.reason()
    }

    fn get_reason(&self) -> (reason: Option<String>) {
        self.0.get_reason()
    }
}

/// Something that can try to get past an error and go on.
pub trait TryRecover {
    /// What must hold of a value before it tries to recover, and holds of
    /// it afterwards.
    spec fn recoverable(&self) -> bool;

    /// Tries to get past an error; true where it did.
    fn try_recover(&mut self) -> (recovered: bool)
        requires
            old(self).recoverable(),
        ensures
            final(self).recoverable(),
    ;
}

#[derive(Debug, Clone, Copy, PartialEq, Eq, Structural)]
pub enum CharStreamError {
    EndOfFile,
}

impl ErrorWithReason for CharStreamError {
    open spec fn reason(&self) -> Option<Seq<char>> {
        Some("Unexpected end of file."@)
    }

    fn get_reason(&self) -> (reason: Option<String>) {
        Some(String::from_str("Unexpected end of file."))
    }
}

#[derive(Debug, PartialEq)]
pub enum LexerError {
    OutOfTokens,
    UnknownToken(String),
    UnknownEscapeCode(String),
    UnterminatedStringLiteral,
    InvalidNumberLiteral,
    UnterminatedComment,
    CharStreamError(CharStreamError),
    IOError(String),
}

/// The mathematical content of a [`LexerError`].
pub enum SpecLexerError {
    OutOfTokens,
    UnknownToken(Seq<char>),
    UnknownEscapeCode(Seq<char>),
    UnterminatedStringLiteral,
    InvalidNumberLiteral,
    UnterminatedComment,
    CharStreamError(CharStreamError),
    IOError(Seq<char>),
}

impl View for LexerError {
    type V = SpecLexerError;

    open spec fn view(&self) -> SpecLexerError {
        match self {
            LexerError::OutOfTokens => SpecLexerError::OutOfTokens,
            LexerError::UnknownToken(s) => SpecLexerError::UnknownToken(s@),
            LexerError::UnknownEscapeCode(s) => SpecLexerError::UnknownEscapeCode(s@),
            LexerError::UnterminatedStringLiteral => SpecLexerError::UnterminatedStringLiteral,
            LexerError::InvalidNumberLiteral => SpecLexerError::InvalidNumberLiteral,
            LexerError::UnterminatedComment => SpecLexerError::UnterminatedComment,
            LexerError::CharStreamError(e) => SpecLexerError::CharStreamError(*e),
            LexerError::IOError(s) => SpecLexerError::IOError(s@),
        }
    }
}

impl Clone for LexerError {
    fn clone(&self) -> (copy: Self)
        ensures
            copy == *self,
    {
        match self {
            LexerError::OutOfTokens => LexerError::OutOfTokens,
            LexerError::UnknownToken(s) => LexerError::UnknownToken(s.clone()),
            LexerError::UnknownEscapeCode(s) => LexerError::UnknownEscapeCode(s.clone()),
            LexerError::UnterminatedStringLiteral => LexerError::UnterminatedStringLiteral,
            LexerError::InvalidNumberLiteral => LexerError::InvalidNumberLiteral,
            LexerError::UnterminatedComment => LexerError::UnterminatedComment,
            LexerError::CharStreamError(e) => LexerError::CharStreamError(*e),
            LexerError::IOError(s) => LexerError::IOError(s.clone()),
        }
    }
}

pub type LexerErrorWithCtx = ErrWithCtx<LexerError>;

impl SpecLexerError {
    /// The message for a lexer error.
    pub open spec fn reason(self) -> Seq<char> {
        match self {
            SpecLexerError::OutOfTokens => "Out of input."@,
            SpecLexerError::UnknownToken(starting_with) => {
                "Encountered an unknown token (starting with "@ + starting_with + ")."@
            },
            SpecLexerError::UnknownEscapeCode(escape_code) => {
                "Unknown escape character in string literal: "@ + escape_code
            },
            SpecLexerError::UnterminatedStringLiteral => "Unterminated string literal."@,
            SpecLexerError::InvalidNumberLiteral => "Invalid number literal."@,
            SpecLexerError::UnterminatedComment => "Unterminated comment literal."@,
            SpecLexerError::CharStreamError(_) => {
                "Character stream error: "@ + "Unexpected end of file."@
            },
            SpecLexerError::IOError(message) => "IO error: "@ + message,
        }
    }
}

impl ErrorWithReason for LexerError {
    open spec fn reason(&self) -> Option<Seq<char>> {
        Some(self@.reason())
    }

    fn get_reason(&self) -> (reason: Option<String>) {
        let text = match self {
            LexerError::OutOfTokens => String::from_str("Out of input."),
            LexerError::UnknownToken(starting_with) => String::from_str(
                "Encountered an unknown token (starting with ",
            ).concat(starting_with.as_str()).concat(")."),
            LexerError::UnknownEscapeCode(escape_code) => String::from_str(
                "Unknown escape character in string literal: ",
            ).concat(escape_code.as_str()),
            LexerError::UnterminatedStringLiteral => String::from_str(
                "Unterminated string literal.",
            ),
            LexerError::InvalidNumberLiteral => String::from_str("Invalid number literal."),
            LexerError::UnterminatedComment => String::from_str("Unterminated comment literal."),
            LexerError::CharStreamError(_) => String::from_str("Character stream error: ").concat(
                "Unexpected end of file.",
            ),
            LexerError::IOError(message) => String::from_str("IO error: ").concat(
                message.as_str(),
            ),
        };
        Some(text)
    }
}

#[derive(Debug, PartialEq)]
pub enum ParserError {
    InvalidBinaryExpression,
    UnknownStatement { first: TokenKind },
    UnexpectedToken { expected: TokenKind, was: TokenKind },
    LexerError(LexerError),
    MissingRParen,
    IncompleteExpression,
}

/// The mathematical content of a [`ParserError`].
pub enum SpecParserError {
    InvalidBinaryExpression,
    UnknownStatement { first: TokenKind },
    UnexpectedToken { expected: TokenKind, was: TokenKind },
    LexerError(SpecLexerError),
    MissingRParen,
    IncompleteExpression,
}

impl View for ParserError {
    type V = SpecParserError;

    open spec fn view(&self) -> SpecParserError {
        match self {
            ParserError::InvalidBinaryExpression => SpecParserError::InvalidBinaryExpression,
            ParserError::UnknownStatement { first } => SpecParserError::UnknownStatement {
                first: *first,
            },
            ParserError::UnexpectedToken { expected, was } => SpecParserError::UnexpectedToken {
                expected: *expected,
                was: *was,
            },
            ParserError::LexerError(e) => SpecParserError::LexerError(e@),
            ParserError::MissingRParen => SpecParserError::MissingRParen,
            ParserError::IncompleteExpression => SpecParserError::IncompleteExpression,
        }
    }
}

impl Clone for ParserError {
    fn clone(&self) -> (copy: Self)
        ensures
            copy == *self,
    {
        match self {
            ParserError::InvalidBinaryExpression => ParserError::InvalidBinaryExpression,
            ParserError::UnknownStatement { first } => ParserError::UnknownStatement {
                first: *first,
            },
            ParserError::UnexpectedToken { expected, was } => ParserError::UnexpectedToken {
                expected: *expected,
                was: *was,
            },
            ParserError::LexerError(e) => ParserError::LexerError(e.clone()),
            ParserError::MissingRParen => ParserError::MissingRParen,
            ParserError::IncompleteExpression => ParserError::IncompleteExpression,
        }
    }
}

pub type ParserErrorWithCtx = ErrWithCtx<ParserError>;

pub type ParserErrors = Vec<ParserErrorWithCtx>;

impl SpecParserError {
    /// The message for a parser error.
    pub open spec fn reason(self) -> Seq<char> {
        match self {
            SpecParserError::InvalidBinaryExpression => "Invalid expression."@,
            SpecParserError::UnknownStatement { first } => {
                "Unknown starting token: "@ + first.name()
            },
            SpecParserError::MissingRParen => {
                "Unbalanced parenthesis in expression (probably missing right parenthesis?)"@
            },
            SpecParserError::IncompleteExpression => "Incomplete expression."@,
            SpecParserError::UnexpectedToken { expected, was } => {
                "Unexpected token. Expected "@ + expected.name() + ", was "@ + was.name()
            },
            SpecParserError::LexerError(lexer_error) => "Lexer error: "@ + lexer_error.reason(),
        }
    }
}

impl ErrorWithReason for ParserError {
    open spec fn reason(&self) -> Option<Seq<char>> {
        Some(self@.reason())
    }

    fn get_reason(&self) -> (reason: Option<String>) {
        let text = match self {
            ParserError::InvalidBinaryExpression => String::from_str("Invalid expression."),
            ParserError::UnknownStatement { first } => String::from_str(
                "Unknown starting token: ",
            ).concat(first.get_name()),
            ParserError::MissingRParen => String::from_str(
                "Unbalanced parenthesis in expression (probably missing right parenthesis?)",
            ),
            ParserError::IncompleteExpression => String::from_str("Incomplete expression."),
            ParserError::UnexpectedToken { expected, was } => String::from_str(
                "Unexpected token. Expected ",
            ).concat(expected.get_name()).concat(", was ").concat(was.get_name()),
            ParserError::LexerError(lexer_error) => {
                match lexer_error.get_reason() {
                    Some(inner) => String::from_str("Lexer error: ").concat(inner.as_str()),
                    None => String::from_str("Lexer error: "),
                }
            },
        };
        Some(text)
    }
}

/// Tags an error with the offset at which it arose.
pub trait AddCtxToError: ErrorWithReason + Sized {
    fn with_ctx(self, ctx: usize) -> (tagged: ErrWithCtx<Self>)
        ensures
            tagged.0 == self,
            tagged.1 == ctx,
    {
        ErrWithCtx(self, ctx)
    }
}

impl<T: ErrorWithReason + Sized> AddCtxToError for T {

}

/// Tags the error of a result, if it is one, with an offset.
pub trait AddCtxToResult<T, E> where E: ErrorWithReason + Sized {
    fn with_ctx(self, ctx: usize) -> Result<T, ErrWithCtx<E>>;
}

impl<T, E> AddCtxToResult<T, E> for Result<T, E> where E: ErrorWithReason + Sized {
    fn with_ctx(self, ctx: usize) -> (tagged: Result<T, ErrWithCtx<E>>)
        ensures
            match self {
                Ok(value) => tagged == Ok::<T, ErrWithCtx<E>>(value),
                Err(error) => tagged == Err::<T, ErrWithCtx<E>>(ErrWithCtx(error, ctx)),
            },
    {
        match self {
            Ok(value) => Ok(value),
            Err(error) => Err(ErrWithCtx(error, ctx)),
        }
    }
}

impl From<CharStreamError> for LexerError {
    fn from(err: CharStreamError) -> (lexer_error: LexerError) {
        LexerError::CharStreamError(err)
    }
}

impl FromSpecImpl<CharStreamError> for LexerError {
    open spec fn obeys_from_spec() -> bool {
        true
    }

    open spec fn from_spec(err: CharStreamError) -> LexerError {
        LexerError::CharStreamError(err)
    }
}

impl From<LexerError> for ParserError {
    fn from(err: LexerError) -> (parser_error: ParserError) {
        ParserError::LexerError(err)
    }
}

impl FromSpecImpl<LexerError> for ParserError {
    open spec fn obeys_from_spec() -> bool {
        true
    }

    open spec fn from_spec(err: LexerError) -> ParserError {
        ParserError::LexerError(err)
    }
}

impl From<ErrWithCtx<LexerError>> for ErrWithCtx<ParserError> {
    fn from(err: ErrWithCtx<LexerError>) -> (parser_error: ErrWithCtx<ParserError>) {
        ErrWithCtx(ParserError::LexerError(err.0), err.1)
    }
}

impl FromSpecImpl<ErrWithCtx<LexerError>> for ErrWithCtx<ParserError> {
    open spec fn obeys_from_spec() -> bool {
        true
    }

    open spec fn from_spec(err: ErrWithCtx<LexerError>) -> ErrWithCtx<ParserError> {
        ErrWithCtx(ParserError::LexerError(err.0), err.1)
    }
}

} // verus!
