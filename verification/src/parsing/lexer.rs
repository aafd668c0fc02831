//! The lexer: from characters to tokens.
use vstd::prelude::*;

use crate::common::errors::{ErrWithCtx, LexerError, SpecLexerError};
use crate::common::text;
use crate::common::types::{
    BinaryOperator,
    LiteralValue,
    Operator,
    SpecLiteral,
    TypeName,
    UnaryOperator,
};
use crate::parsing::char_stream::CharStream;
use crate::parsing::token::{SpecToken, SpecTokenWithCtx, Token, TokenWithCtx};
use crate::parsing::token_stream::TokenStream;
use crate::parsing::util;

verus! {

/// What reading one token gives: the token with its offset, or an error, and
/// the position at which the lexer then stands.
pub struct Lexed {
    pub result: Result<SpecTokenWithCtx, SpecLexerError>,
    pub end: int,
}

/// The first position at or after `pos` whose character satisfies `stop`, or
/// the length of `s` where no character does.
pub open spec fn scan_until(s: Seq<char>, pos: int, stop: spec_fn(char) -> bool) -> int
    decreases s.len() - pos,
{
    if pos < s.len() && !stop(s[pos]) {
        scan_until(s, pos + 1, stop)
    } else {
        pos
    }
}

/// The position after the first `*/` that starts at or after `pos`, if
/// there is one.
pub open spec fn comment_end(s: Seq<char>, pos: int) -> Option<int>
    decreases s.len() - pos,
{
    if pos + 1 >= s.len() {
        None
    } else if s[pos] == '*' && s[pos + 1] == '/' {
        Some(pos + 2)
    } else {
        comment_end(s, pos + 1)
    }
}

/// The characters that are a token by themselves.
pub open spec fn single_char(c: char) -> bool {
    c == ';' || c == '(' || c == ')' || c == '+' || c == '-' || c == '*' || c == '<' || c == '='
        || c == '&' || c == '!'
}

/// The token that `c` is, for a character that is a token by itself and
/// for `/`.
pub open spec fn single_char_token(c: char) -> SpecToken {
    if c == ';' {
        SpecToken::Semicolon
    } else if c == '(' {
        SpecToken::LParen
    } else if c == ')' {
        SpecToken::RParen
    } else if c == '+' {
        SpecToken::Operator(Operator::BinaryOperator(BinaryOperator::Add))
    } else if c == '-' {
        SpecToken::Operator(Operator::BinaryOperator(BinaryOperator::Sub))
    } else if c == '*' {
        SpecToken::Operator(Operator::BinaryOperator(BinaryOperator::Mul))
    } else if c == '/' {
        SpecToken::Operator(Operator::BinaryOperator(BinaryOperator::Div))
    } else if c == '<' {
        SpecToken::Operator(Operator::BinaryOperator(BinaryOperator::LessThan))
    } else if c == '=' {
        SpecToken::Operator(Operator::BinaryOperator(BinaryOperator::Equal))
    } else if c == '&' {
        SpecToken::Operator(Operator::BinaryOperator(BinaryOperator::And))
    } else {
        SpecToken::Operator(Operator::UnaryOperator(UnaryOperator::Not))
    }
}

/// The character that a backslash followed by `c` stands for.
pub open spec fn escape(c: char) -> Option<char> {
    if c == '\\' {
        Some('\\')
    } else if c == '"' {
        Some('"')
    } else if c == 'r' {
        Some('\r')
    } else if c == 'n' {
        Some('\n')
    } else if c == 't' {
        Some('\t')
    } else {
        None
    }
}

/// Reads the rest of a string literal from `pos`, which lies after the
/// opening quote; `content` holds the characters read so far.
pub open spec fn lex_string_body(s: Seq<char>, pos: int, content: Seq<char>) -> (Result<
    Seq<char>,
    SpecLexerError,
>, int)
    decreases s.len() - pos,
{
    if pos >= s.len() {
        (Err(SpecLexerError::UnterminatedStringLiteral), s.len() as int)
    } else if s[pos] == '"' {
        (Ok(content), pos + 1)
    } else if s[pos] == '\\' {
        if pos + 1 >= s.len() {
            (Err(SpecLexerError::UnterminatedStringLiteral), s.len() as int)
        } else {
            match escape(s[pos + 1]) {
                Some(c) => lex_string_body(s, pos + 2, content.push(c)),
                None => (Err(SpecLexerError::UnknownEscapeCode(seq![s[pos + 1]])), pos + 2),
            }
        }
    } else {
        lex_string_body(s, pos + 1, content.push(s[pos]))
    }
}

/// The reserved word that `word` is, if it is one.
pub open spec fn keyword(word: Seq<char>) -> Option<SpecToken> {
    if word == "print"@ {
        Some(SpecToken::Print)
    } else if word == "read"@ {
        Some(SpecToken::Read)
    } else if word == "int"@ {
        Some(SpecToken::Type(TypeName::IntType))
    } else if word == "bool"@ {
        Some(SpecToken::Type(TypeName::BoolType))
    } else if word == "string"@ {
        Some(SpecToken::Type(TypeName::StringType))
    } else if word == "var"@ {
        Some(SpecToken::Var)
    } else if word == "assert"@ {
        Some(SpecToken::Assert)
    } else if word == "for"@ {
        Some(SpecToken::For)
    } else if word == "in"@ {
        Some(SpecToken::In)
    } else if word == "do"@ {
        Some(SpecToken::Do)
    } else if word == "end"@ {
        Some(SpecToken::End)
    } else {
        None
    }
}

/// Reads a string literal whose opening quote is at `start`.
pub open spec fn lex_string(s: Seq<char>, start: int) -> (Result<SpecToken, SpecLexerError>, int) {
    let (content, end) = lex_string_body(s, start + 1, Seq::empty());
    match content {
        Ok(content) => (Ok(SpecToken::Literal(SpecLiteral::StringLiteral(content))), end),
        Err(error) => (Err(error), end),
    }
}

/// Reads the longest run of digits from `start`: an integer literal, or an
/// error where the number does not fit in 32 bits.
pub open spec fn lex_number(s: Seq<char>, start: int) -> (Result<SpecToken, SpecLexerError>, int) {
    let end = scan_until(s, start, |c: char| !util::number(c));
    let value = text::digits_value(s.subrange(start, end));
    if value <= i32::MAX {
        (Ok(SpecToken::Literal(SpecLiteral::IntLiteral(value as i32))), end)
    } else {
        (Err(SpecLexerError::InvalidNumberLiteral), end)
    }
}

/// Reads the longest run of letters, digits and underscores from `start`: a
/// reserved word, an identifier, or an error naming the character at
/// `start` where the run is neither.
pub open spec fn lex_word(s: Seq<char>, start: int) -> (Result<SpecToken, SpecLexerError>, int)
    recommends
        start < s.len(),
{
    let end = scan_until(s, start, |c: char| !util::valid_in_identifier(c));
    let word = s.subrange(start, end);
    match keyword(word) {
        Some(token) => (Ok(token), end),
        None => if util::valid_identifier(word) {
            (Ok(SpecToken::Identifier(word)), end)
        } else {
            (Err(SpecLexerError::UnknownToken(seq![s[start]])), end)
        },
    }
}

/// Tags a token read from `start` with that offset.
pub open spec fn lexed_at(start: int, read: (Result<SpecToken, SpecLexerError>, int)) -> Lexed {
    match read.0 {
        Ok(token) => Lexed {
            result: Ok(SpecTokenWithCtx { offset: start as usize, token }),
            end: read.1,
        },
        Err(error) => Lexed { result: Err(error), end: read.1 },
    }
}

/// The next token of `s` from `pos` on.
///
/// White space is passed over. `//` starts a comment that runs to the end
/// of the line and `/*` one that runs to the next `*/`; after a comment the
/// lexer goes on. At the end of the text the token is `EndOfFile`.
pub open spec fn lex_token(s: Seq<char>, pos: int) -> Lexed
    recommends
        0 <= pos <= s.len(),
    decreases s.len() - pos,
{
    let start = scan_until(s, pos, |c: char| !util::whitespace(c));
    if start >= s.len() {
        Lexed {
            result: Ok(SpecTokenWithCtx { offset: start as usize, token: SpecToken::EndOfFile }),
            end: start,
        }
    } else {
        let first = s[start];
        let second_is = |c: char| start + 1 < s.len() && s[start + 1] == c;
        if single_char(first) {
            lexed_at(start, (Ok(single_char_token(first)), start + 1))
        } else if first == ':' {
            if second_is('=') {
                lexed_at(start, (Ok(SpecToken::Assign), start + 2))
            } else {
                lexed_at(start, (Ok(SpecToken::Colon), start + 1))
            }
        } else if first == '.' {
            if second_is('.') {
                lexed_at(start, (Ok(SpecToken::Range), start + 2))
            } else {
                lexed_at(start, (Err(SpecLexerError::UnknownToken(seq!['.'])), start + 1))
            }
        } else if util::number(first) {
            lexed_at(start, lex_number(s, start))
        } else if first == '"' {
            lexed_at(start, lex_string(s, start))
        } else if first == '/' {
            if second_is('/') {
                proof {
                    lemma_scan_until_bounds(s, pos, |c: char| !util::whitespace(c));
                    lemma_scan_until_bounds(s, start + 2, |c: char| c == '\n');
                }
                lex_token(s, scan_until(s, start + 2, |c: char| c == '\n'))
            } else if second_is('*') {
                match comment_end(s, start + 2) {
                    Some(after) => {
                        proof {
                            lemma_scan_until_bounds(s, pos, |c: char| !util::whitespace(c));
                            lemma_comment_end_bounds(s, start + 2);
                        }
                        lex_token(s, after)
                    },
                    None => Lexed {
                        result: Err(SpecLexerError::UnterminatedComment),
                        end: s.len() as int,
                    },
                }
            } else {
                lexed_at(start, (Ok(single_char_token(first)), start + 1))
            }
        } else {
            lexed_at(start, lex_word(s, start))
        }
    }
}

/// Whether `next` is what a token stream hands out for the token that
/// starts at `pos`: the token, or the error with the offset at which the
/// lexer stopped.
pub open spec fn peeked(
    s: Seq<char>,
    pos: int,
    next: Result<TokenWithCtx, ErrWithCtx<LexerError>>,
) -> bool {
    match lex_token(s, pos).result {
        Ok(token) => next is Ok && next->Ok_0@ == token,
        Err(error) => next is Err && next->Err_0@ == (error, lex_token(s, pos).end as usize),
    }
}

/// A scan ends at or after its start and within the text.
pub proof fn lemma_scan_until_bounds(s: Seq<char>, pos: int, stop: spec_fn(char) -> bool)
    ensures
        pos <= scan_until(s, pos, stop),
        pos <= s.len() ==> scan_until(s, pos, stop) <= s.len(),
    decreases s.len() - pos,
{
    if pos < s.len() && !stop(s[pos]) {
        lemma_scan_until_bounds(s, pos + 1, stop);
    }
}

/// A scan ends at `end` when no character from `pos` up to `end` stops it
/// and the one at `end`, if there is one, does.
pub proof fn lemma_scan_until_is(s: Seq<char>, pos: int, end: int, stop: spec_fn(char) -> bool)
    requires
        0 <= pos <= end <= s.len(),
        forall|i: int| pos <= i < end ==> !stop(#[trigger] s[i]),
        end < s.len() ==> stop(s[end]),
    ensures
        scan_until(s, pos, stop) == end,
    decreases end - pos,
{
    if pos < end {
        lemma_scan_until_is(s, pos + 1, end, stop);
    }
}

/// The end of a comment lies after its start and within the text.
pub proof fn lemma_comment_end_bounds(s: Seq<char>, pos: int)
    ensures
        comment_end(s, pos) matches Some(after) ==> pos + 2 <= after <= s.len(),
    decreases s.len() - pos,
{
    if pos + 1 < s.len() && !(s[pos] == '*' && s[pos + 1] == '/') {
        lemma_comment_end_bounds(s, pos + 1);
    }
}

/// Reading a string literal ends after the place it started from and
/// within the text.
pub proof fn lemma_lex_string_body_bounds(s: Seq<char>, pos: int, content: Seq<char>)
    requires
        0 <= pos <= s.len(),
    ensures
        pos <= lex_string_body(s, pos, content).1 <= s.len(),
    decreases s.len() - pos,
{
    if pos < s.len() && s[pos] != '"' {
        if s[pos] == '\\' {
            if pos + 1 < s.len() && escape(s[pos + 1]) is Some {
                lemma_lex_string_body_bounds(s, pos + 2, content.push(escape(s[pos + 1])->0));
            }
        } else {
            lemma_lex_string_body_bounds(s, pos + 1, content.push(s[pos]));
        }
    }
}

/// Bounds on what reading a token gives: a token starts at or after the
/// position it was read from and ends within the text; every token but
/// `EndOfFile` has at least one character, so reading it makes progress;
/// `EndOfFile` sits at the end of the text.
pub proof fn lemma_lex_token_bounds(s: Seq<char>, pos: int)
    requires
        0 <= pos <= s.len() <= usize::MAX,
    ensures
        pos <= lex_token(s, pos).end <= s.len(),
        lex_token(s, pos).result matches Ok(token) ==> pos <= token.offset <= lex_token(
            s,
            pos,
        ).end && (if token.token is EndOfFile {
            token.offset == s.len() && lex_token(s, pos).end == s.len()
        } else {
            token.offset < lex_token(s, pos).end
        }),
    decreases s.len() - pos,
{
    let start = scan_until(s, pos, |c: char| !util::whitespace(c));
    lemma_scan_until_bounds(s, pos, |c: char| !util::whitespace(c));
    if start < s.len() {
        let first = s[start];
        if single_char(first) || first == ':' || first == '.' {
        } else if util::number(first) {
            lemma_scan_until_bounds(s, start + 1, |c: char| !util::number(c));
        } else if first == '"' {
            lemma_lex_string_body_bounds(s, start + 1, Seq::empty());
        } else if first == '/' {
            if start + 1 < s.len() && s[start + 1] == '/' {
                lemma_scan_until_bounds(s, start + 2, |c: char| c == '\n');
                lemma_lex_token_bounds(s, scan_until(s, start + 2, |c: char| c == '\n'));
            } else if start + 1 < s.len() && s[start + 1] == '*' {
                lemma_comment_end_bounds(s, start + 2);
                if comment_end(s, start + 2) is Some {
                    lemma_lex_token_bounds(s, comment_end(s, start + 2)->0);
                }
            }
        } else {
            lemma_scan_until_bounds(s, start, |c: char| !util::valid_in_identifier(c));
            let end = scan_until(s, start, |c: char| !util::valid_in_identifier(c));
            let word = s.subrange(start, end);
            if end == start {
                assert(word.len() == 0);
                reveal_strlit("print");
                reveal_strlit("read");
                reveal_strlit("int");
                reveal_strlit("bool");
                reveal_strlit("string");
                reveal_strlit("var");
                reveal_strlit("assert");
                reveal_strlit("for");
                reveal_strlit("in");
                reveal_strlit("do");
                reveal_strlit("end");
            }
        }
    }
}

/// Reading a token other than `EndOfFile` moves the lexer forward.
pub proof fn lemma_lex_token_progress(s: Seq<char>, pos: int)
    requires
        0 <= pos <= s.len(),
    ensures
        pos <= lex_token(s, pos).end <= s.len(),
        lex_token(s, pos).result matches Ok(token) ==> token.token is EndOfFile || pos < lex_token(
            s,
            pos,
        ).end,
    decreases s.len() - pos,
{
    let start = scan_until(s, pos, |c: char| !util::whitespace(c));
    lemma_scan_until_bounds(s, pos, |c: char| !util::whitespace(c));
    if start < s.len() {
        let first = s[start];
        if single_char(first) || first == ':' || first == '.' {
        } else if util::number(first) {
            lemma_scan_until_bounds(s, start + 1, |c: char| !util::number(c));
        } else if first == '"' {
            lemma_lex_string_body_bounds(s, start + 1, Seq::empty());
        } else if first == '/' {
            if start + 1 < s.len() && s[start + 1] == '/' {
                lemma_scan_until_bounds(s, start + 2, |c: char| c == '\n');
                lemma_lex_token_progress(s, scan_until(s, start + 2, |c: char| c == '\n'));
            } else if start + 1 < s.len() && s[start + 1] == '*' {
                lemma_comment_end_bounds(s, start + 2);
                if comment_end(s, start + 2) is Some {
                    lemma_lex_token_progress(s, comment_end(s, start + 2)->0);
                }
            }
        } else {
            lemma_scan_until_bounds(s, start, |c: char| !util::valid_in_identifier(c));
            let end = scan_until(s, start, |c: char| !util::valid_in_identifier(c));
            let word = s.subrange(start, end);
            if end == start {
                assert(word.len() == 0);
                reveal_strlit("print");
                reveal_strlit("read");
                reveal_strlit("int");
                reveal_strlit("bool");
                reveal_strlit("string");
                reveal_strlit("var");
                reveal_strlit("assert");
                reveal_strlit("for");
                reveal_strlit("in");
                reveal_strlit("do");
                reveal_strlit("end");
            }
        }
    }
}

/// The mathematical content of what the lexer returned, with the position
/// at which it then stood.
pub open spec fn lexed_of(token: Result<TokenWithCtx, LexerError>, end: int) -> Lexed {
    Lexed {
        result: match token {
            Ok(token) => Ok(token@),
            Err(error) => Err(error@),
        },
        end,
    }
}

/// The mathematical content of a token or error without its offset.
pub open spec fn read_of(token: Result<Token, LexerError>, end: int) -> (Result<
    SpecToken,
    SpecLexerError,
>, int) {
    (
        match token {
            Ok(token) => Ok(token@),
            Err(error) => Err(error@),
        },
        end,
    )
}

#[verifier::loop_isolation(false)]
fn read_string_literal(input: &mut CharStream) -> (token: Result<Token, LexerError>)
    requires
        old(input).position() < old(input).source().len(),
        old(input).source()[old(input).position() as int] == '"',
    ensures
        final(input).source() == old(input).source(),
        read_of(token, final(input).position() as int) == lex_string(
            old(input).source(),
            old(input).position() as int,
        ),
{
    let ghost s = input.source();
    let ghost start = input.position() as int;
    input.advance();
    let mut chars: Vec<char> = Vec::new();
    assert(chars@ =~= Seq::<char>::empty());
    loop
        invariant
            input.source() == s,
            start < input.position() <= s.len(),
            lex_string_body(s, start + 1, Seq::empty()) == lex_string_body(
                s,
                input.position() as int,
                chars@,
            ),
        decreases s.len() - input.position(),
    {
        match input.peek() {
            Err(_) => {
                return Err(LexerError::UnterminatedStringLiteral);
            },
            Ok(c) => {
                input.advance();
                if c == '"' {
                    let content = text::string_of_slice(chars.as_slice());
                    return Ok(Token::Literal(LiteralValue::StringLiteral(content)));
                } else if c == '\\' {
                    match input.peek() {
                        Err(_) => {
                            return Err(LexerError::UnterminatedStringLiteral);
                        },
                        Ok(code) => {
                            input.advance();
                            match unescape(code) {
                                Some(escaped) => {
                                    chars.push(escaped);
                                },
                                None => {
                                    return Err(
                                        LexerError::UnknownEscapeCode(text::char_string(code)),
                                    );
                                },
                            }
                        },
                    }
                } else {
                    chars.push(c);
                }
            },
        }
    }
}

fn unescape(code: char) -> (escaped: Option<char>)
    ensures
        escaped == escape(code),
{
    if code == '\\' {
        Some('\\')
    } else if code == '"' {
        Some('"')
    } else if code == 'r' {
        Some('\r')
    } else if code == 'n' {
        Some('\n')
    } else if code == 't' {
        Some('\t')
    } else {
        None
    }
}

fn keyword_token(word: &[char]) -> (token: Option<Token>)
    ensures
        match keyword(word@) {
            Some(expected) => token is Some && token->0@ == expected,
            None => token is None,
        },
{
    if text::slice_is(word, "print") {
        Some(Token::Print)
    } else if text::slice_is(word, "read") {
        Some(Token::Read)
    } else if text::slice_is(word, "int") {
        Some(Token::Type(TypeName::IntType))
    } else if text::slice_is(word, "bool") {
        Some(Token::Type(TypeName::BoolType))
    } else if text::slice_is(word, "string") {
        Some(Token::Type(TypeName::StringType))
    } else if text::slice_is(word, "var") {
        Some(Token::Var)
    } else if text::slice_is(word, "assert") {
        Some(Token::Assert)
    } else if text::slice_is(word, "for") {
        Some(Token::For)
    } else if text::slice_is(word, "in") {
        Some(Token::In)
    } else if text::slice_is(word, "do") {
        Some(Token::Do)
    } else if text::slice_is(word, "end") {
        Some(Token::End)
    } else {
        None
    }
}

fn valid_identifier_chars(word: &[char]) -> (valid: bool)
    ensures
        valid == util::valid_identifier(word@),
{
    if word.len() == 0 || !util::is_letter(word[0]) {
        return false;
    }
    let mut i: usize = 0;
    while i < word.len()
        invariant
            i <= word.len(),
            forall|j: int| 0 <= j < i ==> util::valid_in_identifier(#[trigger] word@[j]),
        decreases word.len() - i,
    {
        if !util::is_valid_in_identifier(word[i]) {
            return false;
        }
        i += 1;
    }
    true
}

fn read_keyword_or_identifier(input: &mut CharStream) -> (token: Result<Token, LexerError>)
    requires
        old(input).position() < old(input).source().len(),
    ensures
        final(input).source() == old(input).source(),
        read_of(token, final(input).position() as int) == lex_word(
            old(input).source(),
            old(input).position() as int,
        ),
{
    let ghost s = input.source();
    let ghost start = input.position() as int;
    let first = match input.peek() {
        Ok(c) => c,
        Err(_) => ' ',
    };
    let stop = |c: char| -> (stop: bool)
        ensures
            stop == !util::valid_in_identifier(c),
        { !util::is_valid_in_identifier(c) };
    let word = input.take_until(stop);
    proof {
        lemma_scan_until_is(
            s,
            start,
            start + word@.len(),
            |c: char| !util::valid_in_identifier(c),
        );
    }
    match keyword_token(word) {
        Some(token) => Ok(token),
        None => {
            if !valid_identifier_chars(word) {
                Err(LexerError::UnknownToken(text::char_string(first)))
            } else {
                Ok(Token::Identifier(text::string_of_slice(word)))
            }
        },
    }
}

fn parse_single_char_token(ch: char) -> (token: Token)
    requires
        single_char(ch) || ch == '/',
    ensures
        token@ == single_char_token(ch),
{
    if ch == ';' {
        Token::Semicolon
    } else if ch == '(' {
        Token::LParen
    } else if ch == ')' {
        Token::RParen
    } else if ch == '+' {
        Token::Operator(Operator::BinaryOperator(BinaryOperator::Add))
    } else if ch == '-' {
        Token::Operator(Operator::BinaryOperator(BinaryOperator::Sub))
    } else if ch == '*' {
        Token::Operator(Operator::BinaryOperator(BinaryOperator::Mul))
    } else if ch == '/' {
        Token::Operator(Operator::BinaryOperator(BinaryOperator::Div))
    } else if ch == '<' {
        Token::Operator(Operator::BinaryOperator(BinaryOperator::LessThan))
    } else if ch == '=' {
        Token::Operator(Operator::BinaryOperator(BinaryOperator::Equal))
    } else if ch == '&' {
        Token::Operator(Operator::BinaryOperator(BinaryOperator::And))
    } else {
        Token::Operator(Operator::UnaryOperator(UnaryOperator::Not))
    }
}

fn read_number_literal(input: &mut CharStream) -> (token: Result<Token, LexerError>)
    ensures
        final(input).source() == old(input).source(),
        read_of(token, final(input).position() as int) == lex_number(
            old(input).source(),
            old(input).position() as int,
        ),
{
    let ghost s = input.source();
    let ghost start = input.position() as int;
    let stop = |c: char| -> (stop: bool)
        ensures
            stop == !util::number(c),
        { !util::is_number(c) };
    let digits = input.take_until(stop);
    proof {
        lemma_scan_until_is(s, start, start + digits@.len(), |c: char| !util::number(c));
    }
    match text::digits_to_number(digits, 2147483647u32) {
        Some(value) => Ok(Token::Literal(LiteralValue::IntLiteral(value as i32))),
        None => Err(LexerError::InvalidNumberLiteral),
    }
}

/// Moves `input` to the position after the first `*/` at or after where it
/// stands, or to the end of the text where there is none.
#[verifier::loop_isolation(false)]
fn skip_block_comment(input: &mut CharStream) -> (closed: bool)
    ensures
        final(input).source() == old(input).source(),
        match comment_end(old(input).source(), old(input).position() as int) {
            Some(after) => closed && final(input).position() == after,
            None => !closed && final(input).position() == old(input).source().len(),
        },
{
    let ghost s = input.source();
    let ghost from = input.position() as int;
    let mut prev = match input.peek() {
        Ok(c) => c,
        Err(_) => {
            return false;
        },
    };
    input.advance();
    loop
        invariant
            input.source() == s,
            from < input.position() <= s.len(),
            prev == s[input.position() - 1],
            comment_end(s, from) == comment_end(s, input.position() - 1),
        decreases s.len() - input.position(),
    {
        let next = match input.peek() {
            Ok(c) => c,
            Err(_) => {
                return false;
            },
        };
        input.advance();
        if prev == '*' && next == '/' {
            return true;
        }
        prev = next;
    }
}

/// Reads the next token from `input`.
pub fn next_token(input: &mut CharStream) -> (token: Result<TokenWithCtx, LexerError>)
    ensures
        final(input).source() == old(input).source(),
        lexed_of(token, final(input).position() as int) == lex_token(
            old(input).source(),
            old(input).position() as int,
        ),
    decreases old(input).source().len() - old(input).position(),
{
    let ghost s = input.source();
    let ghost pos = input.position() as int;
    let not_space = |ch: char| -> (stop: bool)
        ensures
            stop == !util::whitespace(ch),
        { !util::is_whitespace(ch) };
    input.advance_until(not_space);
    proof {
        lemma_scan_until_is(s, pos, input.position() as int, |c: char| !util::whitespace(c));
    }
    let offset = input.offset();
    let first = match input.peek() {
        Ok(c) => c,
        Err(_) => {
            return Ok(TokenWithCtx { offset, token: Token::EndOfFile });
        },
    };
    if first == ';' || first == '(' || first == ')' || first == '+' || first == '-' || first == '*'
        || first == '<' || first == '=' || first == '&' || first == '!' {
        input.advance();
        Ok(TokenWithCtx { offset, token: parse_single_char_token(first) })
    } else if first == ':' {
        input.advance();
        match input.peek() {
            Ok('=') => {
                input.advance();
                Ok(TokenWithCtx { offset, token: Token::Assign })
            },
            _ => Ok(TokenWithCtx { offset, token: Token::Colon }),
        }
    } else if first == '.' {
        input.advance();
        match input.peek() {
            Ok('.') => {
                input.advance();
                Ok(TokenWithCtx { offset, token: Token::Range })
            },
            _ => Err(LexerError::UnknownToken(text::char_string('.'))),
        }
    } else if util::is_number(first) {
        match read_number_literal(input) {
            Ok(token) => Ok(TokenWithCtx { offset, token }),
            Err(error) => Err(error),
        }
    } else if first == '"' {
        match read_string_literal(input) {
            Ok(token) => Ok(TokenWithCtx { offset, token }),
            Err(error) => Err(error),
        }
    } else if first == '/' {
        input.advance();
        match input.peek() {
            Ok('/') => {
                input.advance();
                let ghost after = input.position() as int;
                let newline = |ch: char| -> (stop: bool)
                    ensures
                        stop == (ch == '\n'),
                    { ch == '\n' };
                input.advance_until(newline);
                proof {
                    lemma_scan_until_is(s, after, input.position() as int, |c: char| c == '\n');
                }
                next_token(input)
            },
            Ok('*') => {
                input.advance();
                if skip_block_comment(input) {
                    proof {
                        lemma_comment_end_bounds(s, offset + 2);
                    }
                    next_token(input)
                } else {
                    Err(LexerError::UnterminatedComment)
                }
            },
            _ => Ok(TokenWithCtx { offset, token: parse_single_char_token(first) }),
        }
    } else {
        match read_keyword_or_identifier(input) {
            Ok(token) => Ok(TokenWithCtx { offset, token }),
            Err(error) => Err(error),
        }
    }
}

/// A lexer with one token of lookahead.
pub struct BufferedLexer {
    stream: CharStream,
    token: Option<TokenWithCtx>,
    // Where the token that is held back was read from.
    held_from: Ghost<int>,
}

impl BufferedLexer {
    /// A lexer that reads from where `stream` stands.
    pub fn new(stream: CharStream) -> (lexer: BufferedLexer)
        ensures
            lexer.well_formed(),
            lexer.source() == stream.source(),
            lexer.position() == stream.position(),
            !lexer.buffered(),
    {
        let _ = stream.offset();
        BufferedLexer { stream, token: None, held_from: Ghost(0) }
    }
}

impl TokenStream for BufferedLexer {
    closed spec fn source(&self) -> Seq<char> {
        self.stream.source()
    }

    closed spec fn position(&self) -> int {
        if self.token is Some {
            self.held_from@
        } else {
            self.stream.position() as int
        }
    }

    closed spec fn buffered(&self) -> bool {
        self.token is Some
    }

    closed spec fn well_formed(&self) -> bool {
        &&& self.stream.position() <= self.stream.source().len() <= usize::MAX
        &&& self.token matches Some(token) ==> {
            &&& 0 <= self.held_from@ <= self.stream.source().len()
            &&& lex_token(self.stream.source(), self.held_from@) == Lexed {
                result: Ok(token@),
                end: self.stream.position() as int,
            }
        }
    }

    proof fn lemma_position_in_source(&self) {
    }

    fn advance(&mut self) {
        if self.token.is_none() {
            self.stream.advance();
        } else {
            self.token = None;
        }
    }

    fn reached_end(&self) -> (at_end: bool) {
        self.token.is_none() && self.stream.reached_end()
    }

    fn offset(&self) -> (offset: usize) {
        proof {
            lemma_lex_token_bounds(self.source(), self.position());
        }
        match &self.token {
            Some(token) => token.offset,
            None => self.stream.offset(),
        }
    }

    fn peek(&mut self) -> (next: Result<TokenWithCtx, ErrWithCtx<LexerError>>) {
        match &self.token {
            Some(token) => Ok(token.clone()),
            None => {
                let ghost from = self.stream.position() as int;
                let _ = self.stream.offset();
                match next_token(&mut self.stream) {
                    Ok(next) => {
                        let _ = self.stream.offset();
                        self.token = Some(next.clone());
                        self.held_from = Ghost(from);
                        Ok(next)
                    },
                    Err(error) => {
                        proof {
                            lemma_lex_token_bounds(self.source(), from);
                        }
                        Err(ErrWithCtx(error, self.stream.offset()))
                    },
                }
            },
        }
    }

    fn next(&mut self) -> (next: Result<TokenWithCtx, ErrWithCtx<LexerError>>) {
        let token = self.peek()?;
        self.advance();
        Ok(token)
    }
}

} // verus!
