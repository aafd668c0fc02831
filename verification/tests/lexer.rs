use miniplrs::common::errors::LexerError;
use miniplrs::common::types::{BinaryOperator, LiteralValue, Operator, TypeName, UnaryOperator};
use miniplrs::parsing::char_stream::CharStream;
use miniplrs::parsing::lexer::{next_token, BufferedLexer};
use miniplrs::parsing::token::{Token, TokenKind};
use miniplrs::parsing::token_stream::TokenStream;

fn add_op() -> Token {
    Token::Operator(Operator::BinaryOperator(BinaryOperator::Add))
}

fn equal_op() -> Token {
    Token::Operator(Operator::BinaryOperator(BinaryOperator::Equal))
}

fn number(i: i32) -> Token {
    Token::Literal(LiteralValue::IntLiteral(i))
}

fn string(s: &str) -> Token {
    Token::Literal(LiteralValue::StringLiteral(s.to_string()))
}

fn variable(s: &str) -> Token {
    Token::Identifier(s.to_string())
}

fn create_lexer(input: &str) -> BufferedLexer {
    BufferedLexer::new(CharStream::new(input))
}

fn lex(input: &str) -> Result<Vec<Token>, LexerError> {
    let mut lexer = create_lexer(input);
    let mut tokens: Vec<Token> = Vec::new();
    while !lexer.reached_end() {
        let token_with_ctx = lexer.next().map_err(|err| err.0)?;
        tokens.push(token_with_ctx.token);
    }
    Ok(tokens)
}

/// Every token of the input with its offset, up to and including the end of
/// the text, or the first error with the offset at which the lexer stopped.
fn lex_with_offsets(input: &str) -> Result<Vec<(Token, usize)>, (LexerError, usize)> {
    let mut stream = CharStream::new(input);
    let mut tokens = Vec::new();
    loop {
        match next_token(&mut stream) {
            Ok(token) => {
                let done = token.token == Token::EndOfFile;
                tokens.push((token.token, token.offset));
                if done {
                    return Ok(tokens);
                }
            }
            Err(error) => return Err((error, stream.offset())),
        }
    }
}

#[test]
fn basic_expression() {
    let tokens = lex("1 + 2 + x").expect("Should parse.");
    assert_eq!(tokens, [number(1), add_op(), number(2), add_op(), variable("x")]);
}

#[test]
fn basic_expression_without_space() {
    let tokens = lex("1+2+x").expect("Should parse.");
    assert_eq!(tokens, [number(1), add_op(), number(2), add_op(), variable("x")]);
}

#[test]
fn basic_lookahead() {
    let tokens = lex(": = :=").expect("Should parse.");
    assert_eq!(tokens, [Token::Colon, equal_op(), Token::Assign]);
}

#[test]
fn string_escape_codes() {
    let tokens = lex(r#""\r\n\\\"\t""#).expect("Should parse.");
    assert_eq!(tokens, [string("\r\n\\\"\t")]);
}

#[test]
fn malformed_string() {
    let result = lex(r#""Hello, world!; stuff"#);
    assert!(matches!(result, Err(LexerError::UnterminatedStringLiteral)));
}

#[test]
fn valid_identifiers() {
    let result = lex("Aa aA a_a A_A A3 a3 aa3bb");
    assert!(matches!(result, Ok(_)));
    assert_eq!(
        result.unwrap(),
        [
            variable("Aa"),
            variable("aA"),
            variable("a_a"),
            variable("A_A"),
            variable("A3"),
            variable("a3"),
            variable("aa3bb")
        ]
    );
}

#[test]
fn number_and_identifier_is_two_tokens() {
    let result = lex("3a").expect("Should parse");
    assert_eq!(result, [number(3), variable("a")]);
}

#[test]
fn keywords_and_types() {
    let tokens = lex("print read var assert for in do end int string bool").unwrap();
    assert_eq!(
        tokens,
        [
            Token::Print,
            Token::Read,
            Token::Var,
            Token::Assert,
            Token::For,
            Token::In,
            Token::Do,
            Token::End,
            Token::Type(TypeName::IntType),
            Token::Type(TypeName::StringType),
            Token::Type(TypeName::BoolType)
        ]
    );
}

#[test]
fn keyword_prefix_is_an_identifier() {
    assert_eq!(lex("printer").unwrap(), [variable("printer")]);
    assert_eq!(lex("in_").unwrap(), [variable("in_")]);
}

#[test]
fn punctuation_and_operators() {
    let tokens = lex("; ( ) + - * / < = & ! : := ..").unwrap();
    let binary = |op| Token::Operator(Operator::BinaryOperator(op));
    assert_eq!(
        tokens,
        [
            Token::Semicolon,
            Token::LParen,
            Token::RParen,
            binary(BinaryOperator::Add),
            binary(BinaryOperator::Sub),
            binary(BinaryOperator::Mul),
            binary(BinaryOperator::Div),
            binary(BinaryOperator::LessThan),
            binary(BinaryOperator::Equal),
            binary(BinaryOperator::And),
            Token::Operator(Operator::UnaryOperator(UnaryOperator::Not)),
            Token::Colon,
            Token::Assign,
            Token::Range
        ]
    );
}

#[test]
fn token_offsets_count_characters() {
    let tokens = lex_with_offsets("  ab := \"é\" ;").unwrap();
    assert_eq!(
        tokens,
        vec![
            (variable("ab"), 2),
            (Token::Assign, 5),
            (string("é"), 8),
            (Token::Semicolon, 12),
            (Token::EndOfFile, 13)
        ]
    );
}

#[test]
fn end_of_file_token_at_the_end() {
    assert_eq!(lex_with_offsets("").unwrap(), vec![(Token::EndOfFile, 0)]);
    assert_eq!(lex_with_offsets(" \t\r\n").unwrap(), vec![(Token::EndOfFile, 4)]);
}

#[test]
fn line_comment_runs_to_the_end_of_the_line() {
    let tokens = lex_with_offsets("1 // two 2\n3").unwrap();
    assert_eq!(tokens, vec![(number(1), 0), (number(3), 11), (Token::EndOfFile, 12)]);
    assert_eq!(lex_with_offsets("// only").unwrap(), vec![(Token::EndOfFile, 7)]);
}

#[test]
fn block_comment_ends_at_the_first_close() {
    let tokens = lex_with_offsets("/* a */ b */").unwrap();
    let mul = Token::Operator(Operator::BinaryOperator(BinaryOperator::Mul));
    let div = Token::Operator(Operator::BinaryOperator(BinaryOperator::Div));
    assert_eq!(
        tokens,
        vec![(variable("b"), 8), (mul, 10), (div, 11), (Token::EndOfFile, 12)]
    );
    assert_eq!(lex_with_offsets("/**/x").unwrap(), vec![(variable("x"), 4), (Token::EndOfFile, 5)]);
}

#[test]
fn unterminated_block_comment() {
    assert_eq!(lex_with_offsets("/* * * / *"), Err((LexerError::UnterminatedComment, 10)));
    assert_eq!(lex_with_offsets("/*/"), Err((LexerError::UnterminatedComment, 3)));
    assert_eq!(lex_with_offsets("/*"), Err((LexerError::UnterminatedComment, 2)));
}

#[test]
fn slash_alone_is_division() {
    let div = Token::Operator(Operator::BinaryOperator(BinaryOperator::Div));
    assert_eq!(lex("6 / 3").unwrap(), [number(6), div.clone(), number(3)]);
    assert_eq!(lex("/").unwrap(), [div]);
}

#[test]
fn colon_at_the_end_is_a_colon() {
    assert_eq!(lex(":").unwrap(), [Token::Colon]);
}

#[test]
fn single_dot_is_unknown() {
    assert_eq!(
        lex_with_offsets("a . b"),
        Err((LexerError::UnknownToken(".".to_string()), 3))
    );
    assert_eq!(lex_with_offsets("."), Err((LexerError::UnknownToken(".".to_string()), 1)));
}

#[test]
fn unknown_character_names_itself() {
    assert_eq!(lex_with_offsets("  #x"), Err((LexerError::UnknownToken("#".to_string()), 2)));
    assert_eq!(lex_with_offsets("_x"), Err((LexerError::UnknownToken("_".to_string()), 2)));
}

#[test]
fn number_limits() {
    assert_eq!(lex("2147483647").unwrap(), [number(2147483647)]);
    assert_eq!(lex("0000000000000012").unwrap(), [number(12)]);
    assert_eq!(lex_with_offsets("2147483648;"), Err((LexerError::InvalidNumberLiteral, 10)));
    assert_eq!(
        lex_with_offsets("99999999999999999999999"),
        Err((LexerError::InvalidNumberLiteral, 23))
    );
}

#[test]
fn unknown_escape_code() {
    assert_eq!(
        lex_with_offsets(r#""a\qb""#),
        Err((LexerError::UnknownEscapeCode("q".to_string()), 4))
    );
}

#[test]
fn unterminated_string_ends_at_the_end() {
    assert_eq!(lex_with_offsets("\"abc"), Err((LexerError::UnterminatedStringLiteral, 4)));
    assert_eq!(lex_with_offsets("\"abc\\"), Err((LexerError::UnterminatedStringLiteral, 5)));
}

#[test]
fn string_may_hold_any_character() {
    assert_eq!(lex("\"a b\n// c\"").unwrap(), [string("a b\n// c")]);
}

#[test]
fn peek_does_not_consume() {
    let mut lexer = create_lexer("var x");
    assert_eq!(lexer.offset(), 0);
    let first = lexer.peek().unwrap();
    assert_eq!(first.token, Token::Var);
    assert_eq!(lexer.peek().unwrap().token, Token::Var);
    assert_eq!(lexer.offset(), 0);
    assert!(!lexer.reached_end());
    lexer.advance();
    assert_eq!(lexer.offset(), 3);
    let second = lexer.next().unwrap();
    assert_eq!(second.token, variable("x"));
    assert_eq!(second.offset, 4);
    assert!(lexer.reached_end());
    assert_eq!(lexer.next().unwrap().token, Token::EndOfFile);
}

#[test]
fn lexer_error_carries_the_offset_where_it_stopped() {
    let mut lexer = create_lexer("ab \"cd");
    assert_eq!(lexer.next().unwrap().token, variable("ab"));
    let error = lexer.peek().unwrap_err();
    assert_eq!(error.0, LexerError::UnterminatedStringLiteral);
    assert_eq!(error.1, 6);
}

#[test]
fn token_kinds() {
    assert_eq!(variable("a").get_kind(), TokenKind::IdentifierK);
    assert_eq!(number(1).get_kind(), TokenKind::LiteralK);
    assert_eq!(Token::Do.get_kind(), TokenKind::DoK);
    assert_eq!(Token::End.get_kind(), TokenKind::EndK);
    assert_eq!(Token::EndOfFile.get_kind(), TokenKind::EndOfFileK);
    assert!(variable("a").kind_equals(TokenKind::IdentifierK));
    assert!(variable("a").kinds_equal(&variable("b")));
    assert!(!variable("a").same_as(&variable("b")));
    assert!(variable("a").same_as(&variable("a")));
    assert!(!number(1).same_as(&string("1")));
    assert!(Token::Semicolon.same_as(&Token::Semicolon));
    assert!(!Token::Semicolon.same_as(&Token::Colon));
    assert_eq!(TokenKind::SemicolonK.get_name(), "SemicolonK");
}
