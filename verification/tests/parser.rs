use miniplrs::common::errors::{
    ErrWithCtx, ErrorWithContext, ErrorWithReason, ParserError, ParserErrorWithCtx, TryRecover,
};
use miniplrs::common::types::{BinaryOperator, LiteralValue, TypeName, UnaryOperator};
use miniplrs::parsing::ast::{Expression, Statement, StatementWithCtx};
use miniplrs::parsing::char_stream::CharStream;
use miniplrs::parsing::lexer::BufferedLexer;
use miniplrs::parsing::parser::Parser;
use miniplrs::parsing::token::TokenKind;

fn create_parser(src: &str) -> Parser<BufferedLexer> {
    Parser::new(BufferedLexer::new(CharStream::new(src)))
}

fn parse_stmnt(src: &str) -> Result<Statement, ParserError> {
    let mut parser = create_parser(src);
    parser.parse_statement().map_err(|mut err| err.remove(0).0)
}

fn parse_expr(src: &str) -> Result<Expression, ParserError> {
    let mut parser = create_parser(src);
    parser.parse_expression().map_err(|err| err.0)
}

fn parse_expr_at(src: &str) -> Result<Expression, (ParserError, usize)> {
    let mut parser = create_parser(src);
    parser.parse_expression().map_err(|err| (err.0, err.1))
}

fn parse_all(src: &str) -> Result<Vec<StatementWithCtx>, Vec<(ParserError, usize)>> {
    let mut parser = create_parser(src);
    parser
        .parse_program()
        .map_err(|errors| errors.into_iter().map(|ErrWithCtx(e, at)| (e, at)).collect())
}

fn num(i: i32) -> Expression {
    Expression::Literal(LiteralValue::IntLiteral(i))
}

fn var(name: &str) -> Expression {
    Expression::Variable(name.to_string())
}

fn binary(op: BinaryOperator, a: Expression, b: Expression) -> Expression {
    Expression::BinaryOp(op, Box::new((a, b)))
}

fn not(a: Expression) -> Expression {
    Expression::UnaryOp(UnaryOperator::Not, Box::new(a))
}

#[test]
fn parse_invalid_binary_expr() {
    let result = parse_expr("1 +");
    assert!(matches!(result, Err(ParserError::IncompleteExpression)));
}

#[test]
fn reserved_keyword_var() {
    let result = parse_stmnt("var var : int := 10;");
    assert!(matches!(
        result,
        Err(ParserError::UnexpectedToken { expected: _, was: TokenKind::VarK })
    ));
}

#[test]
fn reserved_keyword_int() {
    let result = parse_stmnt("var int : int := 10;");
    assert!(matches!(
        result,
        Err(ParserError::UnexpectedToken { expected: _, was: TokenKind::TypeK })
    ));
}

#[test]
fn tighter_operator_folds_first() {
    assert_eq!(
        parse_expr("1 + 2 * 3").unwrap(),
        binary(
            BinaryOperator::Add,
            num(1),
            binary(BinaryOperator::Mul, num(2), num(3))
        )
    );
    assert_eq!(
        parse_expr("1 * 2 + 3").unwrap(),
        binary(
            BinaryOperator::Add,
            binary(BinaryOperator::Mul, num(1), num(2)),
            num(3)
        )
    );
    assert_eq!(
        parse_expr("a < b + 1").unwrap(),
        binary(
            BinaryOperator::LessThan,
            var("a"),
            binary(BinaryOperator::Add, var("b"), num(1))
        )
    );
}

#[test]
fn binary_operators_of_one_level_nest_to_the_left() {
    assert_eq!(
        parse_expr("1 - 2 - 3").unwrap(),
        binary(
            BinaryOperator::Sub,
            binary(BinaryOperator::Sub, num(1), num(2)),
            num(3)
        )
    );
    assert_eq!(
        parse_expr("10 - 4 + 3").unwrap(),
        binary(
            BinaryOperator::Add,
            binary(BinaryOperator::Sub, num(10), num(4)),
            num(3)
        )
    );
    assert_eq!(
        parse_expr("8 / 4 * 2").unwrap(),
        binary(
            BinaryOperator::Mul,
            binary(BinaryOperator::Div, num(8), num(4)),
            num(2)
        )
    );
    assert_eq!(
        parse_expr("a < b = c").unwrap(),
        binary(
            BinaryOperator::Equal,
            binary(BinaryOperator::LessThan, var("a"), var("b")),
            var("c")
        )
    );
    assert_eq!(
        parse_expr("1 + 2 * 3 - 4").unwrap(),
        binary(
            BinaryOperator::Sub,
            binary(
                BinaryOperator::Add,
                num(1),
                binary(BinaryOperator::Mul, num(2), num(3))
            ),
            num(4)
        )
    );
}

#[test]
fn unary_operator_applies_to_what_follows_it() {
    assert_eq!(parse_expr("! ! ! x").unwrap(), not(not(not(var("x")))));
    assert_eq!(
        parse_expr("!a & !b").unwrap(),
        binary(BinaryOperator::And, not(var("a")), not(var("b")))
    );
}

#[test]
fn parentheses_group() {
    assert_eq!(
        parse_expr("(1 + 2) * 3").unwrap(),
        binary(
            BinaryOperator::Mul,
            binary(BinaryOperator::Add, num(1), num(2)),
            num(3)
        )
    );
    assert_eq!(parse_expr("((x))").unwrap(), var("x"));
}

#[test]
fn unary_not() {
    assert_eq!(
        parse_expr("!(a = b) = !(b = a)").unwrap(),
        binary(
            BinaryOperator::Equal,
            not(binary(BinaryOperator::Equal, var("a"), var("b"))),
            not(binary(BinaryOperator::Equal, var("b"), var("a")))
        )
    );
    assert_eq!(parse_expr("! ! x").unwrap(), not(not(var("x"))));
}

#[test]
fn missing_right_parenthesis() {
    assert_eq!(parse_expr_at("  (1 + 2"), Err((ParserError::MissingRParen, 2)));
}

#[test]
fn unmatched_right_parenthesis_ends_the_expression() {
    let mut parser = create_parser("1 + 2 ) ;");
    assert_eq!(
        parser.parse_expression().map_err(|e| e.0),
        Ok(binary(BinaryOperator::Add, num(1), num(2)))
    );
    let result = parse_stmnt("print 1 + 2 );");
    assert_eq!(
        result,
        Err(ParserError::UnexpectedToken {
            expected: TokenKind::SemicolonK,
            was: TokenKind::RParenK
        })
    );
}

#[test]
fn invalid_expressions() {
    assert_eq!(parse_expr_at(" 1 2"), Err((ParserError::InvalidBinaryExpression, 1)));
    assert_eq!(parse_expr_at(";"), Err((ParserError::InvalidBinaryExpression, 0)));
    assert_eq!(parse_expr_at("* 2"), Err((ParserError::IncompleteExpression, 0)));
    assert_eq!(parse_expr_at("(+)"), Err((ParserError::IncompleteExpression, 0)));
    assert_eq!(parse_expr_at(" !"), Err((ParserError::IncompleteExpression, 1)));
}

#[test]
fn lexer_error_inside_expression() {
    assert_eq!(
        parse_expr_at("1 + \"abc"),
        Err((
            ParserError::LexerError(miniplrs::common::errors::LexerError::UnterminatedStringLiteral),
            8
        ))
    );
}

#[test]
fn statements_of_every_kind() {
    assert_eq!(parse_stmnt("print 1;"), Ok(Statement::Print(num(1))));
    assert_eq!(parse_stmnt("read x;"), Ok(Statement::Read("x".to_string())));
    assert_eq!(parse_stmnt("assert x;"), Ok(Statement::Assert(var("x"))));
    assert_eq!(
        parse_stmnt("x := 1;"),
        Ok(Statement::Assign("x".to_string(), num(1)))
    );
    assert_eq!(
        parse_stmnt("var x : string;"),
        Ok(Statement::Declare {
            name: "x".to_string(),
            type_of: TypeName::StringType,
            initial: None
        })
    );
    assert_eq!(
        parse_stmnt("var x : int := 1 + 2;"),
        Ok(Statement::Declare {
            name: "x".to_string(),
            type_of: TypeName::IntType,
            initial: Some(binary(BinaryOperator::Add, num(1), num(2)))
        })
    );
}

#[test]
fn for_statement_with_positions() {
    let src = "for i in 0..2 do print i; end for;";
    let program = parse_all(src).unwrap();
    assert_eq!(
        program,
        vec![StatementWithCtx {
            source_position: 0..34,
            statement: Statement::For {
                variable: "i".to_string(),
                from: num(0),
                to: num(2),
                run: vec![StatementWithCtx {
                    source_position: 17..25,
                    statement: Statement::Print(var("i"))
                }]
            }
        }]
    );
}

#[test]
fn statement_positions_run_from_first_token_to_after_the_semicolon() {
    let program = parse_all("  print 1 ;\n\nprint 2;  ").unwrap();
    assert_eq!(program.len(), 2);
    assert_eq!(program[0].source_position, 2..11);
    assert_eq!(program[1].source_position, 13..21);
}

#[test]
fn unknown_statement() {
    assert_eq!(
        parse_stmnt("; print 1;"),
        Err(ParserError::UnknownStatement { first: TokenKind::SemicolonK })
    );
    assert_eq!(
        parse_stmnt("12;"),
        Err(ParserError::UnknownStatement { first: TokenKind::LiteralK })
    );
}

#[test]
fn missing_semicolon_at_the_end() {
    assert_eq!(
        parse_all("print \"Hello, world!\""),
        Err(vec![(
            ParserError::UnexpectedToken {
                expected: TokenKind::SemicolonK,
                was: TokenKind::EndOfFileK
            },
            21
        )])
    );
}

#[test]
fn recovery_reports_every_error() {
    let errors = parse_all("print ; x := ; print 3;").unwrap_err();
    assert_eq!(
        errors,
        vec![
            (ParserError::InvalidBinaryExpression, 6),
            (ParserError::InvalidBinaryExpression, 13)
        ]
    );
}

#[test]
fn statements_after_an_error_are_dropped() {
    let errors = parse_all("print 1 2; print 3;").unwrap_err();
    assert_eq!(errors, vec![(ParserError::InvalidBinaryExpression, 6)]);
}

#[test]
fn recovery_stops_at_the_end_of_the_text() {
    let errors = parse_all("print 1; var").unwrap_err();
    assert_eq!(
        errors,
        vec![(
            ParserError::UnexpectedToken {
                expected: TokenKind::IdentifierK,
                was: TokenKind::EndOfFileK
            },
            12
        )]
    );
}

#[test]
fn end_without_a_loop_is_not_the_end_of_a_program() {
    let errors = parse_all("print 1; end for;").unwrap_err();
    assert_eq!(
        errors,
        vec![(
            ParserError::UnexpectedToken {
                expected: TokenKind::EndOfFileK,
                was: TokenKind::EndK
            },
            9
        )]
    );
}

#[test]
fn try_recover_passes_the_next_semicolon() {
    let mut parser = create_parser("a b c ; print 1;");
    assert!(parser.try_recover());
    assert_eq!(parser.parse_statement().map_err(|_| ()), Ok(Statement::Print(num(1))));
    assert!(!parser.try_recover());
}

#[test]
fn parser_error_messages() {
    let error: ParserErrorWithCtx = ErrWithCtx(
        ParserError::UnexpectedToken {
            expected: TokenKind::SemicolonK,
            was: TokenKind::EndOfFileK,
        },
        7,
    );
    assert_eq!(error.get_offset(), 7);
    assert_eq!(
        error.get_reason().unwrap(),
        "Unexpected token. Expected SemicolonK, was EndOfFileK"
    );
    assert_eq!(
        ParserError::UnknownStatement { first: TokenKind::RParenK }.get_reason().unwrap(),
        "Unknown starting token: RParenK"
    );
    assert_eq!(
        ParserError::MissingRParen.get_reason().unwrap(),
        "Unbalanced parenthesis in expression (probably missing right parenthesis?)"
    );
    assert_eq!(ParserError::IncompleteExpression.get_reason().unwrap(), "Incomplete expression.");
    assert_eq!(ParserError::InvalidBinaryExpression.get_reason().unwrap(), "Invalid expression.");
    assert_eq!(
        ParserError::LexerError(miniplrs::common::errors::LexerError::UnknownToken("#".to_string()))
            .get_reason()
            .unwrap(),
        "Lexer error: Encountered an unknown token (starting with #)."
    );
}
