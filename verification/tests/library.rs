use std::rc::Rc;

use miniplrs::common::configuration::{parse_command_line_args, LogLevel, Options};
use miniplrs::common::errors::{
    AddCtxToError, AddCtxToResult, CharStreamError, ErrWithCtx, ErrorWithContext, ErrorWithReason,
    LexerError, ParserError,
};
use miniplrs::common::logger::{Logger, NullLogger};
use miniplrs::common::text::{format_decimal, parse_int, string_less};
use miniplrs::common::types::{
    Arity, BinaryOperator, LiteralValue, Operator, TypeName, UnaryOperator, Value,
};
use miniplrs::common::util::{ResultExt, VecExt};
use miniplrs::diagnostics::file_context::{
    format_source_quote_line, FileContextSource, FilePosition,
};
use miniplrs::diagnostics::report::format_errors;
use miniplrs::parsing::char_stream::CharStream;
use miniplrs::parsing::token::TokenKind;
use miniplrs::parsing::util::{
    is_letter, is_number, is_valid_identifier, is_valid_in_identifier, is_whitespace,
};
use miniplrs::run_script_traced;
use miniplrs::runtime::semantics::RuntimeError;
use miniplrs::runtime::{MemoryIo, TracedIo};
use miniplrs::semantic::type_checker::TypeError;
use miniplrs::ExecutionError;

fn strings(items: &[&str]) -> Vec<String> {
    items.iter().map(|s| s.to_string()).collect()
}

#[test]
fn default_values() {
    assert_eq!(TypeName::IntType.get_default_value(), Value::IntV(0));
    assert_eq!(TypeName::StringType.get_default_value(), Value::StringV("".to_string()));
    assert_eq!(TypeName::BoolType.get_default_value(), Value::BoolV(false));
}

#[test]
fn value_types_and_display() {
    assert_eq!(Value::IntV(-12).get_type(), TypeName::IntType);
    assert_eq!(Value::StringV("a".to_string()).get_type(), TypeName::StringType);
    assert_eq!(Value::BoolV(true).get_type(), TypeName::BoolType);
    assert_eq!(Value::IntV(-12).to_string(), "-12");
    assert_eq!(Value::IntV(0).to_string(), "0");
    assert_eq!(Value::IntV(i32::MIN).to_string(), "-2147483648");
    assert_eq!(Value::IntV(i32::MAX).to_string(), "2147483647");
    assert_eq!(Value::StringV("a \"b\"".to_string()).to_string(), "a \"b\"");
    assert_eq!(Value::BoolV(true).to_string(), "true");
    assert_eq!(Value::BoolV(false).to_string(), "false");
}

#[test]
fn value_from_literal() {
    assert_eq!(Value::from(LiteralValue::IntLiteral(3)), Value::IntV(3));
    assert_eq!(
        Value::from(LiteralValue::StringLiteral("x".to_string())),
        Value::StringV("x".to_string())
    );
}

#[test]
fn value_order() {
    assert!(Value::IntV(1).less_than(&Value::IntV(2)));
    assert!(!Value::IntV(2).less_than(&Value::IntV(2)));
    assert!(Value::BoolV(false).less_than(&Value::BoolV(true)));
    assert!(!Value::BoolV(true).less_than(&Value::BoolV(false)));
    let s = |x: &str| Value::StringV(x.to_string());
    assert!(s("aaa").less_than(&s("bbb")));
    assert!(!s("bbb").less_than(&s("aaa")));
    assert!(s("ab").less_than(&s("abc")));
    assert!(!s("abc").less_than(&s("ab")));
    assert!(!s("").less_than(&s("")));
    assert!(s("").less_than(&s("a")));
    assert!(s("Z").less_than(&s("a")));
    assert!(!Value::IntV(1).less_than(&s("a")));
    assert!(s("x").equals(&s("x")));
    assert!(!s("x").equals(&s("y")));
    assert!(!Value::IntV(1).equals(&Value::BoolV(true)));
}

#[test]
fn operator_precedence_and_arity() {
    let b = Operator::BinaryOperator;
    assert_eq!(Operator::UnaryOperator(UnaryOperator::Not).get_precedence(), 3);
    assert_eq!(b(BinaryOperator::Mul).get_precedence(), 2);
    assert_eq!(b(BinaryOperator::Div).get_precedence(), 2);
    assert_eq!(b(BinaryOperator::Add).get_precedence(), 1);
    assert_eq!(b(BinaryOperator::Sub).get_precedence(), 1);
    assert_eq!(b(BinaryOperator::And).get_precedence(), 1);
    assert_eq!(b(BinaryOperator::LessThan).get_precedence(), 0);
    assert_eq!(b(BinaryOperator::Equal).get_precedence(), 0);
    assert_eq!(b(BinaryOperator::Add).get_arity(), Arity::Binary);
    assert_eq!(Operator::UnaryOperator(UnaryOperator::Not).get_arity(), Arity::Unary);
}

#[test]
fn decimal_numerals() {
    assert_eq!(format_decimal(0), "0");
    assert_eq!(format_decimal(7), "7");
    assert_eq!(format_decimal(10), "10");
    assert_eq!(format_decimal(-305), "-305");
    assert_eq!(parse_int("0"), Some(0));
    assert_eq!(parse_int("-0"), Some(0));
    assert_eq!(parse_int("+15"), Some(15));
    assert_eq!(parse_int("-2147483648"), Some(i32::MIN));
    assert_eq!(parse_int("2147483647"), Some(i32::MAX));
    assert_eq!(parse_int("2147483648"), None);
    assert_eq!(parse_int("-2147483649"), None);
    assert_eq!(parse_int(""), None);
    assert_eq!(parse_int("-"), None);
    assert_eq!(parse_int("+"), None);
    assert_eq!(parse_int(" 1"), None);
    assert_eq!(parse_int("1 "), None);
    assert_eq!(parse_int("1-"), None);
    assert_eq!(parse_int("0x10"), None);
    assert_eq!(parse_int("007"), Some(7));
}

#[test]
fn lexicographic_order() {
    assert!(string_less("a", "b"));
    assert!(!string_less("b", "a"));
    assert!(!string_less("a", "a"));
    assert!(string_less("a", "aa"));
    assert!(string_less("é", "ê"));
}

#[test]
fn character_classes() {
    assert!(is_whitespace(' ') && is_whitespace('\r') && is_whitespace('\n') && is_whitespace('\t'));
    assert!(!is_whitespace('a'));
    assert!(is_number('0') && is_number('9') && !is_number('a'));
    assert!(is_letter('A') && is_letter('Z') && is_letter('a') && is_letter('z'));
    assert!(!is_letter('[') && !is_letter('_') && !is_letter('`') && !is_letter('1'));
    assert!(is_valid_in_identifier('_') && is_valid_in_identifier('7') && !is_valid_in_identifier('-'));
    assert!(is_valid_identifier("a_1"));
    assert!(!is_valid_identifier(""));
    assert!(!is_valid_identifier("1a"));
    assert!(!is_valid_identifier("_a"));
    assert!(!is_valid_identifier("a-b"));
}

#[test]
fn char_stream_cursor() {
    let mut stream = CharStream::new("ab, c");
    assert_eq!(stream.offset(), 0);
    assert_eq!(stream.peek(), Ok('a'));
    stream.advance();
    assert_eq!(stream.peek(), Ok('b'));
    assert_eq!(stream.offset(), 1);
    let taken: String = stream.take_until(|c| c == ' ').iter().collect();
    assert_eq!(taken, "b,");
    assert_eq!(stream.offset(), 3);
    stream.advance_until(|c| c == 'z');
    assert!(stream.reached_end());
    assert_eq!(stream.offset(), 5);
    assert_eq!(stream.peek(), Err(CharStreamError::EndOfFile));
    stream.advance();
    assert_eq!(stream.offset(), 5);
    let nothing = stream.take_until(|_| false);
    assert!(nothing.is_empty());
}

#[test]
fn char_stream_counts_characters() {
    let mut stream = CharStream::new("éa");
    stream.advance();
    assert_eq!(stream.offset(), 1);
    assert_eq!(stream.peek(), Ok('a'));
}

#[test]
fn lexer_error_reasons() {
    assert_eq!(LexerError::OutOfTokens.get_reason().unwrap(), "Out of input.");
    assert_eq!(
        LexerError::UnknownToken("#".to_string()).get_reason().unwrap(),
        "Encountered an unknown token (starting with #)."
    );
    assert_eq!(
        LexerError::UnknownEscapeCode("q".to_string()).get_reason().unwrap(),
        "Unknown escape character in string literal: q"
    );
    assert_eq!(
        LexerError::UnterminatedStringLiteral.get_reason().unwrap(),
        "Unterminated string literal."
    );
    assert_eq!(LexerError::InvalidNumberLiteral.get_reason().unwrap(), "Invalid number literal.");
    assert_eq!(
        LexerError::UnterminatedComment.get_reason().unwrap(),
        "Unterminated comment literal."
    );
    assert_eq!(
        LexerError::CharStreamError(CharStreamError::EndOfFile).get_reason().unwrap(),
        "Character stream error: Unexpected end of file."
    );
    assert_eq!(LexerError::IOError("gone".to_string()).get_reason().unwrap(), "IO error: gone");
    assert_eq!(CharStreamError::EndOfFile.get_reason().unwrap(), "Unexpected end of file.");
}

#[test]
fn errors_with_context() {
    let tagged = LexerError::InvalidNumberLiteral.with_ctx(4);
    assert_eq!(tagged.get_offset(), 4);
    assert_eq!(tagged.get_reason().unwrap(), "Invalid number literal.");
    let ok: Result<u8, LexerError> = Ok(1);
    assert!(matches!(ok.with_ctx(9), Ok(1)));
    let failed: Result<u8, LexerError> = Err(LexerError::OutOfTokens);
    assert!(matches!(failed.with_ctx(9), Err(ErrWithCtx(LexerError::OutOfTokens, 9))));
    let lifted: ErrWithCtx<ParserError> = ErrWithCtx(LexerError::OutOfTokens, 3).into();
    assert_eq!(lifted.0, ParserError::LexerError(LexerError::OutOfTokens));
    assert_eq!(lifted.1, 3);
    assert_eq!(
        LexerError::from(CharStreamError::EndOfFile),
        LexerError::CharStreamError(CharStreamError::EndOfFile)
    );
}

#[test]
fn vec_and_result_extensions() {
    let mut v = vec![1, 2, 3, 8, 9];
    v.pop_while(|x| *x > 5);
    assert_eq!(v, [1, 2, 3]);
    v.pop_while(|x| *x > 5);
    assert_eq!(v, [1, 2, 3]);
    v.pop_while(|_| true);
    assert!(v.is_empty());
    let failed: Result<u8, &str> = Err("x");
    assert_eq!(failed.vec_err(), Err(vec!["x"]));
    let ok: Result<u8, &str> = Ok(2);
    assert_eq!(ok.vec_err(), Ok(2));
}

#[test]
fn null_logger_is_silent() {
    let logger = NullLogger;
    assert_eq!(logger.log_level(), LogLevel::Normal);
    logger.write_line("dropped");
}

#[test]
fn command_line_defaults() {
    let options = Options::default();
    assert_eq!(options.log_level, LogLevel::Normal);
    assert_eq!(options.input_file, "./minipl/hello.pl");
    let (options, unknown) = parse_command_line_args(strings(&["prog"])).unwrap();
    assert_eq!(options.log_level, LogLevel::Normal);
    assert_eq!(options.input_file, "./minipl/hello.pl");
    assert!(unknown.is_empty());
    let (options, _) = parse_command_line_args(strings(&[])).unwrap();
    assert_eq!(options.input_file, "./minipl/hello.pl");
}

#[test]
fn command_line_flags() {
    let (options, unknown) =
        parse_command_line_args(strings(&["prog", "-v", "--what", "-f", "a.pl", "x", "--file", "b.pl"]))
            .unwrap();
    assert_eq!(options.log_level, LogLevel::Debug);
    assert_eq!(options.input_file, "b.pl");
    assert_eq!(unknown, ["--what", "x"]);
    for flag in ["--verbose", "--debug", "-v"] {
        let (options, _) = parse_command_line_args(strings(&["prog", flag])).unwrap();
        assert_eq!(options.log_level, LogLevel::Debug);
    }
    // The first argument is the name of the program, whatever it looks like.
    let (options, _) = parse_command_line_args(strings(&["-v"])).unwrap();
    assert_eq!(options.log_level, LogLevel::Normal);
    // The argument after a file flag is a file name, whatever it looks like.
    let (options, _) = parse_command_line_args(strings(&["prog", "-f", "-v"])).unwrap();
    assert_eq!((options.log_level, options.input_file.as_str()), (LogLevel::Normal, "-v"));
}

#[test]
fn command_line_without_file_name() {
    assert!(parse_command_line_args(strings(&["prog", "--file"])).is_none());
    assert!(parse_command_line_args(strings(&["prog", "-v", "-f"])).is_none());
}

#[test]
fn file_context_rows_and_columns() {
    let ctx = FileContextSource::from_str("ab\n\ncd", None);
    assert_eq!(
        ctx.lines,
        vec![(0, "ab".to_string()), (3, "".to_string()), (4, "cd".to_string())]
    );
    let at = |offset| ctx.decode_offset(offset).map(|p: FilePosition| (p.offset, p.row, p.column));
    assert_eq!(at(0), Some((0, 1, 1)));
    assert_eq!(at(1), Some((1, 1, 2)));
    assert_eq!(at(2), Some((2, 1, 3)));
    assert_eq!(at(3), Some((3, 2, 1)));
    assert_eq!(at(4), Some((4, 3, 1)));
    assert_eq!(at(6), Some((6, 3, 3)));
    assert_eq!(at(7), None);
}

#[test]
fn file_context_of_empty_and_terminated_texts() {
    let empty = FileContextSource::from_str("", Some("f.pl".to_string()));
    assert_eq!(empty.lines, vec![(0, "".to_string())]);
    assert_eq!(empty.file_name, Some("f.pl".to_string()));
    assert!(empty.decode_offset(0).is_some());
    assert!(empty.decode_offset(1).is_none());
    let terminated = FileContextSource::from_str("a;\n", None);
    assert_eq!(terminated.lines, vec![(0, "a;".to_string()), (3, "".to_string())]);
    let end = terminated.decode_offset(3).unwrap();
    assert_eq!((end.row, end.column), (2, 1));
}

#[test]
fn file_context_counts_characters() {
    let ctx = FileContextSource::from_str("éé\nx", None);
    assert_eq!(ctx.lines, vec![(0, "éé".to_string()), (3, "x".to_string())]);
    let p = ctx.decode_offset(3).unwrap();
    assert_eq!((p.row, p.column), (2, 1));
}

#[test]
fn file_context_lines() {
    let ctx = FileContextSource::from_str("ab\n\ncd", None);
    assert_eq!(ctx.get_line(0), None);
    assert_eq!(ctx.get_line(1), Some("ab".to_string()));
    assert_eq!(ctx.get_line(3), Some("cd".to_string()));
    assert_eq!(ctx.get_line(4), None);
    assert_eq!(ctx.get_range_lines(&(0..1)), ["ab"]);
    assert_eq!(ctx.get_range_lines(&(1..5)), ["ab", "", "cd"]);
    assert_eq!(ctx.get_range_lines(&(2..3)), ["ab", ""]);
    assert!(ctx.get_range_lines(&(5..1)).is_empty());
    assert!(ctx.get_range_lines(&(0..9)).is_empty());
    assert!(ctx.get_range_lines(&(9..10)).is_empty());
}

#[test]
fn source_quotes() {
    assert_eq!(format_source_quote_line(9, "x;"), "[   9]  x;\n");
    assert_eq!(format_source_quote_line(1234, ""), "[1234]  \n");
    assert_eq!(format_source_quote_line(12345, "y"), "[12345]  y\n");
    let ctx = FileContextSource::from_str("ab\n\ncd", None);
    assert_eq!(ctx.get_source_quote(&(0..2)), "[   1]  ab\n");
    assert_eq!(ctx.get_source_quote(&(1..4)), "[   1]  ab\n[   2]  \n[   3]  cd\n");
    assert_eq!(ctx.get_source_quote(&(4..9)), "");
    assert_eq!(ctx.get_source_quote(&(9..9)), "");
}

#[test]
fn error_report() {
    let source = "print 1;\nprint ;\nprint 3;\n";
    let ctx = FileContextSource::from_str(source, Some("t.pl".to_string()));
    let errors = vec![
        ExecutionError::ParserError(ErrWithCtx(ParserError::InvalidBinaryExpression, 15)),
        ExecutionError::TypeError(TypeError::UndeclaredIdentifier("a".to_string())),
        ExecutionError::TypeError(TypeError::AssignToImmutable("i".to_string())),
        ExecutionError::RuntimeError(RuntimeError::DivisionByZero),
    ];
    assert_eq!(
        format_errors(&errors, &ctx),
        "Encountered 4 errors in t.pl:\n\n\
         On row 2, column 7:\n\
         Parser error: Invalid expression.\n\
         [   1]  print 1;\n\
         [   2]  print ;\n\
         [   3]  print 3;\n\
         \n\
         Type error: Identifier a was used before declaration.\n\
         Type error.\n\
         Runtime error: Division by zero.\n"
    );
}

#[test]
fn error_report_of_one_error_on_the_first_row() {
    let ctx = FileContextSource::from_str("print", None);
    let errors = vec![ExecutionError::ParserError(ErrWithCtx(
        ParserError::UnexpectedToken {
            expected: TokenKind::SemicolonK,
            was: TokenKind::EndOfFileK,
        },
        5,
    ))];
    assert_eq!(
        format_errors(&errors, &ctx),
        "Encountered 1 error:\n\n\
         On row 1, column 6:\n\
         Parser error: Unexpected token. Expected SemicolonK, was EndOfFileK\n\
         [   1]  print\n\
         \n"
    );
}

#[test]
fn error_report_without_a_position() {
    let ctx = FileContextSource::from_str("x", None);
    let errors = vec![ExecutionError::ParserError(ErrWithCtx(ParserError::MissingRParen, 40))];
    assert_eq!(
        format_errors(&errors, &ctx),
        "Encountered 1 error:\n\n\
         Parser error: Unbalanced parenthesis in expression (probably missing right parenthesis?)\n"
    );
    assert_eq!(format_errors(&Vec::new(), &ctx), "Encountered 0 errors:\n\n");
}

#[test]
fn memory_io_hands_out_its_lines_in_order() {
    let mut io = MemoryIo::new(strings(&["a", "b"]));
    assert_eq!(io.read_line(), "a");
    io.write("x");
    assert_eq!(io.read_line(), "b");
    assert_eq!(io.read_line(), "");
    io.write("");
    io.write("y\n");
    assert_eq!(io.output(), ["x", "", "y\n"]);
}

#[test]
fn script_on_memory_io() {
    let mut io = MemoryIo::new(strings(&["4", "ignored"]));
    let result = run_script_traced(
        "var n:int; read n; var i:int; for i in 1..n do print i * i; end for;",
        &mut io,
        None,
    );
    assert!(result.is_ok());
    assert_eq!(io.output(), ["1", "4", "9", "16"]);
    assert_eq!(io.read_line(), "ignored");
}

#[test]
fn script_quotes_the_given_file_context() {
    let source = "assert 1 = 2;";
    let elsewhere = Rc::new(FileContextSource::from_str("first\nsecond!", None));
    let mut io = MemoryIo::new(Vec::new());
    assert!(run_script_traced(source, &mut io, Some(elsewhere)).is_ok());
    assert_eq!(io.output(), ["ASSERTION FAILED:\n[   1]  first\n[   2]  second!\n"]);
    let short = Rc::new(FileContextSource::from_str("x", None));
    let mut io = MemoryIo::new(Vec::new());
    assert!(run_script_traced(source, &mut io, Some(short)).is_ok());
    assert_eq!(io.output(), ["ASSERTION FAILED:\n"]);
}

#[test]
fn read_then_print_gives_the_line_back() {
    for line in ["", "Neat", " spaced  out ", "42"] {
        let mut io = MemoryIo::new(strings(&[line]));
        assert!(run_script_traced("var x:string; read x; print x;", &mut io, None).is_ok());
        assert_eq!(io.output(), [line]);
    }
    for (line, shown) in [("42", "42"), ("+7", "7"), ("-0", "0"), ("0012", "12")] {
        let mut io = MemoryIo::new(strings(&[line]));
        assert!(run_script_traced("var x:int; read x; print x;", &mut io, None).is_ok());
        assert_eq!(io.output(), [shown]);
    }
}

#[test]
fn double_negation_and_commuting_operands() {
    let mut io = MemoryIo::new(Vec::new());
    let source = "var a:int := 7; var b:int := 0 - 3;\
                  assert (!!(a < b)) = (a < b); assert (!!(b < a)) = (b < a);\
                  assert a + b = b + a; assert a * b = b * a;\
                  print a + b; print a * b;";
    assert!(run_script_traced(source, &mut io, None).is_ok());
    assert_eq!(io.output(), ["4", "-21"]);
}
