use miniplrs::common::errors::{ErrWithCtx, LexerError, ParserError};
use miniplrs::parsing::token::TokenKind;
use miniplrs::run_script;
use miniplrs::runtime::semantics::RuntimeError;
use miniplrs::runtime::Io;
use miniplrs::semantic::type_checker::TypeError;
use miniplrs::ExecutionError;

struct TestIo {
    input: Vec<String>,
    output: Vec<String>,
}

impl TestIo {
    fn new(input: &[&str]) -> TestIo {
        TestIo { input: input.iter().map(|s| s.to_string()).collect(), output: Vec::new() }
    }
}

impl Io for TestIo {
    fn write(&mut self, line: &str) {
        self.output.push(line.to_string());
    }

    fn read_line(&mut self) -> String {
        self.input.remove(0)
    }
}

fn run(source: &str, input: &[&str]) -> (Result<(), Vec<ExecutionError>>, Vec<String>) {
    let mut io = TestIo::new(input);
    let result = run_script(source, &mut io, None);
    (result, io.output)
}

fn run_ok(source: &str, input: &[&str], output: &[&str]) {
    let (result, written) = run(source, input);
    assert!(matches!(result, Ok(_)), "{:?}", result);
    assert_eq!(written, output);
}

#[test]
fn empty_program() {
    run_ok("", &[], &[]);
}

#[test]
fn hello_world() {
    run_ok(
        r#"
    print "Hello, world!";
  "#,
        &[],
        &["Hello, world!"],
    );
}

#[test]
fn hello_world_without_semicolon() {
    let (result, written) = run(
        r#"
    print "Hello, world!"
  "#,
        &[],
    );
    let errors = result.unwrap_err();
    assert!(matches!(
        errors.as_slice(),
        &[ExecutionError::ParserError(ErrWithCtx(
            ParserError::UnexpectedToken {
                expected: TokenKind::SemicolonK,
                was: TokenKind::EndOfFileK
            },
            _
        ))]
    ));
    assert!(written.is_empty());
}

#[test]
fn bool_operators() {
    run_ok(
        r#"
    var a : int := 10;
    var b : int := 20;
    var c : bool := !(a = b) = !(b = a);
    assert c;
  "#,
        &[],
        &[],
    );
}

#[test]
fn assignment_valid() {
    run_ok(
        r#"
    var a : int := 10;
    print a;
    a := 20;
    print a;
  "#,
        &[],
        &["10", "20"],
    );
}

#[test]
fn assignment_non_existant_identifier() {
    let (result, written) = run(
        r#"
    a := 10;
    print a;
  "#,
        &[],
    );
    let errors = result.unwrap_err();
    assert_eq!(errors.len(), 1);
    match &errors[0] {
        ExecutionError::TypeError(TypeError::UndeclaredIdentifier(name)) => assert_eq!(name, "a"),
        other => panic!("{:?}", other),
    }
    assert!(written.is_empty());
}

#[test]
fn read_roundtrip_string() {
    run_ok(
        r#"
    var a : string;
    read a;
    print a;
  "#,
        &["Neat"],
        &["Neat"],
    );
}

#[test]
fn read_int_add() {
    run_ok(
        r#"
    var a : int;
    read a;
    a := a + 101;
    print a;
  "#,
        &["22"],
        &["123"],
    );
}

#[test]
fn for_basic() {
    run_ok(
        r#"
    var i : int;
    for i in 0 .. 3 do
      print i;
    end for;
  "#,
        &[],
        &["0", "1", "2", "3"],
    );
}

#[test]
fn for_nested() {
    run_ok(
        r#"
    var x : int;
    for x in 1 .. 3 do
      var y: int;
      for y in 1 .. 3 do
        print x * y;
      end for;
    end for;
  "#,
        &[],
        &["1", "2", "3", "2", "4", "6", "3", "6", "9"],
    );
}

#[test]
fn arithmetic_sub_order() {
    run_ok(
        r#"
    var x : int := 3;
    var y : int := 5;
    print x - y;
    print y - x;
    print x - x;
    print y - y;
  "#,
        &[],
        &["-2", "2", "0", "0"],
    );
}

#[test]
fn arithmetic_div_uses_truncation() {
    run_ok(
        r#"
    print 10 / 2;
    print 10 / 3;
    print 100 / 101;
  "#,
        &[],
        &["5", "3", "0"],
    );
}

#[test]
fn string_comparison() {
    run_ok(
        r#"
    assert "aaa" < "bbb";
    assert !("bbb" < "aaa");
    assert "bbb" < "ccc";
  "#,
        &[],
        &[],
    );
}

#[test]
fn logic_operators_mix() {
    run_ok(
        r#"
    assert (1 = 1) &
           (1 < 2) &
           (!(1 = 2) & !(2 = 1));
  "#,
        &[],
        &[],
    );
}

#[test]
fn loop_variable_mutability() {
    let (result, written) = run(
        r#"
    var i : int;
    for i in 0 .. 10 do
      i := 100;
    end for;
  "#,
        &[],
    );
    let errors = result.unwrap_err();
    assert_eq!(errors.len(), 1);
    match &errors[0] {
        ExecutionError::TypeError(TypeError::AssignToImmutable(name)) => assert_eq!(name, "i"),
        other => panic!("{:?}", other),
    }
    assert!(written.is_empty());
}

#[test]
fn comments() {
    run_ok(
        r#"
    // Line comment!
    /*
      Block comment!
    */
    assert 1 = 1;
  "#,
        &[],
        &[],
    );
}

#[test]
fn just_comments() {
    run_ok(
        r#"
    // Line comment!
    /*Block comment!*/
  "#,
        &[],
        &[],
    );
}

#[test]
fn invalid_block_comment_1() {
    let (result, written) = run(r#"/*/"#, &[]);
    let errors = result.unwrap_err();
    assert!(matches!(
        errors.as_slice(),
        &[ExecutionError::ParserError(ErrWithCtx(
            ParserError::LexerError(LexerError::UnterminatedComment),
            _
        ))]
    ));
    assert!(written.is_empty());
}

#[test]
fn invalid_block_comment_2() {
    let (result, written) = run(r#"/* * * * * * / * / * / **"#, &[]);
    let errors = result.unwrap_err();
    assert!(matches!(
        errors.as_slice(),
        &[ExecutionError::ParserError(ErrWithCtx(
            ParserError::LexerError(LexerError::UnterminatedComment),
            _
        ))]
    ));
    assert!(written.is_empty());
}

#[test]
fn unterminated_block_comment_scenario() {
    let (result, _) = run("/* * * / *", &[]);
    let errors = result.unwrap_err();
    assert!(matches!(
        errors.as_slice(),
        &[ExecutionError::ParserError(ErrWithCtx(
            ParserError::LexerError(LexerError::UnterminatedComment),
            10
        ))]
    ));
}

#[test]
fn example_program_1() {
    run_ok(
        r#"
    var X : int := 4 + (6 * 2);
    print X;
  "#,
        &[],
        &["16"],
    );
}

#[test]
fn example_program_2() {
    run_ok(
        r#"var nTimes : int := 0;
print "How many times?";
read nTimes;
var x : int;
for x in 0..nTimes-1 do
    print x;
    print " : Hello, World!\n";
end for;
assert (x = nTimes);
"#,
        &["3"],
        &[
            "How many times?",
            "0",
            " : Hello, World!\n",
            "1",
            " : Hello, World!\n",
            "2",
            " : Hello, World!\n",
            "ASSERTION FAILED:\n[   9]  assert (x = nTimes);\n",
        ],
    );
}

#[test]
fn example_program_3() {
    run_ok(
        r#"print "Give a number";
var n : int;
read n;
var v : int := 1;
var i : int;
for i in 1..n do
    v := v * i;
end for;
print "The result is: ";
print v;
"#,
        &["5"],
        &["Give a number", "The result is: ", "120"],
    );
}

#[test]
fn print_uninitialised_variable() {
    run_ok(
        r#"
    var a : int;
    print a;

    var b : string;
    print b;
  "#,
        &[],
        &["0", ""],
    );
}

#[test]
fn hello_world_one_line() {
    run_ok("print \"Hello, world!\";", &[], &["Hello, world!"]);
}

#[test]
fn two_prints_two_chunks() {
    run_ok("print \"foo\"; print 7;", &[], &["foo", "7"]);
}

#[test]
fn loop_runs_once_for_each_integer() {
    run_ok("var i:int; for i in 5..5 do print i; end for;", &[], &["5"]);
    run_ok("var i:int; for i in 0-2..1 do print i; end for;", &[], &["-2", "-1", "0", "1"]);
}

#[test]
fn loop_with_bounds_out_of_order_runs_no_pass() {
    run_ok("var i:int := 7; for i in 3..2 do print i; end for; print i;", &[], &["7"]);
}

#[test]
fn loop_variable_keeps_its_last_value() {
    run_ok("var i:int; for i in 1..3 do end for; print i;", &[], &["3"]);
}

#[test]
fn loop_up_to_the_greatest_integer() {
    run_ok(
        "var i:int; for i in 2147483646..2147483647 do print i; end for;",
        &[],
        &["2147483646", "2147483647"],
    );
}

#[test]
fn loop_bounds_are_evaluated_once() {
    run_ok(
        "var n:int := 2; var i:int; for i in 1..n do n := 5; print i; end for;",
        &[],
        &["1", "2"],
    );
}

#[test]
fn arithmetic_wraps_round() {
    run_ok("print 2147483647 + 1;", &[], &["-2147483648"]);
    run_ok("print (0 - 2147483647) - 2;", &[], &["2147483647"]);
    run_ok("print 0 - 2147483647 - 2;", &[], &["2147483647"]);
    run_ok("print 65536 * 65536;", &[], &["0"]);
    run_ok("print ((0 - 2147483647) - 1) / (0 - 1);", &[], &["-2147483648"]);
}

#[test]
fn chains_of_one_level_run_from_the_left() {
    run_ok("print 10 - 4 - 3; print 100 / 10 / 5; print 2 - 3 + 4;", &[], &["3", "2", "3"]);
    run_ok("print \"a\" + \"b\" + \"c\";", &[], &["abc"]);
}

#[test]
fn division_rounds_toward_zero() {
    run_ok("print (0 - 7) / 2; print 7 / (0 - 2); print (0 - 7) / (0 - 2);", &[], &["-3", "-3", "3"]);
}

#[test]
fn division_by_zero_stops_the_run() {
    let (result, written) = run("print 1; print 1 / 0; print 2;", &[]);
    let errors = result.unwrap_err();
    assert!(matches!(
        errors.as_slice(),
        &[ExecutionError::RuntimeError(RuntimeError::DivisionByZero)]
    ));
    assert_eq!(written, ["1"]);
}

#[test]
fn reading_a_bad_integer_stops_the_run() {
    let (result, written) = run("var a:int; read a; print a;", &["12x"]);
    let errors = result.unwrap_err();
    assert!(matches!(
        errors.as_slice(),
        &[ExecutionError::RuntimeError(RuntimeError::InvalidInteger)]
    ));
    assert!(written.is_empty());
}

#[test]
fn reading_signed_integers() {
    run_ok("var a:int; read a; print a; read a; print a;", &["-12", "+7"], &["-12", "7"]);
}

#[test]
fn string_concatenation_and_equality() {
    run_ok(
        "var s:string := \"ab\" + \"cd\"; print s; assert s = \"abcd\"; assert \"a\" < \"ab\";",
        &[],
        &["abcd"],
    );
}

#[test]
fn failed_assertion_quotes_every_line_of_the_statement() {
    run_ok(
        "assert 1 =\n  2;\nprint 3;",
        &[],
        &["ASSERTION FAILED:\n[   1]  assert 1 =\n[   2]    2;\n", "3"],
    );
}

#[test]
fn type_errors() {
    let first = |source: &str| -> TypeError {
        let (result, written) = run(source, &[]);
        assert!(written.is_empty());
        let mut errors = result.unwrap_err();
        assert_eq!(errors.len(), 1);
        match errors.remove(0) {
            ExecutionError::TypeError(error) => error,
            other => panic!("{:?}", other),
        }
    };
    assert_eq!(
        first("var a:int; var a:string;"),
        TypeError::RedeclaredIdentifier("a".to_string())
    );
    assert_eq!(
        first("var a:int; var i:int; for i in 0..1 do var a:int; end for;"),
        TypeError::RedeclaredIdentifier("a".to_string())
    );
    assert_eq!(first("print a;"), TypeError::UndeclaredIdentifier("a".to_string()));
    assert_eq!(
        first("var a:int := \"x\";"),
        TypeError::IncompatibleTypes { expected: TypeName::IntType, was: TypeName::StringType }
    );
    assert_eq!(
        first("var a:string; a := 1;"),
        TypeError::IncompatibleTypes { expected: TypeName::StringType, was: TypeName::IntType }
    );
    assert_eq!(
        first("print 1 + \"a\";"),
        TypeError::InvalidBinaryOp(BinaryOperator::Add, TypeName::IntType, TypeName::StringType)
    );
    assert_eq!(
        first("print !1;"),
        TypeError::InvalidUnaryOp(UnaryOperator::Not, TypeName::IntType)
    );
    assert_eq!(first("print 1 = 1;"), TypeError::PrintArgumentError(TypeName::BoolType));
    assert_eq!(
        first("var b:bool; read b;"),
        TypeError::ReadArgumentError(TypeName::BoolType)
    );
    assert_eq!(first("assert 1;"), TypeError::AssertArgumentError(TypeName::IntType));
    assert_eq!(
        first("var s:string; for s in 0..1 do end for;"),
        TypeError::IncompatibleTypes { expected: TypeName::IntType, was: TypeName::StringType }
    );
    assert_eq!(
        first("var i:int; for i in 0..\"a\" do end for;"),
        TypeError::IncompatibleTypes { expected: TypeName::IntType, was: TypeName::StringType }
    );
    assert_eq!(
        first("var i:int; for i in 0..1 do for i in 0..1 do end for; end for;"),
        TypeError::AssignToImmutable("i".to_string())
    );
}

#[test]
fn names_of_a_loop_body_go_out_of_sight() {
    run_ok(
        "var i:int; for i in 0..1 do var y:int := i; end for; var y:string := \"s\"; print y;",
        &[],
        &["s"],
    );
    run_ok(
        "var i:int; for i in 0..0 do end for; i := 9; print i;",
        &[],
        &["9"],
    );
}

#[test]
fn type_error_comes_before_any_output() {
    let (result, written) = run("print 1; print x;", &[]);
    assert!(result.is_err());
    assert!(written.is_empty());
}

#[test]
fn parser_error_offsets_lie_within_the_source() {
    for source in ["print", "print 1", "var x : ;", "x := (1 + ;", "\"abc", "print 1; #", "for"] {
        let (result, _) = run(source, &[]);
        let errors = result.unwrap_err();
        assert!(!errors.is_empty());
        for error in errors {
            match error {
                ExecutionError::ParserError(ErrWithCtx(_, offset)) => {
                    assert!(offset <= source.chars().count())
                }
                other => panic!("{:?}", other),
            }
        }
    }
}

use miniplrs::common::types::{BinaryOperator, TypeName, UnaryOperator};
