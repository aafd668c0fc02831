use miniplrs::common::errors::ErrorWithReason;
use miniplrs::common::types::{BinaryOperator, LiteralValue, TypeName, UnaryOperator};
use miniplrs::parsing::ast::{Expression, Statement, StatementWithCtx};
use miniplrs::parsing::char_stream::CharStream;
use miniplrs::parsing::lexer::BufferedLexer;
use miniplrs::parsing::parser::Parser;
use miniplrs::semantic::scope_tree::ScopeTree;
use miniplrs::semantic::type_checker::{type_check, TypeCheckingContext, TypeError};

fn parse(src: &str) -> Vec<StatementWithCtx> {
    let mut parser = Parser::new(BufferedLexer::new(CharStream::new(src)));
    parser.parse_program().map_err(|_| ()).expect("Should parse.")
}

fn check(src: &str) -> Result<TypeCheckingContext, TypeError> {
    type_check(&parse(src))
}

/// An expression of the type `t`.
fn expr_of_type(t: TypeName) -> Expression {
    match t {
        TypeName::BoolType => Expression::BinaryOp(
            BinaryOperator::Equal,
            Box::new((expr_of_type(TypeName::IntType), expr_of_type(TypeName::IntType))),
        ),
        TypeName::IntType => Expression::Literal(LiteralValue::IntLiteral(0)),
        TypeName::StringType => Expression::Literal(LiteralValue::StringLiteral("".to_string())),
    }
}

/// The type that the checker gives `a op b` for operands of each pair of
/// types: the listed result for a listed pair, an error for every other.
fn operator_table(op: BinaryOperator, allowed: &[(TypeName, TypeName, TypeName)]) {
    let context = TypeCheckingContext::new();
    let all = [TypeName::IntType, TypeName::StringType, TypeName::BoolType];
    for a in all {
        for b in all {
            let expression =
                Expression::BinaryOp(op, Box::new((expr_of_type(a), expr_of_type(b))));
            let expected = allowed.iter().find(|(x, y, _)| *x == a && *y == b).map(|r| r.2);
            let result = context.evaluate_expression_type(0, &expression);
            match expected {
                Some(result_type) => {
                    assert_eq!(result, Ok(result_type), "{:?} {:?} {:?}", op, a, b)
                }
                None => assert_eq!(
                    result,
                    Err(TypeError::InvalidBinaryOp(op, a, b)),
                    "{:?} {:?} {:?}",
                    op,
                    a,
                    b
                ),
            }
        }
    }
}

#[test]
fn add_types() {
    operator_table(
        BinaryOperator::Add,
        &[
            (TypeName::IntType, TypeName::IntType, TypeName::IntType),
            (TypeName::StringType, TypeName::StringType, TypeName::StringType),
        ],
    );
}

#[test]
fn sub_mul_div_types() {
    for op in [BinaryOperator::Sub, BinaryOperator::Mul, BinaryOperator::Div] {
        operator_table(op, &[(TypeName::IntType, TypeName::IntType, TypeName::IntType)]);
    }
}

#[test]
fn comparison_types() {
    for op in [BinaryOperator::Equal, BinaryOperator::LessThan] {
        operator_table(
            op,
            &[
                (TypeName::IntType, TypeName::IntType, TypeName::BoolType),
                (TypeName::StringType, TypeName::StringType, TypeName::BoolType),
                (TypeName::BoolType, TypeName::BoolType, TypeName::BoolType),
            ],
        );
    }
}

#[test]
fn and_types() {
    operator_table(
        BinaryOperator::And,
        &[(TypeName::BoolType, TypeName::BoolType, TypeName::BoolType)],
    );
}

#[test]
fn expression_types() {
    let mut context = TypeCheckingContext::new();
    context.0.define_symbol(0, "n", TypeName::IntType, true);
    let var = |name: &str| Expression::Variable(name.to_string());
    let not = |e: Expression| Expression::UnaryOp(UnaryOperator::Not, Box::new(e));
    assert_eq!(context.evaluate_expression_type(0, &var("n")), Ok(TypeName::IntType));
    assert_eq!(
        context.evaluate_expression_type(0, &var("m")),
        Err(TypeError::UndeclaredIdentifier("m".to_string()))
    );
    assert_eq!(
        context.evaluate_expression_type(0, &not(expr_of_type(TypeName::BoolType))),
        Ok(TypeName::BoolType)
    );
    assert_eq!(
        context.evaluate_expression_type(0, &not(var("n"))),
        Err(TypeError::InvalidUnaryOp(UnaryOperator::Not, TypeName::IntType))
    );
    let both_wrong = Expression::BinaryOp(
        BinaryOperator::Sub,
        Box::new((var("left"), var("right"))),
    );
    assert_eq!(
        context.evaluate_expression_type(0, &both_wrong),
        Err(TypeError::UndeclaredIdentifier("left".to_string()))
    );
}

#[test]
fn scope_tree_lookup_walks_up() {
    let mut tree = ScopeTree::new();
    assert_eq!(tree.get_global_scope().key, 0);
    assert_eq!(tree.get_global_scope().get_parent_key(), None);
    assert_eq!(tree.define_symbol(0, "a", TypeName::IntType, true), 0);
    let child = tree.add_new_scope(0);
    assert_eq!(child, 1);
    let grandchild = tree.add_new_scope(child);
    assert_eq!(grandchild, 2);
    assert_eq!(tree.define_symbol(child, "b", TypeName::StringType, false), 1);

    let a = tree.get_symbol(grandchild, "a").unwrap();
    assert_eq!((a.key, a.scope_key, a.type_of, a.is_mutable), (0, 0, TypeName::IntType, true));
    let b = tree.get_symbol(grandchild, "b").unwrap();
    assert_eq!((b.key, b.scope_key, b.type_of, b.is_mutable), (1, 1, TypeName::StringType, false));
    assert!(tree.get_symbol(0, "b").is_none());
    assert!(tree.get_symbol(grandchild, "c").is_none());
}

#[test]
fn scope_tree_nearest_binding_counts() {
    let mut tree = ScopeTree::new();
    tree.define_symbol(0, "a", TypeName::IntType, true);
    let child = tree.add_new_scope(0);
    tree.define_symbol(child, "a", TypeName::BoolType, true);
    assert_eq!(tree.get_symbol(child, "a").unwrap().type_of, TypeName::BoolType);
    assert_eq!(tree.get_symbol(0, "a").unwrap().type_of, TypeName::IntType);
    tree.define_symbol(child, "a", TypeName::StringType, true);
    assert_eq!(tree.get_symbol(child, "a").unwrap().type_of, TypeName::StringType);
}

#[test]
fn scope_tree_set_mutable_changes_the_nearest_binding() {
    let mut tree = ScopeTree::new();
    tree.define_symbol(0, "a", TypeName::IntType, true);
    let child = tree.add_new_scope(0);
    let other = tree.add_new_scope(0);
    assert!(tree.set_mutable(child, "a", false));
    assert!(!tree.get_symbol(0, "a").unwrap().is_mutable);
    assert!(!tree.get_symbol(other, "a").unwrap().is_mutable);
    assert!(!tree.set_mutable(child, "b", false));
    assert!(tree.set_mutable(0, "a", true));
    assert!(tree.get_symbol(child, "a").unwrap().is_mutable);
}

#[test]
fn scope_tree_lists_the_names_in_sight() {
    let mut tree = ScopeTree::new();
    tree.define_symbol(0, "a", TypeName::IntType, true);
    tree.define_symbol(0, "b", TypeName::IntType, true);
    let child = tree.add_new_scope(0);
    tree.define_symbol(child, "c", TypeName::IntType, true);
    tree.define_symbol(child, "a", TypeName::BoolType, true);
    tree.define_symbol(child, "c", TypeName::StringType, true);
    let names = |mut list: Vec<(String, usize)>| -> Vec<(String, usize)> {
        list.sort();
        list
    };
    assert_eq!(
        names(tree.get_symbols_in_scope(child)),
        vec![("a".to_string(), 3), ("b".to_string(), 1), ("c".to_string(), 4)]
    );
    assert_eq!(
        names(tree.get_symbols_in_scope(0)),
        vec![("a".to_string(), 0), ("b".to_string(), 1)]
    );
    assert!(ScopeTree::new().get_symbols_in_scope(0).is_empty());
}

#[test]
fn scope_tree_parents() {
    let mut tree = ScopeTree::new();
    let child = tree.add_new_scope(0);
    let second = tree.add_new_scope(0);
    let grandchild = tree.add_new_scope(second);
    assert_eq!((child, second, grandchild), (1, 2, 3));
    let global = tree.get_global_scope();
    assert!(tree.get_parent(global).is_none());
    assert_eq!(global.children, [1, 2]);
    assert_eq!(global.parent, 0);
    assert!(global.symbols.is_empty());
}

#[test]
fn checker_keeps_top_level_names_only() {
    let mut context =
        check("var a:int; var i:int; for i in 0..1 do var b:string; end for;").unwrap();
    assert_eq!(context.0.get_symbol(0, "a").unwrap().type_of, TypeName::IntType);
    assert!(context.0.get_symbol(0, "i").unwrap().is_mutable);
    assert!(context.0.get_symbol(0, "b").is_none());
    assert_eq!(context.0.get_symbol(1, "b").unwrap().type_of, TypeName::StringType);
    assert_eq!(context.type_check_statement(0, &parse("b := \"x\";")[0].statement), Err(TypeError::UndeclaredIdentifier("b".to_string())));
}

#[test]
fn failed_declaration_defines_nothing() {
    let mut context = TypeCheckingContext::new();
    let statement = Statement::Declare {
        name: "a".to_string(),
        type_of: TypeName::IntType,
        initial: Some(Expression::Literal(LiteralValue::StringLiteral("x".to_string()))),
    };
    assert_eq!(
        context.type_check_statement(0, &statement),
        Err(TypeError::IncompatibleTypes {
            expected: TypeName::IntType,
            was: TypeName::StringType
        })
    );
    assert!(context.0.get_symbol(0, "a").is_none());
    assert!(context.0.get_symbols_in_scope(0).is_empty());
}

#[test]
fn redeclaration_changes_nothing() {
    let mut context = check("var a:int;").unwrap();
    let again = &parse("var a:string := \"x\";")[0].statement;
    assert_eq!(
        context.type_check_statement(0, again),
        Err(TypeError::RedeclaredIdentifier("a".to_string()))
    );
    let a = context.0.get_symbol(0, "a").unwrap();
    assert_eq!((a.key, a.type_of, a.is_mutable), (0, TypeName::IntType, true));
    assert_eq!(context.0.get_symbols_in_scope(0).len(), 1);
    let child = context.0.add_new_scope(0);
    assert_eq!(
        context.type_check_statement(child, again),
        Err(TypeError::RedeclaredIdentifier("a".to_string()))
    );
    assert_eq!(context.0.get_symbol(child, "a").unwrap().type_of, TypeName::IntType);
}

#[test]
fn failed_statements_leave_the_scopes_as_they_were() {
    let mut context = check("var a:int; var s:string;").unwrap();
    for source in ["a := s;", "b := 1;", "print a = a;", "read b;", "assert a;", "for s in 0..1 do var c:int; end for;", "for a in s..1 do end for;"] {
        assert!(context.type_check_statement(0, &parse(source)[0].statement).is_err());
        assert_eq!(context.0.get_symbols_in_scope(0).len(), 2);
        assert!(context.0.get_global_scope().children.is_empty());
        assert!(context.0.get_symbol(0, "a").unwrap().is_mutable);
    }
}

#[test]
fn loop_variable_may_be_assigned_to_after_a_failed_body() {
    let mut context = check("var i:int; var j:int;").unwrap();
    let failing = &parse("for i in 0..1 do var k:int; for j in 0..1 do j := 1; end for; end for;")[0];
    assert_eq!(
        context.type_check_statement(0, &failing.statement),
        Err(TypeError::AssignToImmutable("j".to_string()))
    );
    assert!(context.0.get_symbol(0, "i").unwrap().is_mutable);
    assert!(context.0.get_symbol(0, "j").unwrap().is_mutable);
    assert!(context.0.get_symbol(0, "k").is_none());
    assert_eq!(context.0.get_symbols_in_scope(0).len(), 2);
    assert_eq!(context.type_check_statement(0, &parse("i := j;")[0].statement), Ok(()));
}

#[test]
fn symbol_keys_are_handed_out_in_order() {
    let mut tree = ScopeTree::new();
    let child = tree.add_new_scope(0);
    let keys = [
        tree.define_symbol(0, "a", TypeName::IntType, true),
        tree.define_symbol(child, "a", TypeName::IntType, true),
        tree.define_symbol(0, "b", TypeName::IntType, true),
        tree.define_symbol(0, "a", TypeName::BoolType, false),
    ];
    assert_eq!(keys, [0, 1, 2, 3]);
    assert!(tree.set_mutable(child, "a", false));
    assert_eq!(tree.define_symbol(child, "c", TypeName::IntType, true), 4);
}

#[test]
fn checker_stops_at_the_first_error() {
    assert_eq!(
        check("print x; print y;").map(|_| ()),
        Err(TypeError::UndeclaredIdentifier("x".to_string()))
    );
    assert_eq!(
        check("print 1 + (2 = 3) + \"a\";").map(|_| ()),
        Err(TypeError::InvalidBinaryOp(
            BinaryOperator::Add,
            TypeName::IntType,
            TypeName::BoolType
        ))
    );
}

#[test]
fn loop_variable_may_be_read_into() {
    assert!(check("var i:int; for i in 0..1 do read i; end for;").is_ok());
}

#[test]
fn type_error_reasons() {
    assert_eq!(
        TypeError::RedeclaredIdentifier("a".to_string()).get_reason().unwrap(),
        "Identifier a was redeclared."
    );
    assert_eq!(
        TypeError::UndeclaredIdentifier("a".to_string()).get_reason().unwrap(),
        "Identifier a was used before declaration."
    );
    assert_eq!(
        TypeError::InvalidAssignment {
            name: "a".to_string(),
            was: TypeName::IntType,
            new_type: TypeName::StringType
        }
        .get_reason()
        .unwrap(),
        "Tried to assign <int> to \"a\", which is <string>."
    );
    assert_eq!(TypeError::AssignToImmutable("a".to_string()).get_reason(), None);
}
