//! The typing rules, stated over the names in sight.
use vstd::prelude::*;

use crate::common::types::{BinaryOperator, TypeName, UnaryOperator};
use crate::parsing::ast::{SpecExpression, SpecStatement, SpecStatementWithCtx};
use crate::semantic::types::{Context, SymbolInfo};

verus! {

/// The mathematical content of a type error.
pub enum SpecTypeError {
    RedeclaredIdentifier(Seq<char>),
    UndeclaredIdentifier(Seq<char>),
    InvalidAssignment { name: Seq<char>, was: TypeName, new_type: TypeName },
    IncompatibleTypes { expected: TypeName, was: TypeName },
    InvalidBinaryOp(BinaryOperator, TypeName, TypeName),
    InvalidUnaryOp(UnaryOperator, TypeName),
    PrintArgumentError(TypeName),
    ReadArgumentError(TypeName),
    AssertArgumentError(TypeName),
    AssignToImmutable(Seq<char>),
}

/// The type of `left op right`, where the operator takes such operands:
/// `+` adds two integers or joins two strings; `-`, `*` and `/` take two
/// integers; `<` and `=` compare two values of one type; `&` takes two
/// booleans.
pub open spec fn binary_type(op: BinaryOperator, left: TypeName, right: TypeName) -> Option<
    TypeName,
> {
    match op {
        BinaryOperator::Add => if left == right && (left == TypeName::IntType || left
            == TypeName::StringType) {
            Some(left)
        } else {
            None
        },
        BinaryOperator::Sub | BinaryOperator::Mul | BinaryOperator::Div => if left
            == TypeName::IntType && right == TypeName::IntType {
            Some(TypeName::IntType)
        } else {
            None
        },
        BinaryOperator::Equal | BinaryOperator::LessThan => if left == right {
            Some(TypeName::BoolType)
        } else {
            None
        },
        BinaryOperator::And => if left == TypeName::BoolType && right == TypeName::BoolType {
            Some(TypeName::BoolType)
        } else {
            None
        },
    }
}

/// The type of `op inner`, where the operator takes such an operand: `!`
/// takes a boolean.
pub open spec fn unary_type(op: UnaryOperator, inner: TypeName) -> Option<TypeName> {
    if inner == TypeName::BoolType {
        Some(TypeName::BoolType)
    } else {
        None
    }
}

/// The type of an expression, or the first error in it: the left operand
/// is checked before the right one, and both before the operator.
pub open spec fn expression_type(ctx: Context, expression: SpecExpression) -> Result<
    TypeName,
    SpecTypeError,
>
    decreases expression,
{
    match expression {
        SpecExpression::Literal(literal) => Ok(literal.type_of()),
        SpecExpression::Variable(name) => if ctx.contains_key(name) {
            Ok(ctx[name].type_of)
        } else {
            Err(SpecTypeError::UndeclaredIdentifier(name))
        },
        SpecExpression::BinaryOp(op, left, right) => match expression_type(ctx, *left) {
            Err(error) => Err(error),
            Ok(left_type) => match expression_type(ctx, *right) {
                Err(error) => Err(error),
                Ok(right_type) => match binary_type(op, left_type, right_type) {
                    Some(result) => Ok(result),
                    None => Err(SpecTypeError::InvalidBinaryOp(op, left_type, right_type)),
                },
            },
        },
        SpecExpression::UnaryOp(op, inner) => match expression_type(ctx, *inner) {
            Err(error) => Err(error),
            Ok(inner_type) => match unary_type(op, inner_type) {
                Some(result) => Ok(result),
                None => Err(SpecTypeError::InvalidUnaryOp(op, inner_type)),
            },
        },
    }
}

/// Whether `expression` has the type `expected`; the error where it has
/// another or none.
pub open spec fn expect_type(ctx: Context, expression: SpecExpression, expected: TypeName) -> Result<
    (),
    SpecTypeError,
> {
    match expression_type(ctx, expression) {
        Err(error) => Err(error),
        Ok(was) => if was == expected {
            Ok(())
        } else {
            Err(SpecTypeError::IncompatibleTypes { expected, was })
        },
    }
}

/// The checks on the head of a loop: the variable is a declared integer
/// that may be assigned to, and both bounds are integers.
pub open spec fn check_for_head(
    ctx: Context,
    variable: Seq<char>,
    from: SpecExpression,
    to: SpecExpression,
) -> Result<(), SpecTypeError> {
    if !ctx.contains_key(variable) {
        Err(SpecTypeError::UndeclaredIdentifier(variable))
    } else if ctx[variable].type_of != TypeName::IntType {
        Err(
            SpecTypeError::IncompatibleTypes {
                expected: TypeName::IntType,
                was: ctx[variable].type_of,
            },
        )
    } else if !ctx[variable].is_mutable {
        Err(SpecTypeError::AssignToImmutable(variable))
    } else if expect_type(ctx, from, TypeName::IntType) is Err {
        Err(expect_type(ctx, from, TypeName::IntType)->Err_0)
    } else {
        expect_type(ctx, to, TypeName::IntType)
    }
}

/// Checks one statement with the names in `ctx` in sight and gives the
/// names in sight after it, or the first error.
///
/// A declaration must not repeat a name in sight, and its initialiser must
/// have the declared type; it adds the name. An assignment needs a declared
/// name that may be assigned to and a value of its type. `print` takes an
/// integer or a string, `read` a variable of one of these types, `assert` a
/// boolean. A loop checks its head and then its body, in which the loop
/// variable may not be assigned to and after which the names declared in
/// the body are out of sight again.
pub open spec fn check_statement(ctx: Context, statement: SpecStatement) -> Result<
    Context,
    SpecTypeError,
>
    decreases statement,
{
    match statement {
        SpecStatement::Declare { name, type_of, initial } => if ctx.contains_key(name) {
            Err(SpecTypeError::RedeclaredIdentifier(name))
        } else if initial is Some && expect_type(ctx, initial->0, type_of) is Err {
            Err(expect_type(ctx, initial->0, type_of)->Err_0)
        } else {
            Ok(ctx.insert(name, SymbolInfo { type_of, is_mutable: true }))
        },
        SpecStatement::Assign(name, value) => if !ctx.contains_key(name) {
            Err(SpecTypeError::UndeclaredIdentifier(name))
        } else if expect_type(ctx, value, ctx[name].type_of) is Err {
            Err(expect_type(ctx, value, ctx[name].type_of)->Err_0)
        } else if !ctx[name].is_mutable {
            Err(SpecTypeError::AssignToImmutable(name))
        } else {
            Ok(ctx)
        },
        SpecStatement::Print(value) => match expression_type(ctx, value) {
            Err(error) => Err(error),
            Ok(TypeName::BoolType) => Err(SpecTypeError::PrintArgumentError(TypeName::BoolType)),
            Ok(_) => Ok(ctx),
        },
        SpecStatement::Read(name) => if !ctx.contains_key(name) {
            Err(SpecTypeError::UndeclaredIdentifier(name))
        } else if ctx[name].type_of == TypeName::BoolType {
            Err(SpecTypeError::ReadArgumentError(TypeName::BoolType))
        } else {
            Ok(ctx)
        },
        SpecStatement::Assert(value) => match expression_type(ctx, value) {
            Err(error) => Err(error),
            Ok(TypeName::BoolType) => Ok(ctx),
            Ok(other) => Err(SpecTypeError::AssertArgumentError(other)),
        },
        SpecStatement::For { variable, from, to, run } => match check_for_head(
            ctx,
            variable,
            from,
            to,
        ) {
            Err(error) => Err(error),
            Ok(_) => match check_block(
                ctx.insert(variable, SymbolInfo { type_of: TypeName::IntType, is_mutable: false }),
                run,
            ) {
                Err(error) => Err(error),
                Ok(_) => Ok(ctx),
            },
        },
    }
}

/// Checks the statements of a block in order; each sees the names that
/// the ones before it declared.
pub open spec fn check_block(ctx: Context, block: Seq<SpecStatementWithCtx>) -> Result<
    Context,
    SpecTypeError,
>
    decreases block,
{
    if block.len() == 0 {
        Ok(ctx)
    } else {
        match check_statement(ctx, block[0].statement) {
            Err(error) => Err(error),
            Ok(next) => check_block(next, block.subrange(1, block.len() as int)),
        }
    }
}

/// Checks a whole program, which starts with no name in sight.
pub open spec fn check_program(program: Seq<SpecStatementWithCtx>) -> Result<
    Context,
    SpecTypeError,
> {
    check_block(Map::empty(), program)
}

/// A statement that passes the check leaves the names in sight as they
/// were, but for a declaration, which adds one name that was not in sight.
pub proof fn lemma_check_statement_extends(ctx: Context, statement: SpecStatement)
    requires
        check_statement(ctx, statement) is Ok,
    ensures
        check_statement(ctx, statement)->Ok_0 == ctx || (statement matches SpecStatement::Declare {
            name,
            type_of,
            ..
        } && !ctx.contains_key(name) && check_statement(ctx, statement)->Ok_0 == ctx.insert(
            name,
            SymbolInfo { type_of, is_mutable: true },
        )),
{
}

/// A block that passes the check keeps every name that was in sight as it
/// was; it can only add names.
pub proof fn lemma_check_block_extends(ctx: Context, block: Seq<SpecStatementWithCtx>)
    requires
        check_block(ctx, block) is Ok,
    ensures
        forall|name: Seq<char>| #[trigger]
            ctx.contains_key(name) ==> check_block(ctx, block)->Ok_0.contains_key(name)
                && check_block(ctx, block)->Ok_0[name] == ctx[name],
    decreases block.len(),
{
    if block.len() > 0 {
        let next = check_statement(ctx, block[0].statement)->Ok_0;
        let last = check_block(ctx, block)->Ok_0;
        lemma_check_statement_extends(ctx, block[0].statement);
        lemma_check_block_extends(next, block.subrange(1, block.len() as int));
        assert forall|name: Seq<char>| #[trigger] ctx.contains_key(name) implies last.contains_key(
            name,
        ) && last[name] == ctx[name] by {
            assert(next.contains_key(name));
        }
    }
}

} // verus!
