//! Laws of the language that follow from its typing rules and its
//! semantics.
use vstd::prelude::*;

use crate::common::text;
use crate::common::types::{BinaryOperator, SpecValue, TypeName, UnaryOperator};
use crate::diagnostics::file_context::SpecLine;
use crate::parsing::ast::{SpecExpression, SpecStatement, SpecStatementWithCtx};
use crate::runtime::semantics;
use crate::runtime::semantics::{Machine, Store};
use crate::semantic::types::Context;
use crate::semantic::typing;

verus! {

/// An expression that the type checker accepts evaluates, unless a fault
/// stops it, to a value of the type that the checker gave it.
pub proof fn lemma_value_has_checked_type(store: Store, ctx: Context, expression: SpecExpression)
    requires
        semantics::conforms(store, ctx),
        typing::expression_type(ctx, expression) is Ok,
    ensures
        semantics::evaluate(store, expression) matches Ok(value) ==> value.type_of()
            == typing::expression_type(ctx, expression)->Ok_0,
    decreases expression,
{
    match expression {
        SpecExpression::Literal(_) => {},
        SpecExpression::Variable(name) => {
            assert(ctx.contains_key(name));
        },
        SpecExpression::BinaryOp(op, left, right) => {
            lemma_value_has_checked_type(store, ctx, *left);
            lemma_value_has_checked_type(store, ctx, *right);
        },
        SpecExpression::UnaryOp(op, inner) => {
            lemma_value_has_checked_type(store, ctx, *inner);
        },
    }
}

/// Negating a boolean expression twice gives the value of the expression
/// itself.
pub proof fn lemma_double_negation(store: Store, ctx: Context, expression: SpecExpression)
    requires
        semantics::conforms(store, ctx),
        typing::expression_type(ctx, expression) == Ok::<_, typing::SpecTypeError>(
            TypeName::BoolType,
        ),
    ensures
        semantics::evaluate(
            store,
            SpecExpression::UnaryOp(
                UnaryOperator::Not,
                Box::new(SpecExpression::UnaryOp(UnaryOperator::Not, Box::new(expression))),
            ),
        ) == semantics::evaluate(store, expression),
{
    lemma_value_has_checked_type(store, ctx, expression);
    let once = SpecExpression::UnaryOp(UnaryOperator::Not, Box::new(expression));
    assert(semantics::evaluate(store, once) == (match semantics::evaluate(store, expression) {
        Err(fault) => Err(fault),
        Ok(value) => semantics::apply_unary(UnaryOperator::Not, value),
    }));
}

/// The sum and the product of two integers do not depend on the order of
/// the operands, and where the mathematical result fits in 32 bits it is
/// the result.
pub proof fn lemma_sum_and_product_commute(a: i32, b: i32)
    ensures
        semantics::apply_binary(BinaryOperator::Add, SpecValue::IntV(a), SpecValue::IntV(b))
            == semantics::apply_binary(BinaryOperator::Add, SpecValue::IntV(b), SpecValue::IntV(a)),
        semantics::apply_binary(BinaryOperator::Mul, SpecValue::IntV(a), SpecValue::IntV(b))
            == semantics::apply_binary(BinaryOperator::Mul, SpecValue::IntV(b), SpecValue::IntV(a)),
        i32::MIN <= a + b <= i32::MAX ==> semantics::apply_binary(
            BinaryOperator::Add,
            SpecValue::IntV(a),
            SpecValue::IntV(b),
        ) == Ok::<_, semantics::RuntimeError>(SpecValue::IntV((a + b) as i32)),
        i32::MIN <= a * b <= i32::MAX ==> semantics::apply_binary(
            BinaryOperator::Mul,
            SpecValue::IntV(a),
            SpecValue::IntV(b),
        ) == Ok::<_, semantics::RuntimeError>(SpecValue::IntV((a * b) as i32)),
{
    assert(a * b == b * a) by (nonlinear_arith);
}

/// A block of one statement runs as that statement does.
pub proof fn lemma_single_statement(
    machine: Machine,
    statement: SpecStatementWithCtx,
    lines: Seq<Seq<char>>,
    table: Seq<SpecLine>,
)
    ensures
        semantics::run_block(machine, seq![statement], lines, table) == semantics::run_statement(
            machine,
            statement,
            lines,
            table,
        ),
{
    let block = seq![statement];
    let after = semantics::run_statement(machine, statement, lines, table);
    assert(block.subrange(1, 1) =~= Seq::<SpecStatementWithCtx>::empty());
    assert(semantics::run_block(after.machine, Seq::empty(), lines, table) == semantics::going(
        after.machine,
    ));
}

/// A loop whose bounds evaluate to `from` and `to` runs its body `to - from
/// + 1` times when `from` is at most `to`, and not at all otherwise.
pub proof fn lemma_loop_count(
    machine: Machine,
    statement: SpecStatementWithCtx,
    from: i32,
    to: i32,
    lines: Seq<Seq<char>>,
    table: Seq<SpecLine>,
)
    requires
        statement.statement is For,
        semantics::evaluate(machine.store, statement.statement->from) == Ok::<
            _,
            semantics::RuntimeError,
        >(SpecValue::IntV(from)),
        semantics::evaluate(machine.store, statement.statement->to) == Ok::<
            _,
            semantics::RuntimeError,
        >(SpecValue::IntV(to)),
    ensures
        semantics::run_statement(machine, statement, lines, table) == semantics::run_loop(
            machine,
            statement.statement->variable,
            from as int,
            semantics::loop_count(from as int, to as int),
            statement.statement->run,
            lines,
            table,
        ),
        from <= to ==> semantics::loop_count(from as int, to as int) == to - from + 1,
        from > to ==> semantics::loop_count(from as int, to as int) == 0,
        from > to ==> semantics::run_statement(machine, statement, lines, table)
            == semantics::going(machine),
{
}

/// A loop of `count + 1` passes is one pass of the body, with the loop
/// variable set to the first index, and then, unless a fault stopped the
/// pass, a loop of `count` passes from the next index on.
pub proof fn lemma_loop_pass(
    machine: Machine,
    variable: Seq<char>,
    next: int,
    count: nat,
    body: Seq<SpecStatementWithCtx>,
    lines: Seq<Seq<char>>,
    table: Seq<SpecLine>,
)
    ensures
        semantics::run_loop(machine, variable, next, 0, body, lines, table) == semantics::going(
            machine,
        ),
        semantics::run_loop(machine, variable, next, count + 1, body, lines, table) == ({
            let pass = semantics::run_block(
                semantics::assigned(machine, variable, SpecValue::IntV(next as i32)),
                body,
                lines,
                table,
            );
            if pass.fault is Some {
                pass
            } else {
                semantics::run_loop(pass.machine, variable, next + 1, count, body, lines, table)
            }
        }),
{
}

/// The statement `print variable;`.
pub open spec fn print_variable(variable: Seq<char>, start: usize, end: usize) -> SpecStatementWithCtx {
    SpecStatementWithCtx {
        start,
        end,
        statement: SpecStatement::Print(SpecExpression::Variable(variable)),
    }
}

/// The numerals of `count` integers from `first` on, in ascending order.
pub open spec fn numerals(first: int, count: nat) -> Seq<Seq<char>> {
    Seq::new(count, |k: int| text::decimal(first + k))
}

/// A loop that prints its variable writes one chunk for each pass: the
/// numerals of the indices in ascending order, and nothing else.
pub proof fn lemma_counting_loop(
    machine: Machine,
    variable: Seq<char>,
    first: int,
    count: nat,
    start: usize,
    end: usize,
    lines: Seq<Seq<char>>,
    table: Seq<SpecLine>,
)
    requires
        i32::MIN <= first,
        first + count - 1 <= i32::MAX,
    ensures
        semantics::run_loop(
            machine,
            variable,
            first,
            count,
            seq![print_variable(variable, start, end)],
            lines,
            table,
        ).fault is None,
        semantics::run_loop(
            machine,
            variable,
            first,
            count,
            seq![print_variable(variable, start, end)],
            lines,
            table,
        ).machine.output == machine.output + numerals(first, count),
        semantics::run_loop(
            machine,
            variable,
            first,
            count,
            seq![print_variable(variable, start, end)],
            lines,
            table,
        ).machine.reads == machine.reads,
    decreases count,
{
    let body = seq![print_variable(variable, start, end)];
    if count == 0 {
        assert(machine.output + numerals(first, 0) =~= machine.output);
    } else {
        let entered = semantics::assigned(machine, variable, SpecValue::IntV(first as i32));
        let printed = semantics::wrote(entered, text::decimal(first));
        lemma_single_statement(entered, body[0], lines, table);
        assert(body =~= seq![body[0]]);
        assert(semantics::run_statement(entered, body[0], lines, table) == semantics::going(
            printed,
        ));
        assert(semantics::run_block(entered, body, lines, table) == semantics::going(printed));
        lemma_counting_loop(
            printed,
            variable,
            first + 1,
            (count - 1) as nat,
            start,
            end,
            lines,
            table,
        );
        assert(machine.output.push(text::decimal(first)) + numerals(first + 1, (count - 1) as nat)
            =~= machine.output + numerals(first, count));
    }
}

/// Two `print` statements in a row write exactly two chunks, the first
/// before the second.
pub proof fn lemma_two_prints(
    machine: Machine,
    first: SpecStatementWithCtx,
    second: SpecStatementWithCtx,
    lines: Seq<Seq<char>>,
    table: Seq<SpecLine>,
)
    requires
        first.statement is Print,
        second.statement is Print,
        semantics::evaluate(machine.store, first.statement->Print_0) is Ok,
        semantics::evaluate(machine.store, second.statement->Print_0) is Ok,
    ensures
        semantics::run_block(machine, seq![first, second], lines, table) == semantics::going(
            Machine {
                output: machine.output.push(
                    semantics::evaluate(machine.store, first.statement->Print_0)->Ok_0.display(),
                ).push(
                    semantics::evaluate(machine.store, second.statement->Print_0)->Ok_0.display(),
                ),
                ..machine
            },
        ),
{
    let block = seq![first, second];
    let rest = block.subrange(1, 2);
    assert(rest =~= seq![second]);
    let after_first = semantics::run_statement(machine, first, lines, table);
    lemma_single_statement(after_first.machine, second, lines, table);
}

/// `read x; print x;` writes one chunk: for a string variable the line
/// that was read, for an integer variable the numeral of the integer that
/// the line denotes.
pub proof fn lemma_read_then_print(
    machine: Machine,
    variable: Seq<char>,
    read: SpecStatementWithCtx,
    print: SpecStatementWithCtx,
    lines: Seq<Seq<char>>,
    table: Seq<SpecLine>,
)
    requires
        read.statement == SpecStatement::Read(variable),
        print.statement == SpecStatement::Print(SpecExpression::Variable(variable)),
        machine.store.contains_key(variable),
        machine.reads < lines.len(),
    ensures
        machine.store[variable].type_of == TypeName::StringType ==> semantics::run_block(
            machine,
            seq![read, print],
            lines,
            table,
        ).machine.output == machine.output.push(lines[machine.reads as int]),
        machine.store[variable].type_of == TypeName::IntType && text::parse_decimal(
            lines[machine.reads as int],
        ) is Some ==> semantics::run_block(
            machine,
            seq![read, print],
            lines,
            table,
        ).machine.output == machine.output.push(
            text::decimal(text::parse_decimal(lines[machine.reads as int])->0 as int),
        ),
        machine.store[variable].type_of != TypeName::BoolType ==> semantics::run_block(
            machine,
            seq![read, print],
            lines,
            table,
        ).machine.reads == machine.reads + 1,
{
    let block = seq![read, print];
    let rest = block.subrange(1, 2);
    assert(rest =~= seq![print]);
    let after_read = semantics::run_statement(machine, read, lines, table);
    lemma_single_statement(after_read.machine, print, lines, table);
}

} // verus!
