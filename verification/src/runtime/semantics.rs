//! What running a program means: the value of an expression, and the effect
//! of a statement on the variables, the input and the output.
use vstd::prelude::*;

use crate::common::errors::ErrorWithReason;
use crate::common::text;
use crate::common::types::{BinaryOperator, SpecValue, TypeName, UnaryOperator};
use crate::diagnostics::file_context;
use crate::diagnostics::file_context::SpecLine;
use crate::parsing::ast::{SpecExpression, SpecStatement, SpecStatementWithCtx};
use crate::semantic::types::Context;

verus! {

/// What stops a running program.
#[derive(Debug, PartialEq, Eq, Clone, Copy, Structural)]
pub enum RuntimeError {
    /// A division by zero.
    DivisionByZero,
    /// A line that was read for an integer variable is no integer.
    InvalidInteger,
}

impl RuntimeError {
    /// The message for a fault.
    pub open spec fn message(self) -> Seq<char> {
        match self {
            RuntimeError::DivisionByZero => "Division by zero."@,
            RuntimeError::InvalidInteger => "The line that was read is not an integer."@,
        }
    }
}

impl ErrorWithReason for RuntimeError {
    open spec fn reason(&self) -> Option<Seq<char>> {
        Some(self.message())
    }

    fn get_reason(&self) -> (reason: Option<String>) {
        match self {
            RuntimeError::DivisionByZero => Some(String::from_str("Division by zero.")),
            RuntimeError::InvalidInteger => Some(
                String::from_str("The line that was read is not an integer."),
            ),
        }
    }
}

/// A variable of a running program.
pub struct SpecVariable {
    pub type_of: TypeName,
    pub value: SpecValue,
}

/// The variables of a running program, by name.
pub type Store = Map<Seq<char>, SpecVariable>;

/// The state of a running program: its variables, how many lines of input
/// it has read, and the chunks it has written.
pub struct Machine {
    pub store: Store,
    pub reads: nat,
    pub output: Seq<Seq<char>>,
}

/// Where a run has got to, and what stopped it, if anything did.
pub struct Run {
    pub machine: Machine,
    pub fault: Option<RuntimeError>,
}

/// The quotient of two integers, rounded toward zero.
pub open spec fn truncated_quotient(x: int, d: int) -> int
    recommends
        d != 0,
{
    if (x >= 0) == (d > 0) {
        if x >= 0 {
            x / d
        } else {
            (-x) / (-d)
        }
    } else if x >= 0 {
        -(x / (-d))
    } else {
        -((-x) / d)
    }
}

/// The quotient of two 32-bit integers, rounded toward zero. The one
/// quotient that does not fit, that of the least integer by -1, wraps round
/// to the least integer.
pub open spec fn quotient(a: i32, b: i32) -> i32
    recommends
        b != 0,
{
    if truncated_quotient(a as int, b as int) > i32::MAX {
        i32::MIN
    } else {
        truncated_quotient(a as int, b as int) as i32
    }
}

/// The value of `left op right`. Sums, differences and products wrap round
/// in 32 bits; `+` joins two strings. For operands that the typing rules
/// exclude the value is left open.
pub open spec fn apply_binary(op: BinaryOperator, left: SpecValue, right: SpecValue) -> Result<
    SpecValue,
    RuntimeError,
> {
    match (op, left, right) {
        (BinaryOperator::Add, SpecValue::IntV(a), SpecValue::IntV(b)) => Ok(
            SpecValue::IntV(a.wrapping_add(b)),
        ),
        (BinaryOperator::Add, SpecValue::StringV(a), SpecValue::StringV(b)) => Ok(
            SpecValue::StringV(a + b),
        ),
        (BinaryOperator::Sub, SpecValue::IntV(a), SpecValue::IntV(b)) => Ok(
            SpecValue::IntV(a.wrapping_sub(b)),
        ),
        (BinaryOperator::Mul, SpecValue::IntV(a), SpecValue::IntV(b)) => Ok(
            SpecValue::IntV(a.wrapping_mul(b)),
        ),
        (BinaryOperator::Div, SpecValue::IntV(a), SpecValue::IntV(b)) => if b == 0 {
            Err(RuntimeError::DivisionByZero)
        } else {
            Ok(SpecValue::IntV(quotient(a, b)))
        },
        (BinaryOperator::Equal, a, b) => Ok(SpecValue::BoolV(a.equals(b))),
        (BinaryOperator::LessThan, a, b) => Ok(SpecValue::BoolV(a.less_than(b))),
        (BinaryOperator::And, SpecValue::BoolV(a), SpecValue::BoolV(b)) => Ok(
            SpecValue::BoolV(a && b),
        ),
        _ => arbitrary(),
    }
}

/// The value of `op inner`. For an operand that the typing rules exclude
/// the value is left open.
pub open spec fn apply_unary(op: UnaryOperator, inner: SpecValue) -> Result<
    SpecValue,
    RuntimeError,
> {
    match inner {
        SpecValue::BoolV(b) => Ok(SpecValue::BoolV(!b)),
        _ => arbitrary(),
    }
}

/// The value of an expression. The left operand is evaluated before the
/// right one, and the first fault stops the evaluation.
pub open spec fn evaluate(store: Store, expression: SpecExpression) -> Result<
    SpecValue,
    RuntimeError,
>
    decreases expression,
{
    match expression {
        SpecExpression::Literal(literal) => Ok(literal.value()),
        SpecExpression::Variable(name) => Ok(store[name].value),
        SpecExpression::BinaryOp(op, left, right) => match evaluate(store, *left) {
            Err(fault) => Err(fault),
            Ok(a) => match evaluate(store, *right) {
                Err(fault) => Err(fault),
                Ok(b) => apply_binary(op, a, b),
            },
        },
        SpecExpression::UnaryOp(op, inner) => match evaluate(store, *inner) {
            Err(fault) => Err(fault),
            Ok(value) => apply_unary(op, value),
        },
    }
}

/// How often the body of a loop from `from` to `to` runs: once for each
/// integer from `from` to `to`, both included.
pub open spec fn loop_count(from: int, to: int) -> nat {
    if from <= to {
        (to - from + 1) as nat
    } else {
        0
    }
}

/// The machine after `value` was stored in the variable `name`, which
/// keeps its type.
pub open spec fn assigned(machine: Machine, name: Seq<char>, value: SpecValue) -> Machine {
    Machine {
        store: machine.store.insert(
            name,
            SpecVariable { type_of: machine.store[name].type_of, value },
        ),
        ..machine
    }
}

/// The machine after `chunk` was written.
pub open spec fn wrote(machine: Machine, chunk: Seq<char>) -> Machine {
    Machine { output: machine.output.push(chunk), ..machine }
}

/// A run that goes on from `machine`.
pub open spec fn going(machine: Machine) -> Run {
    Run { machine, fault: None }
}

/// A run that `fault` stopped at `machine`.
pub open spec fn stopped(machine: Machine, fault: RuntimeError) -> Run {
    Run { machine, fault: Some(fault) }
}

/// What a failed assertion writes: a heading and the quote of the source
/// lines of the statement.
pub open spec fn assertion_message(table: Seq<SpecLine>, start: usize, end: usize) -> Seq<char> {
    "ASSERTION FAILED:\n"@ + file_context::source_quote(table, start, end)
}

/// Runs one statement.
///
/// `lines` holds the lines of input, of which the machine has read the
/// first `machine.reads`; `table` holds the lines of the source text, for
/// the message of a failed assertion.
///
/// A declaration stores the value of its initialiser, or the default value
/// of its type. `print` writes the display form of a value as one chunk.
/// `read` takes the next line of input: as it is for a string variable, as
/// a signed decimal numeral for an integer variable. A failed `assert`
/// writes a message and the run goes on. A loop evaluates both bounds once,
/// then runs its body once for each integer from the first bound to the
/// second, with that integer stored in the loop variable.
pub open spec fn run_statement(
    machine: Machine,
    statement: SpecStatementWithCtx,
    lines: Seq<Seq<char>>,
    table: Seq<SpecLine>,
) -> Run
    decreases statement, 0nat,
{
    match statement.statement {
        SpecStatement::Declare { name, type_of, initial } => match initial {
            Some(expression) => match evaluate(machine.store, expression) {
                Err(fault) => stopped(machine, fault),
                Ok(value) => going(
                    Machine {
                        store: machine.store.insert(name, SpecVariable { type_of, value }),
                        ..machine
                    },
                ),
            },
            None => going(
                Machine {
                    store: machine.store.insert(
                        name,
                        SpecVariable { type_of, value: type_of.default_value() },
                    ),
                    ..machine
                },
            ),
        },
        SpecStatement::Assign(name, expression) => match evaluate(machine.store, expression) {
            Err(fault) => stopped(machine, fault),
            Ok(value) => going(assigned(machine, name, value)),
        },
        SpecStatement::Print(expression) => match evaluate(machine.store, expression) {
            Err(fault) => stopped(machine, fault),
            Ok(value) => going(wrote(machine, value.display())),
        },
        SpecStatement::Read(name) => {
            let line = lines[machine.reads as int];
            let after = Machine { reads: machine.reads + 1, ..machine };
            match machine.store[name].type_of {
                TypeName::StringType => going(assigned(after, name, SpecValue::StringV(line))),
                TypeName::IntType => match text::parse_decimal(line) {
                    Some(number) => going(assigned(after, name, SpecValue::IntV(number))),
                    None => stopped(after, RuntimeError::InvalidInteger),
                },
                TypeName::BoolType => going(after),
            }
        },
        SpecStatement::Assert(expression) => match evaluate(machine.store, expression) {
            Err(fault) => stopped(machine, fault),
            Ok(value) => if value == SpecValue::BoolV(false) {
                going(wrote(machine, assertion_message(table, statement.start, statement.end)))
            } else {
                going(machine)
            },
        },
        SpecStatement::For { variable, from, to, run } => match evaluate(machine.store, from) {
            Err(fault) => stopped(machine, fault),
            Ok(first) => match evaluate(machine.store, to) {
                Err(fault) => stopped(machine, fault),
                Ok(last) => run_loop(
                    machine,
                    variable,
                    first->IntV_0 as int,
                    loop_count(first->IntV_0 as int, last->IntV_0 as int),
                    run,
                    lines,
                    table,
                ),
            },
        },
    }
}

/// Runs the body of a loop `count` times, with `next`, `next + 1` and so on
/// stored in the loop variable before each pass. A fault in the body stops
/// the loop.
pub open spec fn run_loop(
    machine: Machine,
    variable: Seq<char>,
    next: int,
    count: nat,
    body: Seq<SpecStatementWithCtx>,
    lines: Seq<Seq<char>>,
    table: Seq<SpecLine>,
) -> Run
    decreases body, count + 1,
{
    if count == 0 {
        going(machine)
    } else {
        let pass = run_block(
            assigned(machine, variable, SpecValue::IntV(next as i32)),
            body,
            lines,
            table,
        );
        if pass.fault is Some {
            pass
        } else {
            run_loop(pass.machine, variable, next + 1, (count - 1) as nat, body, lines, table)
        }
    }
}

/// Runs the statements of a block in order, up to the first fault.
pub open spec fn run_block(
    machine: Machine,
    block: Seq<SpecStatementWithCtx>,
    lines: Seq<Seq<char>>,
    table: Seq<SpecLine>,
) -> Run
    decreases block, 0nat,
{
    if block.len() == 0 {
        going(machine)
    } else {
        let first = run_statement(machine, block[0], lines, table);
        if first.fault is Some {
            first
        } else {
            run_block(first.machine, block.subrange(1, block.len() as int), lines, table)
        }
    }
}

/// The machine of a program that has not started: no variable, nothing
/// read, nothing written.
pub open spec fn initial_machine() -> Machine {
    Machine { store: Map::empty(), reads: 0, output: Seq::empty() }
}

/// Whether `lines` begins with the lines in `read`.
pub open spec fn begins_with(lines: Seq<Seq<char>>, read: Seq<Seq<char>>) -> bool {
    read.len() <= lines.len() && lines.take(read.len() as int) == read
}

/// Whether the variables are what the type checker expects: every name in
/// sight is a variable of the type it was declared with and holds a value
/// of that type.
pub open spec fn conforms(store: Store, ctx: Context) -> bool {
    forall|name: Seq<char>| #[trigger]
        ctx.contains_key(name) ==> store.contains_key(name) && store[name].type_of
            == ctx[name].type_of && store[name].value.type_of() == ctx[name].type_of
}

/// A sequence that begins with a second one begins with everything that
/// the second begins with.
pub proof fn lemma_begins_with_transitive(
    lines: Seq<Seq<char>>,
    later: Seq<Seq<char>>,
    earlier: Seq<Seq<char>>,
)
    requires
        begins_with(lines, later),
        begins_with(later, earlier),
    ensures
        begins_with(lines, earlier),
{
    assert(lines.take(earlier.len() as int) =~= later.take(earlier.len() as int));
}

} // verus!
