//! The interpreter: walks the syntax tree of a program that the type
//! checker accepted.
use vstd::prelude::*;

use crate::common::text;
use crate::common::types::{BinaryOperator, TypeName, UnaryOperator, Value};
use crate::diagnostics::file_context::{FileContextSource, SpecLine};
use crate::parsing::ast;
use crate::parsing::ast::{Expression, Statement, StatementWithCtx};
use crate::runtime::io::TracedIo;
use crate::runtime::semantics;
use crate::runtime::semantics::{Machine, Run, RuntimeError, SpecVariable, Store};
use crate::semantic::types::{Context, SymbolInfo};
use crate::semantic::typing;

verus! {

/// A variable of a running program: its declared type and its value.
pub struct Variable {
    pub type_of: TypeName,
    pub value: Value,
}

impl View for Variable {
    type V = SpecVariable;

    open spec fn view(&self) -> SpecVariable {
        SpecVariable { type_of: self.type_of, value: self.value@ }
    }
}

/// The variables that a list holds: where a name occurs twice, the later
/// entry counts.
pub open spec fn store_of(variables: Seq<(String, Variable)>) -> Store
    decreases variables.len(),
{
    if variables.len() == 0 {
        Map::empty()
    } else {
        store_of(variables.drop_last()).insert(variables.last().0@, variables.last().1@)
    }
}

/// The fault of a result, if it is one.
pub open spec fn fault_of(result: Result<(), RuntimeError>) -> Option<RuntimeError> {
    match result {
        Ok(_) => None,
        Err(fault) => Some(fault),
    }
}

/// The last place in `variables` that holds `name`.
fn find_variable(variables: &Vec<(String, Variable)>, name: &String) -> (found: Option<usize>)
    ensures
        match found {
            Some(i) => i < variables.len() && variables[i as int].0@ == name@ && store_of(
                variables@,
            ).contains_key(name@) && store_of(variables@)[name@] == variables[i as int].1@
                && forall|j: int| i < j < variables.len() ==> variables[j].0@ != name@,
            None => !store_of(variables@).contains_key(name@),
        },
{
    let mut i = variables.len();
    assert(variables@.take(i as int) =~= variables@);
    while i > 0
        invariant
            i <= variables.len(),
            forall|j: int| i <= j < variables.len() ==> variables[j].0@ != name@,
            store_of(variables@).contains_key(name@) == store_of(
                variables@.take(i as int),
            ).contains_key(name@),
            store_of(variables@).contains_key(name@) ==> store_of(variables@)[name@] == store_of(
                variables@.take(i as int),
            )[name@],
        decreases i,
    {
        i -= 1;
        assert(variables@.take(i + 1).drop_last() =~= variables@.take(i as int));
        if variables[i].0 == *name {
            return Some(i);
        }
    }
    None
}

/// Replacing the last entry of a name stores the new variable under that
/// name.
proof fn lemma_store_update(variables: Seq<(String, Variable)>, i: int, changed: (String, Variable))
    requires
        0 <= i < variables.len(),
        changed.0@ == variables[i].0@,
        forall|j: int| i < j < variables.len() ==> variables[j].0@ != variables[i].0@,
    ensures
        store_of(variables.update(i, changed)) == store_of(variables).insert(
            changed.0@,
            changed.1@,
        ),
    decreases variables.len(),
{
    let after = variables.update(i, changed);
    if i == variables.len() - 1 {
        assert(after.drop_last() =~= variables.drop_last());
        assert(store_of(after) =~= store_of(variables).insert(changed.0@, changed.1@));
    } else {
        lemma_store_update(variables.drop_last(), i, changed);
        assert(after.drop_last() =~= variables.drop_last().update(i, changed));
        assert(store_of(after) =~= store_of(variables).insert(changed.0@, changed.1@));
    }
}

/// The value of `left op right`.
fn apply_binary(op: BinaryOperator, left: Value, right: Value) -> (value: Result<
    Value,
    RuntimeError,
>)
    requires
        typing::binary_type(op, left@.type_of(), right@.type_of()) is Some,
    ensures
        match semantics::apply_binary(op, left@, right@) {
            Ok(expected) => value is Ok && value->Ok_0@ == expected && expected.type_of()
                == typing::binary_type(op, left@.type_of(), right@.type_of())->0,
            Err(fault) => value == Err::<Value, _>(fault),
        },
{
    match (op, left, right) {
        (BinaryOperator::Add, Value::IntV(a), Value::IntV(b)) => Ok(
            Value::IntV(a.wrapping_add(b)),
        ),
        (BinaryOperator::Add, Value::StringV(a), Value::StringV(b)) => Ok(
            Value::StringV(a.concat(b.as_str())),
        ),
        (BinaryOperator::Sub, Value::IntV(a), Value::IntV(b)) => Ok(
            Value::IntV(a.wrapping_sub(b)),
        ),
        (BinaryOperator::Mul, Value::IntV(a), Value::IntV(b)) => Ok(
            Value::IntV(a.wrapping_mul(b)),
        ),
        (BinaryOperator::Div, Value::IntV(a), Value::IntV(b)) => {
            if b == 0 {
                Err(RuntimeError::DivisionByZero)
            } else {
                match a.checked_div(b) {
                    Some(q) => Ok(Value::IntV(q)),
                    None => Ok(Value::IntV(i32::MIN)),
                }
            }
        },
        (BinaryOperator::Equal, a, b) => Ok(Value::BoolV(a.equals(&b))),
        (BinaryOperator::LessThan, a, b) => Ok(Value::BoolV(a.less_than(&b))),
        (BinaryOperator::And, Value::BoolV(a), Value::BoolV(b)) => Ok(Value::BoolV(a && b)),
        (_, left, _) => Ok(left),
    }
}

/// The interpreter of one program run.
pub struct Interpreter<'a, T: TracedIo> {
    /// The variables; where a name occurs twice, the later entry counts.
    pub variables: Vec<(String, Variable)>,
    /// The lines of the source text, for the messages of failed assertions.
    pub ctx: &'a FileContextSource,
    /// Where the program reads from and writes to.
    pub io: &'a mut T,
    /// The names that the type checker has in sight at the point the run
    /// has reached.
    pub typing: Ghost<Context>,
}

impl<'a, T: TracedIo> Interpreter<'a, T> {
    /// The variables and their values.
    pub open spec fn store(&self) -> Store {
        store_of(self.variables@)
    }

    /// The lines of input read so far, by this interpreter or before it.
    pub open spec fn lines_read(&self) -> Seq<Seq<char>> {
        self.io.lines_read()
    }

    /// The chunks written so far, by this interpreter or before it.
    pub open spec fn written(&self) -> Seq<Seq<char>> {
        self.io.written()
    }

    /// The lines of the source text, for the messages of failed
    /// assertions.
    pub open spec fn table(&self) -> Seq<SpecLine> {
        self.ctx.table()
    }

    /// The names that the type checker has in sight at the point the run
    /// has reached.
    pub open spec fn typing(&self) -> Context {
        self.typing@
    }

    /// The state of the run.
    pub open spec fn machine(&self) -> Machine {
        Machine {
            store: self.store(),
            reads: self.lines_read().len(),
            output: self.written(),
        }
    }

    /// What every interpreter keeps true of itself between statements: the
    /// variables are what the type checker expects.
    pub open spec fn well_formed(&self) -> bool {
        semantics::conforms(self.store(), self.typing())
    }

    /// An interpreter with no variables that reads from and writes to `io`.
    pub fn new(io: &'a mut T, ctx: &'a FileContextSource) -> (interpreter: Interpreter<'a, T>)
        ensures
            interpreter.well_formed(),
            interpreter.store() == Map::<Seq<char>, SpecVariable>::empty(),
            interpreter.typing() == Map::<Seq<char>, SymbolInfo>::empty(),
            interpreter.lines_read() == old(io).lines_read(),
            interpreter.written() == old(io).written(),
            interpreter.table() == ctx.table(),
            *final(interpreter.io) == *final(io),
    {
        Interpreter { io, ctx, variables: Vec::new(), typing: Ghost(Map::empty()) }
    }

    fn declare(&mut self, identifier: &str, type_of: TypeName, value: Value)
        ensures
            final(self).store() == old(self).store().insert(
                identifier@,
                SpecVariable { type_of, value: value@ },
            ),
            final(self).lines_read() == old(self).lines_read(),
            final(self).written() == old(self).written(),
            *final(final(self).io) == *final(old(self).io),
            final(self).ctx == old(self).ctx,
            final(self).typing() == old(self).typing(),
    {
        let name = String::from_str(identifier);
        match find_variable(&self.variables, &name) {
            Some(i) => {
                let ghost before = self.variables@;
                self.variables[i].1 = Variable { type_of, value };
                proof {
                    assert(self.variables@ =~= before.update(i as int, self.variables@[i as int]));
                    lemma_store_update(before, i as int, self.variables@[i as int]);
                }
            },
            None => {
                let ghost before = self.variables@;
                self.variables.push((name, Variable { type_of, value }));
                assert(self.variables@.drop_last() =~= before);
            },
        }
    }

    fn assign(&mut self, identifier: &str, value: Value)
        requires
            old(self).store().contains_key(identifier@),
        ensures
            final(self).machine() == semantics::assigned(
                old(self).machine(),
                identifier@,
                value@,
            ),
            final(self).lines_read() == old(self).lines_read(),
            final(self).written() == old(self).written(),
            *final(final(self).io) == *final(old(self).io),
            final(self).ctx == old(self).ctx,
            final(self).typing() == old(self).typing(),
    {
        let name = String::from_str(identifier);
        match find_variable(&self.variables, &name) {
            Some(i) => {
                let ghost before = self.variables@;
                self.variables[i].1.value = value;
                proof {
                    assert(self.variables@ =~= before.update(i as int, self.variables@[i as int]));
                    lemma_store_update(before, i as int, self.variables@[i as int]);
                }
            },
            None => {},
        }
    }

    fn evaluate_binary_expression(&self, params: &(Expression, Expression)) -> (values: Result<
        (Value, Value),
        RuntimeError,
    >)
        requires
            self.well_formed(),
            typing::expression_type(self.typing(), params.0@) is Ok,
            typing::expression_type(self.typing(), params.1@) is Ok,
        ensures
            match semantics::evaluate(self.store(), params.0@) {
                Err(fault) => values == Err::<(Value, Value), _>(fault),
                Ok(left) => match semantics::evaluate(self.store(), params.1@) {
                    Err(fault) => values == Err::<(Value, Value), _>(fault),
                    Ok(right) => values is Ok && values->Ok_0.0@ == left && values->Ok_0.1@
                        == right && left.type_of() == typing::expression_type(
                        self.typing(),
                        params.0@,
                    )->Ok_0 && right.type_of() == typing::expression_type(
                        self.typing(),
                        params.1@,
                    )->Ok_0,
                },
            },
        decreases params, 0int,
    {
        let left = match self.evaluate_expression(&params.0) {
            Ok(left) => left,
            Err(fault) => {
                return Err(fault);
            },
        };
        let right = match self.evaluate_expression(&params.1) {
            Ok(right) => right,
            Err(fault) => {
                return Err(fault);
            },
        };
        Ok((left, right))
    }

    /// The value of an expression that the type checker accepted.
    pub fn evaluate_expression(&self, expression: &Expression) -> (value: Result<
        Value,
        RuntimeError,
    >)
        requires
            self.well_formed(),
            typing::expression_type(self.typing(), expression@) is Ok,
        ensures
            match semantics::evaluate(self.store(), expression@) {
                Ok(expected) => value is Ok && value->Ok_0@ == expected && expected.type_of()
                    == typing::expression_type(self.typing(), expression@)->Ok_0,
                Err(fault) => value == Err::<Value, _>(fault),
            },
        decreases expression, 1int,
    {
        match expression {
            Expression::Literal(value) => Ok(Value::from(value.clone())),
            Expression::Variable(variable) => {
                assert(self.typing().contains_key(variable@));
                match find_variable(&self.variables, variable) {
                    Some(i) => Ok(self.variables[i].1.value.clone()),
                    None => Ok(Value::BoolV(false)),
                }
            },
            Expression::BinaryOp(op, params) => {
                let (left, right) = match self.evaluate_binary_expression(&**params) {
                    Ok(values) => values,
                    Err(fault) => {
                        return Err(fault);
                    },
                };
                apply_binary(*op, left, right)
            },
            Expression::UnaryOp(op, param) => {
                let inner = match self.evaluate_expression(&**param) {
                    Ok(inner) => inner,
                    Err(fault) => {
                        return Err(fault);
                    },
                };
                match (*op, inner) {
                    (UnaryOperator::Not, Value::BoolV(x)) => Ok(Value::BoolV(!x)),
                    (_, other) => Ok(other),
                }
            },
        }
    }

    /// The run that ends at this interpreter with `result`.
    pub open spec fn reached(&self, result: Result<(), RuntimeError>) -> Run {
        Run { machine: self.machine(), fault: fault_of(result) }
    }

    /// Runs one statement that the type checker accepted with the names
    /// `typing()` in sight.
    ///
    /// The lines that were read during the call are not known before it, so
    /// the effect is stated for every input that begins with the lines read
    /// up to the end of the call.
    pub fn execute_statement(&mut self, statement: &StatementWithCtx) -> (result: Result<
        (),
        RuntimeError,
    >)
        requires
            old(self).well_formed(),
            typing::check_statement(old(self).typing(), statement@.statement) is Ok,
        ensures
            *final(final(self).io) == *final(old(self).io),
            final(self).ctx == old(self).ctx,
            semantics::begins_with(final(self).lines_read(), old(self).lines_read()),
            forall|lines: Seq<Seq<char>>| #[trigger]
                semantics::begins_with(lines, final(self).lines_read())
                    ==> semantics::run_statement(
                    old(self).machine(),
                    statement@,
                    lines,
                    old(self).table(),
                ) == final(self).reached(result),
            result is Ok ==> final(self).well_formed() && final(self).typing()
                == typing::check_statement(old(self).typing(), statement@.statement)->Ok_0,
        decreases statement, 0int,
    {
        let ghost entry = self.typing@;
        let ghost reads = self.io.lines_read();
        assert(reads.take(reads.len() as int) =~= reads);
        match &statement.statement {
            Statement::Declare { name, type_of, initial } => {
                let initial_value = match initial {
                    Some(expr) => match self.evaluate_expression(expr) {
                        Ok(value) => value,
                        Err(fault) => {
                            return Err(fault);
                        },
                    },
                    None => type_of.get_default_value(),
                };
                self.declare(name.as_str(), *type_of, initial_value);
                self.typing = Ghost(
                    entry.insert(name@, SymbolInfo { type_of: *type_of, is_mutable: true }),
                );
                Ok(())
            },
            Statement::Assign(name, value) => {
                let value = match self.evaluate_expression(value) {
                    Ok(value) => value,
                    Err(fault) => {
                        return Err(fault);
                    },
                };
                assert(entry.contains_key(name@));
                self.assign(name.as_str(), value);
                Ok(())
            },
            Statement::Print(expr) => {
                let value = match self.evaluate_expression(expr) {
                    Ok(value) => value,
                    Err(fault) => {
                        return Err(fault);
                    },
                };
                self.io.write(value.to_string().as_str());
                Ok(())
            },
            Statement::Read(name) => {
                assert(entry.contains_key(name@));
                let type_of = match find_variable(&self.variables, name) {
                    Some(i) => self.variables[i].1.type_of,
                    None => TypeName::BoolType,
                };
                let str_value = self.io.read_line();
                let ghost now = self.io.lines_read();
                proof {
                    assert(now.take(reads.len() as int) =~= reads);
                    assert forall|lines: Seq<Seq<char>>| #[trigger]
                        semantics::begins_with(lines, now) implies lines[reads.len() as int]
                        == str_value@ by {
                        assert(lines.take(now.len() as int)[reads.len() as int]
                            == lines[reads.len() as int]);
                    }
                }
                match type_of {
                    TypeName::StringType => {
                        self.assign(name.as_str(), Value::StringV(str_value));
                        Ok(())
                    },
                    TypeName::IntType => {
                        match text::parse_int(str_value.as_str()) {
                            Some(as_int) => {
                                self.assign(name.as_str(), Value::IntV(as_int));
                                Ok(())
                            },
                            None => Err(RuntimeError::InvalidInteger),
                        }
                    },
                    TypeName::BoolType => Ok(()),
                }
            },
            Statement::Assert(expr) => {
                let value = match self.evaluate_expression(expr) {
                    Ok(value) => value,
                    Err(fault) => {
                        return Err(fault);
                    },
                };
                match value {
                    Value::BoolV(false) => {
                        let source_quote = self.ctx.get_source_quote(&statement.source_position);
                        let message = String::from_str("ASSERTION FAILED:\n").concat(
                            source_quote.as_str(),
                        );
                        self.io.write(message.as_str());
                        Ok(())
                    },
                    _ => Ok(()),
                }
            },
            Statement::For { variable, from, to, run } => {
                let from_value = match self.evaluate_expression(from) {
                    Ok(value) => value,
                    Err(fault) => {
                        return Err(fault);
                    },
                };
                let to_value = match self.evaluate_expression(to) {
                    Ok(value) => value,
                    Err(fault) => {
                        return Err(fault);
                    },
                };
                match (from_value, to_value) {
                    (Value::IntV(from), Value::IntV(to)) => self.execute_loop(
                        variable.as_str(),
                        from,
                        to,
                        run,
                    ),
                    _ => Ok(()),
                }
            },
        }
    }

    /// Runs the body of a loop once for each integer from `from` to `to`.
    #[verifier::loop_isolation(false)]
    fn execute_loop(&mut self, variable: &str, from: i32, to: i32, run: &Vec<StatementWithCtx>) -> (result:
        Result<(), RuntimeError>)
        requires
            old(self).well_formed(),
            old(self).typing().contains_key(variable@),
            old(self).typing()[variable@].type_of == TypeName::IntType,
            typing::check_block(
                old(self).typing().insert(
                    variable@,
                    SymbolInfo { type_of: TypeName::IntType, is_mutable: false },
                ),
                ast::block_view(run@),
            ) is Ok,
        ensures
            *final(final(self).io) == *final(old(self).io),
            final(self).ctx == old(self).ctx,
            semantics::begins_with(final(self).lines_read(), old(self).lines_read()),
            forall|lines: Seq<Seq<char>>| #[trigger]
                semantics::begins_with(lines, final(self).lines_read()) ==> semantics::run_loop(
                    old(self).machine(),
                    variable@,
                    from as int,
                    semantics::loop_count(from as int, to as int),
                    ast::block_view(run@),
                    lines,
                    old(self).table(),
                ) == final(self).reached(result),
            result is Ok ==> final(self).well_formed() && final(self).typing() == old(
                self,
            ).typing(),
        decreases run@, 1int,
    {
        let ghost entry = self.typing@;
        let ghost start = self.machine();
        let ghost reads = self.io.lines_read();
        let ghost table = self.ctx.table();
        let ghost body = ast::block_view(run@);
        let ghost body_ctx = entry.insert(
            variable@,
            SymbolInfo { type_of: TypeName::IntType, is_mutable: false },
        );
        assert(reads.take(reads.len() as int) =~= reads);
        if from > to {
            return Ok(());
        }
        let mut i = from;
        loop
            invariant
                from <= i <= to,
                self.well_formed(),
                self.typing@ == entry,
                entry.contains_key(variable@),
                entry[variable@].type_of == TypeName::IntType,
                body == ast::block_view(run@),
                body_ctx == entry.insert(
                    variable@,
                    SymbolInfo { type_of: TypeName::IntType, is_mutable: false },
                ),
                typing::check_block(body_ctx, body) is Ok,
                self.ctx == old(self).ctx,
                table == self.ctx.table(),
                *final(self.io) == *final(old(self).io),
                semantics::begins_with(self.io.lines_read(), reads),
                forall|lines: Seq<Seq<char>>| #[trigger]
                    semantics::begins_with(lines, self.io.lines_read()) ==> semantics::run_loop(
                        start,
                        variable@,
                        from as int,
                        semantics::loop_count(from as int, to as int),
                        body,
                        lines,
                        table,
                    ) == semantics::run_loop(
                        self.machine(),
                        variable@,
                        i as int,
                        semantics::loop_count(i as int, to as int),
                        body,
                        lines,
                        table,
                    ),
            decreases to - i,
        {
            let ghost at_pass = self.machine();
            let ghost reads_at_pass = self.io.lines_read();
            self.assign(variable, Value::IntV(i));
            let ghost in_pass = self.machine();
            self.typing = Ghost(body_ctx);
            let passed = self.execute_block(run.as_slice());
            proof {
                let now = self.io.lines_read();
                semantics::lemma_begins_with_transitive(now, reads_at_pass, reads);
                assert forall|lines: Seq<Seq<char>>| #[trigger]
                    semantics::begins_with(lines, now) implies semantics::run_loop(
                    start,
                    variable@,
                    from as int,
                    semantics::loop_count(from as int, to as int),
                    body,
                    lines,
                    table,
                ) == (if passed is Err || i == to {
                    self.reached(passed)
                } else {
                    semantics::run_loop(
                        self.machine(),
                        variable@,
                        i + 1,
                        semantics::loop_count(i + 1, to as int),
                        body,
                        lines,
                        table,
                    )
                }) by {
                    semantics::lemma_begins_with_transitive(lines, now, reads_at_pass);
                    assert(semantics::run_block(in_pass, body, lines, table) == self.reached(
                        passed,
                    ));
                }
            }
            match passed {
                Ok(()) => {},
                Err(fault) => {
                    return Err(fault);
                },
            }
            proof {
                typing::lemma_check_block_extends(body_ctx, body);
                assert forall|name: Seq<char>| #[trigger] entry.contains_key(name) implies self.store().contains_key(
                    name,
                ) && self.store()[name].type_of == entry[name].type_of && self.store()[name].value.type_of()
                    == entry[name].type_of by {
                    assert(body_ctx.contains_key(name));
                }
            }
            self.typing = Ghost(entry);
            if i == to {
                return Ok(());
            }
            i += 1;
        }
    }

    /// Runs the statements of a block in order, up to the first fault.
    #[verifier::loop_isolation(false)]
    fn execute_block(&mut self, block: &[StatementWithCtx]) -> (result: Result<(), RuntimeError>)
        requires
            old(self).well_formed(),
            typing::check_block(old(self).typing(), ast::block_view(block@)) is Ok,
        ensures
            *final(final(self).io) == *final(old(self).io),
            final(self).ctx == old(self).ctx,
            semantics::begins_with(final(self).lines_read(), old(self).lines_read()),
            forall|lines: Seq<Seq<char>>| #[trigger]
                semantics::begins_with(lines, final(self).lines_read()) ==> semantics::run_block(
                    old(self).machine(),
                    ast::block_view(block@),
                    lines,
                    old(self).table(),
                ) == final(self).reached(result),
            result is Ok ==> final(self).well_formed() && final(self).typing()
                == typing::check_block(old(self).typing(), ast::block_view(block@))->Ok_0,
        decreases block@, 0int,
    {
        let ghost entry = self.typing@;
        let ghost start = self.machine();
        let ghost reads = self.io.lines_read();
        let ghost table = self.ctx.table();
        let ghost all = ast::block_view(block@);
        proof {
            ast::lemma_block_view(block@);
            assert(all.subrange(0, all.len() as int) =~= all);
            assert(reads.take(reads.len() as int) =~= reads);
        }
        let mut i: usize = 0;
        while i < block.len()
            invariant
                i <= block.len(),
                all == ast::block_view(block@),
                all.len() == block@.len(),
                forall|j: int| 0 <= j < block@.len() ==> (#[trigger] all[j]) == block@[j]@,
                self.well_formed(),
                typing::check_block(entry, all) == typing::check_block(
                    self.typing@,
                    all.subrange(i as int, all.len() as int),
                ),
                typing::check_block(entry, all) is Ok,
                self.ctx == old(self).ctx,
                table == self.ctx.table(),
                *final(self.io) == *final(old(self).io),
                semantics::begins_with(self.io.lines_read(), reads),
                forall|lines: Seq<Seq<char>>| #[trigger]
                    semantics::begins_with(lines, self.io.lines_read()) ==> semantics::run_block(
                        start,
                        all,
                        lines,
                        table,
                    ) == semantics::run_block(
                        self.machine(),
                        all.subrange(i as int, all.len() as int),
                        lines,
                        table,
                    ),
            decreases block.len() - i,
        {
            let ghost before = self.machine();
            let ghost reads_before = self.io.lines_read();
            let ghost rest = all.subrange(i as int, all.len() as int);
            proof {
                assert(rest[0] == all[i as int]);
                assert(rest.subrange(1, rest.len() as int) =~= all.subrange(
                    i + 1,
                    all.len() as int,
                ));
            }
            let done = self.execute_statement(&block[i]);
            proof {
                let now = self.io.lines_read();
                semantics::lemma_begins_with_transitive(now, reads_before, reads);
                assert forall|lines: Seq<Seq<char>>| #[trigger]
                    semantics::begins_with(lines, now) implies semantics::run_block(
                    start,
                    all,
                    lines,
                    table,
                ) == (if done is Err {
                    self.reached(done)
                } else {
                    semantics::run_block(
                        self.machine(),
                        all.subrange(i + 1, all.len() as int),
                        lines,
                        table,
                    )
                }) by {
                    semantics::lemma_begins_with_transitive(lines, now, reads_before);
                    assert(semantics::run_statement(before, rest[0], lines, table) == self.reached(
                        done,
                    ));
                }
            }
            match done {
                Ok(()) => {},
                Err(fault) => {
                    return Err(fault);
                },
            }
            i += 1;
        }
        Ok(())
    }

    /// Runs a program that the type checker accepted with the names
    /// `typing()` in sight, up to its end or the first fault.
    pub fn execute(&mut self, program: &[StatementWithCtx]) -> (result: Result<(), RuntimeError>)
        requires
            old(self).well_formed(),
            typing::check_block(old(self).typing(), ast::block_view(program@)) is Ok,
        ensures
            *final(final(self).io) == *final(old(self).io),
            final(self).ctx == old(self).ctx,
            semantics::begins_with(final(self).lines_read(), old(self).lines_read()),
            forall|lines: Seq<Seq<char>>| #[trigger]
                semantics::begins_with(lines, final(self).lines_read()) ==> semantics::run_block(
                    old(self).machine(),
                    ast::block_view(program@),
                    lines,
                    old(self).table(),
                ) == final(self).reached(result),
            result is Ok ==> final(self).well_formed() && final(self).typing()
                == typing::check_block(old(self).typing(), ast::block_view(program@))->Ok_0,
    {
        self.execute_block(program)
    }
}

} // verus!
