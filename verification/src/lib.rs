//! An interpreter for MiniPL, a small statically typed imperative language
//! with integers, strings, booleans, bounded `for` loops, `print`, `read`
//! and `assert`.
//!
//! The pipeline is linear: a character stream feeds the lexer, the lexer
//! feeds the parser, the parser's tree is type checked, and a tree-walking
//! interpreter runs what the checker accepted.
use std::rc::Rc;
use vstd::prelude::*;
use vstd::std_specs::convert::FromSpecImpl;

pub mod common;
pub mod diagnostics;
pub mod parsing;
pub mod runtime;
pub mod semantic;

use crate::common::errors::ParserErrorWithCtx;
use crate::diagnostics::file_context::{FileContextSource, SpecLine};
use crate::parsing::ast::SpecStatementWithCtx;
use crate::parsing::char_stream::CharStream;
use crate::parsing::lexer::BufferedLexer;
use crate::parsing::parser::Parser;
use crate::runtime::interpreter::Interpreter;
use crate::runtime::io::{Io, Traced, TracedIo};
use crate::runtime::semantics::{Machine, RuntimeError};
use crate::semantic::type_checker::TypeError;
use crate::semantic::typing::SpecTypeError;

verus! {

/// What stops a script: an error of the parser, of the type checker, or a
/// fault while it runs.
#[derive(Debug)]
pub enum ExecutionError {
    ParserError(ParserErrorWithCtx),
    TypeError(TypeError),
    RuntimeError(RuntimeError),
}

/// The mathematical content of an [`ExecutionError`].
pub enum SpecExecutionError {
    ParserError(parsing::grammar::SpecError),
    TypeError(SpecTypeError),
    RuntimeError(RuntimeError),
}

impl View for ExecutionError {
    type V = SpecExecutionError;

    open spec fn view(&self) -> SpecExecutionError {
        match self {
            ExecutionError::ParserError(error) => SpecExecutionError::ParserError(error@),
            ExecutionError::TypeError(error) => SpecExecutionError::TypeError(error@),
            ExecutionError::RuntimeError(fault) => SpecExecutionError::RuntimeError(*fault),
        }
    }
}

impl From<ParserErrorWithCtx> for ExecutionError {
    fn from(err: ParserErrorWithCtx) -> (error: ExecutionError) {
        ExecutionError::ParserError(err)
    }
}

impl FromSpecImpl<ParserErrorWithCtx> for ExecutionError {
    open spec fn obeys_from_spec() -> bool {
        true
    }

    open spec fn from_spec(err: ParserErrorWithCtx) -> ExecutionError {
        ExecutionError::ParserError(err)
    }
}

impl From<TypeError> for ExecutionError {
    fn from(err: TypeError) -> (error: ExecutionError) {
        ExecutionError::TypeError(err)
    }
}

impl FromSpecImpl<TypeError> for ExecutionError {
    open spec fn obeys_from_spec() -> bool {
        true
    }

    open spec fn from_spec(err: TypeError) -> ExecutionError {
        ExecutionError::TypeError(err)
    }
}

impl From<RuntimeError> for ExecutionError {
    fn from(err: RuntimeError) -> (error: ExecutionError) {
        ExecutionError::RuntimeError(err)
    }
}

impl FromSpecImpl<RuntimeError> for ExecutionError {
    open spec fn obeys_from_spec() -> bool {
        true
    }

    open spec fn from_spec(err: RuntimeError) -> ExecutionError {
        ExecutionError::RuntimeError(err)
    }
}

/// The mathematical content of a list of errors.
pub open spec fn errors_view(errors: Seq<ExecutionError>) -> Seq<SpecExecutionError> {
    errors.map_values(|error: ExecutionError| error@)
}

/// The lines of the source text that the messages of failed assertions
/// quote: those of the file context, or of the source where none is given.
pub open spec fn quoted_table(source: Seq<char>, file_context: Option<Rc<FileContextSource>>) -> Seq<
    SpecLine,
> {
    match file_context {
        Some(context) => context.table(),
        None => diagnostics::file_context::split_lines(source, 0),
    }
}

/// The machine that a script starts on: no variable, and the input and
/// output as they stand.
pub open spec fn starting_machine<T: TracedIo>(io: &T) -> Machine {
    Machine { store: Map::empty(), reads: io.lines_read().len(), output: io.written() }
}

/// What running `source` comes to. A text that does not parse gives the
/// errors of the parser and one that does not pass the type check gives the
/// first type error; neither reads or writes anything. A checked program is
/// run: the result is `Ok` when it runs to its end and the fault that
/// stopped it when it does not. `before` is the input and output at the
/// start and `after` at the end; what happens between them is stated for
/// every input `lines` that begins with the lines read up to the end.
pub open spec fn script_result<T: TracedIo>(
    source: Seq<char>,
    table: Seq<SpecLine>,
    before: &T,
    after: &T,
    result: Result<(), Vec<ExecutionError>>,
) -> bool {
    match parsing::grammar::parse_program(source, 0) {
        Err(errors) => {
            &&& result is Err
            &&& errors_view(result->Err_0@) == errors.map_values(
                |error: parsing::grammar::SpecError| SpecExecutionError::ParserError(error),
            )
            &&& after.lines_read() == before.lines_read()
            &&& after.written() == before.written()
        },
        Ok(program) => match semantic::typing::check_program(program) {
            Err(error) => {
                &&& result is Err
                &&& errors_view(result->Err_0@) == seq![SpecExecutionError::TypeError(error)]
                &&& after.lines_read() == before.lines_read()
                &&& after.written() == before.written()
            },
            Ok(_) => {
                &&& runtime::semantics::begins_with(after.lines_read(), before.lines_read())
                &&& forall|lines: Seq<Seq<char>>| #[trigger]
                    runtime::semantics::begins_with(lines, after.lines_read()) ==> ran(
                        program,
                        table,
                        lines,
                        starting_machine(before),
                        after,
                        result,
                    )
            },
        },
    }
}

/// Whether the run of `program` from `start` on the input `lines` ends
/// with the input and output `after` and the result `result`.
pub open spec fn ran<T: TracedIo>(
    program: Seq<SpecStatementWithCtx>,
    table: Seq<SpecLine>,
    lines: Seq<Seq<char>>,
    start: Machine,
    after: &T,
    result: Result<(), Vec<ExecutionError>>,
) -> bool {
    let run = runtime::semantics::run_block(start, program, lines, table);
    &&& run.machine.reads == after.lines_read().len()
    &&& run.machine.output == after.written()
    &&& match run.fault {
        None => result is Ok,
        Some(fault) => result is Err && errors_view(result->Err_0@)
            == seq![SpecExecutionError::RuntimeError(fault)],
    }
}

/// Whether `result` is what running `source` comes to on some input: a
/// text that does not parse gives the errors of the parser, one that does
/// not pass the type check gives the first type error, and a checked
/// program gives `Ok` when it runs to its end on that input and the fault
/// that stopped it when it does not.
pub open spec fn script_result_on_some_input(
    source: Seq<char>,
    table: Seq<SpecLine>,
    result: Result<(), Vec<ExecutionError>>,
) -> bool {
    match parsing::grammar::parse_program(source, 0) {
        Err(errors) => result is Err && errors_view(result->Err_0@) == errors.map_values(
            |error: parsing::grammar::SpecError| SpecExecutionError::ParserError(error),
        ),
        Ok(program) => match semantic::typing::check_program(program) {
            Err(error) => result is Err && errors_view(result->Err_0@)
                == seq![SpecExecutionError::TypeError(error)],
            Ok(_) => exists|lines: Seq<Seq<char>>|
                match (#[trigger] runtime::semantics::run_block(
                    runtime::semantics::initial_machine(),
                    program,
                    lines,
                    table,
                )).fault {
                    None => result is Ok,
                    Some(fault) => result is Err && errors_view(result->Err_0@)
                        == seq![SpecExecutionError::RuntimeError(fault)],
                },
        },
    }
}

/// Runs a script with the given input and output.
///
/// The text is parsed, type checked and, when it passes both, run. Failed
/// assertions quote the lines of `file_context`, or of `source` where no
/// context is given. Nothing is known of what `io` does, so the result of
/// a run is stated for the input that `io` handed out, whatever it was;
/// `run_script_traced` states what is read and written.
pub fn run_script<T: Io>(
    source: &str,
    io: &mut T,
    file_context: Option<Rc<FileContextSource>>,
) -> (result: Result<(), Vec<ExecutionError>>)
    ensures
        script_result_on_some_input(source@, quoted_table(source@, file_context), result),
        result matches Err(errors) ==> errors@.len() > 0 && parser_offsets_within(
            errors@,
            source@.len(),
        ),
{
    let mut traced = Traced::new(io);
    let ghost start = starting_machine(&traced);
    let result = run_script_traced(source, &mut traced, file_context);
    proof {
        let lines = traced.lines_read();
        assert(start == runtime::semantics::initial_machine());
        assert(lines.take(lines.len() as int) =~= lines);
        assert(runtime::semantics::begins_with(lines, lines));
    }
    result
}

/// Whether every error of the parser in the list is reported at an offset
/// within a text of `len` characters.
pub open spec fn parser_offsets_within(errors: Seq<ExecutionError>, len: nat) -> bool {
    forall|i: int|
        0 <= i < errors.len() ==> ((#[trigger] errors[i]) matches ExecutionError::ParserError(
            error,
        ) ==> error.1 <= len)
}

/// Runs a script with an input and output that keeps a record of its use.
pub fn run_script_traced<T: TracedIo>(
    source: &str,
    io: &mut T,
    file_context: Option<Rc<FileContextSource>>,
) -> (result: Result<(), Vec<ExecutionError>>)
    ensures
        script_result(source@, quoted_table(source@, file_context), old(io), final(io), result),
        result matches Err(errors) ==> errors@.len() > 0 && parser_offsets_within(
            errors@,
            source@.len(),
        ),
{
    let file_context = match file_context {
        Some(context) => context,
        None => Rc::new(FileContextSource::from_str(source, None)),
    };
    let tokens = CharStream::new(source);
    let lexer = BufferedLexer::new(tokens);
    let mut parser = Parser::new(lexer);
    let program = match parser.parse_program() {
        Ok(program) => program,
        Err(errors) => {
            return Err(parser_errors(errors));
        },
    };
    match semantic::type_checker::type_check(program.as_slice()) {
        Ok(_) => {},
        Err(error) => {
            let mut errors: Vec<ExecutionError> = Vec::new();
            errors.push(ExecutionError::TypeError(error));
            assert(errors_view(errors@) =~= seq![SpecExecutionError::TypeError(error@)]);
            return Err(errors);
        },
    }
    let mut interpreter = Interpreter::new(io, &*file_context);
    match interpreter.execute(program.as_slice()) {
        Ok(()) => Ok(()),
        Err(fault) => {
            let mut errors: Vec<ExecutionError> = Vec::new();
            errors.push(ExecutionError::RuntimeError(fault));
            assert(errors_view(errors@) =~= seq![SpecExecutionError::RuntimeError(fault)]);
            Err(errors)
        },
    }
}

/// The errors of the parser as errors of a script.
fn parser_errors(errors: Vec<ParserErrorWithCtx>) -> (listed: Vec<ExecutionError>)
    ensures
        errors_view(listed@) == parsing::grammar::errors_view(errors@).map_values(
            |error: parsing::grammar::SpecError| SpecExecutionError::ParserError(error),
        ),
        listed@.len() == errors@.len(),
        forall|i: int|
            0 <= i < listed@.len() ==> (#[trigger] listed@[i]) == ExecutionError::ParserError(
                errors@[i],
            ),
{
    let mut errors = errors;
    let ghost all = errors@;
    let mut listed: Vec<ExecutionError> = Vec::new();
    while errors.len() > 0
        invariant
            listed@.len() + errors@.len() == all.len(),
            errors@ == all.skip(listed@.len() as int),
            forall|i: int|
                0 <= i < listed@.len() ==> (#[trigger] listed@[i]) == ExecutionError::ParserError(
                    all[i],
                ),
        decreases errors@.len(),
    {
        let error = errors.remove(0);
        listed.push(ExecutionError::ParserError(error));
        assert(errors@ =~= all.skip(listed@.len() as int));
    }
    assert(errors_view(listed@) =~= parsing::grammar::errors_view(all).map_values(
        |error: parsing::grammar::SpecError| SpecExecutionError::ParserError(error),
    ));
    listed
}

} // verus!
