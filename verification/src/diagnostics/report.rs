//! The report of the errors of a script, as text.
use vstd::prelude::*;

use crate::common::errors::{ErrorWithContext, ErrorWithReason};
use crate::common::text;
use crate::diagnostics::file_context;
use crate::diagnostics::file_context::{FileContextSource, SpecLine};
use crate::ExecutionError;

verus! {

/// The first line of a report and the empty line after it: how many errors
/// there are and, where it is known, in which file.
pub open spec fn report_header(count: nat, file_name: Option<Seq<char>>) -> Seq<char> {
    "Encountered "@ + text::decimal_digits(count) + (if count == 1 {
        " error"@
    } else {
        " errors"@
    }) + (match file_name {
        Some(name) => " in "@ + name,
        None => Seq::empty(),
    }) + ":\n\n"@
}

/// The quote of the row `row`, or nothing where the text has no such row.
pub open spec fn quoted_row(table: Seq<SpecLine>, row: int) -> Seq<char> {
    match file_context::line_at(table, row) {
        Some(line) => file_context::quote_line(row as nat, line),
        None => Seq::empty(),
    }
}

/// The line that names the kind of an error and gives its reason, where it
/// has one.
pub open spec fn reason_line(category: Seq<char>, reason: Option<Seq<char>>) -> Seq<char> {
    match reason {
        Some(reason) => category + ": "@ + reason + "\n"@,
        None => category + ".\n"@,
    }
}

/// The part of a report that places an error of the parser: its row and
/// column. Nothing where the offset lies outside the text.
pub open spec fn position_line(table: Seq<SpecLine>, offset: usize) -> Seq<char> {
    match file_context::position_of(table, offset) {
        Some(position) => "On row "@ + text::decimal_digits(position.row as nat) + ", column "@
            + text::decimal_digits(position.column as nat) + ":\n"@,
        None => Seq::empty(),
    }
}

/// The part of a report that quotes the source at an error of the parser:
/// the row of the error, the row before it and the row after it, as far as
/// they exist, and an empty line. Nothing where the offset lies outside
/// the text.
pub open spec fn quoted_rows(table: Seq<SpecLine>, offset: usize) -> Seq<char> {
    match file_context::position_of(table, offset) {
        Some(position) => quoted_row(table, position.row - 1) + quoted_row(
            table,
            position.row as int,
        ) + quoted_row(table, position.row + 1) + "\n"@,
        None => Seq::empty(),
    }
}

/// The part of a report for one error.
pub open spec fn report_entry(table: Seq<SpecLine>, error: ExecutionError) -> Seq<char> {
    match error {
        ExecutionError::ParserError(error) => position_line(table, error.1) + reason_line(
            "Parser error"@,
            error.reason(),
        ) + quoted_rows(table, error.1),
        ExecutionError::TypeError(error) => reason_line("Type error"@, error.reason()),
        ExecutionError::RuntimeError(fault) => reason_line("Runtime error"@, fault.reason()),
    }
}

/// The parts of a report for the errors in `errors`, in order.
pub open spec fn report_entries(table: Seq<SpecLine>, errors: Seq<ExecutionError>) -> Seq<char>
    decreases errors.len(),
{
    if errors.len() == 0 {
        Seq::empty()
    } else {
        report_entries(table, errors.drop_last()) + report_entry(table, errors.last())
    }
}

/// The report of the errors of a script.
pub open spec fn report(
    table: Seq<SpecLine>,
    file_name: Option<Seq<char>>,
    errors: Seq<ExecutionError>,
) -> Seq<char> {
    report_header(errors.len(), file_name) + report_entries(table, errors)
}

fn push_reason_line(out: &mut String, category: &str, reason: Option<String>)
    ensures
        final(out)@ == old(out)@ + reason_line(category@, text::text_of(reason)),
{
    out.append(category);
    match reason {
        Some(reason) => {
            out.append(": ");
            out.append(reason.as_str());
            out.append("\n");
        },
        None => {
            out.append(".\n");
        },
    }
    assert(out@ =~= old(out)@ + reason_line(category@, text::text_of(reason)));
}

fn push_quoted_row(out: &mut String, ctx: &FileContextSource, row: usize)
    ensures
        final(out)@ == old(out)@ + quoted_row(ctx.table(), row as int),
{
    match ctx.get_line(row) {
        Some(line) => {
            let quote = file_context::format_source_quote_line(row, line.as_str());
            out.append(quote.as_str());
        },
        None => {
            assert(out@ =~= old(out)@ + quoted_row(ctx.table(), row as int));
        },
    }
}

fn push_entry(out: &mut String, ctx: &FileContextSource, error: &ExecutionError)
    ensures
        final(out)@ == old(out)@ + report_entry(ctx.table(), *error),
{
    let ghost before = out@;
    match error {
        ExecutionError::ParserError(err) => {
            let offset = err.get_offset();
            let position = ctx.decode_offset(offset);
            match position {
                Some(position) => {
                    out.append("On row ");
                    text::push_decimal_digits(out, position.row);
                    out.append(", column ");
                    text::push_decimal_digits(out, position.column);
                    out.append(":\n");
                    assert(out@ =~= before + position_line(ctx.table(), offset));
                },
                None => {
                    assert(out@ =~= before + position_line(ctx.table(), offset));
                },
            }
            push_reason_line(out, "Parser error", err.get_reason());
            let ghost reasoned = out@;
            match position {
                Some(position) => {
                    push_quoted_row(out, ctx, position.row - 1);
                    push_quoted_row(out, ctx, position.row);
                    if position.row < ctx.lines.len() {
                        push_quoted_row(out, ctx, position.row + 1);
                    }
                    out.append("\n");
                    assert(out@ =~= reasoned + quoted_rows(ctx.table(), offset));
                },
                None => {
                    assert(out@ =~= reasoned + quoted_rows(ctx.table(), offset));
                },
            }
            assert(out@ =~= before + report_entry(ctx.table(), *error));
        },
        ExecutionError::TypeError(err) => {
            push_reason_line(out, "Type error", err.get_reason());
        },
        ExecutionError::RuntimeError(fault) => {
            push_reason_line(out, "Runtime error", fault.get_reason());
        },
    }
}

/// The report of `errors`: a heading with their number, and for each
/// error its kind and reason, in their order. An error of the parser is
/// given with its row and column and a quote of the source around it.
pub fn format_errors(errors: &Vec<ExecutionError>, ctx: &FileContextSource) -> (text: String)
    ensures
        text@ == report(ctx.table(), text::text_of(ctx.file_name), errors@),
{
    let mut out = String::from_str("Encountered ");
    text::push_decimal_digits(&mut out, errors.len());
    if errors.len() == 1 {
        out.append(" error");
    } else {
        out.append(" errors");
    }
    match &ctx.file_name {
        Some(file_name) => {
            out.append(" in ");
            out.append(file_name.as_str());
        },
        None => {},
    }
    out.append(":\n\n");
    let ghost header = report_header(errors@.len(), text::text_of(ctx.file_name));
    assert(out@ =~= header);
    let mut i: usize = 0;
    assert(errors@.take(0) =~= Seq::empty());
    while i < errors.len()
        invariant
            i <= errors.len(),
            out@ == header + report_entries(ctx.table(), errors@.take(i as int)),
        decreases errors.len() - i,
    {
        let ghost before = out@;
        push_entry(&mut out, ctx, &errors[i]);
        assert(errors@.take(i + 1).drop_last() =~= errors@.take(i as int));
        assert(out@ =~= header + report_entries(ctx.table(), errors@.take(i + 1)));
        i += 1;
    }
    assert(errors@.take(errors.len() as int) =~= errors@);
    out
}

} // verus!
