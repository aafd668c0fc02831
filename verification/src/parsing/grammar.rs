//! What the parser computes, stated over the characters of the source text.
//!
//! Every function here reads tokens from a position in the text and says
//! what the parser makes of them and where it then stands. A failed step
//! stands where it found the error: before a token it did not expect, or
//! where the lexer stopped.
use vstd::prelude::*;

use crate::common::errors::{ParserErrorWithCtx, SpecParserError};
use crate::common::types::{Operator, TypeName};
use crate::parsing::ast;
use crate::parsing::ast::{
    SpecExpression,
    SpecStatement,
    SpecStatementWithCtx,
    Statement,
    StatementWithCtx,
};
use crate::parsing::lexer;
use crate::parsing::token::SpecToken;

verus! {

/// A parser error with the offset it is reported at.
pub type SpecError = (SpecParserError, usize);

/// What a step of the parser gives, and where the token stream then stands.
pub struct Parsed<T> {
    pub result: Result<T, SpecError>,
    pub pos: int,
}

/// An entry of the operator stack of the expression parser.
#[derive(Debug, PartialEq, Eq, Clone, Copy, Structural)]
pub enum OpStackItem {
    Operator(Operator),
    LParen,
}

/// The failure of a step, handed on as the failure of the step around it.
pub open spec fn failed<A, B>(step: Parsed<A>) -> Parsed<B> {
    Parsed { result: Err(step.result->Err_0), pos: step.pos }
}

/// The failure to read a token at `pos`.
pub open spec fn lex_failure<T>(s: Seq<char>, pos: int) -> Parsed<T> {
    let lexed = lexer::lex_token(s, pos);
    Parsed {
        result: Err((SpecParserError::LexerError(lexed.result->Err_0), lexed.end as usize)),
        pos: lexed.end,
    }
}

/// Passes the token at `pos` if it is `expected`.
#[verifier::opaque]
pub open spec fn expect(s: Seq<char>, pos: int, expected: SpecToken) -> Parsed<()> {
    let lexed = lexer::lex_token(s, pos);
    match lexed.result {
        Err(_) => lex_failure(s, pos),
        Ok(next) => if next.token == expected {
            Parsed { result: Ok(()), pos: lexed.end }
        } else {
            Parsed {
                result: Err(
                    (
                        SpecParserError::UnexpectedToken {
                            expected: expected.kind(),
                            was: next.token.kind(),
                        },
                        next.offset,
                    ),
                ),
                pos,
            }
        },
    }
}

/// Passes the token at `pos` if it is an identifier, and gives its name.
#[verifier::opaque]
pub open spec fn expect_identifier(s: Seq<char>, pos: int) -> Parsed<Seq<char>> {
    let lexed = lexer::lex_token(s, pos);
    match lexed.result {
        Err(_) => lex_failure(s, pos),
        Ok(next) => match next.token {
            SpecToken::Identifier(name) => Parsed { result: Ok(name), pos: lexed.end },
            other => Parsed {
                result: Err(
                    (
                        SpecParserError::UnexpectedToken {
                            expected: crate::parsing::token::TokenKind::IdentifierK,
                            was: other.kind(),
                        },
                        next.offset,
                    ),
                ),
                pos,
            },
        },
    }
}

/// Passes the token at `pos` if it names a type, and gives the type.
#[verifier::opaque]
pub open spec fn expect_type_name(s: Seq<char>, pos: int) -> Parsed<TypeName> {
    let lexed = lexer::lex_token(s, pos);
    match lexed.result {
        Err(_) => lex_failure(s, pos),
        Ok(next) => match next.token {
            SpecToken::Type(ty) => Parsed { result: Ok(ty), pos: lexed.end },
            other => Parsed {
                result: Err(
                    (
                        SpecParserError::UnexpectedToken {
                            expected: crate::parsing::token::TokenKind::TypeK,
                            was: other.kind(),
                        },
                        next.offset,
                    ),
                ),
                pos,
            },
        },
    }
}

/// Takes the operands of `operator` from the top of the output stack and
/// puts the node made of them in their place: the right operand of a binary
/// operator is the topmost. `None` where operands are missing.
pub open spec fn fold_operator(operator: Operator, output: Seq<SpecExpression>) -> Option<
    Seq<SpecExpression>,
> {
    let n = output.len() as int;
    match operator {
        Operator::BinaryOperator(op) => if n >= 2 {
            Some(
                output.take(n - 2).push(
                    SpecExpression::BinaryOp(op, Box::new(output[n - 2]), Box::new(output[n - 1])),
                ),
            )
        } else {
            None
        },
        Operator::UnaryOperator(op) => if n >= 1 {
            Some(output.take(n - 1).push(SpecExpression::UnaryOp(op, Box::new(output[n - 1]))))
        } else {
            None
        },
    }
}

/// At a right parenthesis: folds the operators above the topmost left
/// parenthesis into the output and removes that parenthesis.
pub open spec fn close_paren(operators: Seq<OpStackItem>, output: Seq<SpecExpression>) -> Option<
    (Seq<OpStackItem>, Seq<SpecExpression>),
>
    decreases operators.len(),
{
    if operators.len() == 0 {
        Some((operators, output))
    } else {
        match operators.last() {
            OpStackItem::LParen => Some((operators.drop_last(), output)),
            OpStackItem::Operator(top) => match fold_operator(top, output) {
                Some(folded) => close_paren(operators.drop_last(), folded),
                None => None,
            },
        }
    }
}

/// Whether the operator `top` on the stack is applied before the operator
/// `incoming` that follows it in the text: it is when it binds tighter, and
/// also when it binds equally tight and `incoming` is a binary operator, so
/// that a chain of binary operators of one level nests to the left. A
/// unary operator stands before its operand, so it never folds an operator
/// of its own level.
pub open spec fn folds_first(top: Operator, incoming: Operator) -> bool {
    top.precedence() > incoming.precedence() || (top.precedence() == incoming.precedence()
        && incoming is BinaryOperator)
}

/// At an operator: folds into the output every operator on top of the stack
/// that is applied before `operator`, down to the first entry that is not.
pub open spec fn fold_before(
    operator: Operator,
    operators: Seq<OpStackItem>,
    output: Seq<SpecExpression>,
) -> Option<(Seq<OpStackItem>, Seq<SpecExpression>)>
    decreases operators.len(),
{
    if operators.len() == 0 {
        Some((operators, output))
    } else {
        match operators.last() {
            OpStackItem::LParen => Some((operators, output)),
            OpStackItem::Operator(top) => if folds_first(top, operator) {
                match fold_operator(top, output) {
                    Some(folded) => fold_before(operator, operators.drop_last(), folded),
                    None => None,
                }
            } else {
                Some((operators, output))
            },
        }
    }
}

/// A binary operator on top of the stack is folded before a binary
/// operator that binds no tighter goes to the stack: in `a - b - c` the
/// first `-` takes `a` and `b`, and the second takes that node and `c`.
pub proof fn lemma_binary_chain_nests_left(
    top: Operator,
    incoming: Operator,
    operators: Seq<OpStackItem>,
    output: Seq<SpecExpression>,
)
    requires
        top is BinaryOperator,
        incoming is BinaryOperator,
        incoming.precedence() <= top.precedence(),
        output.len() >= 2,
    ensures
        fold_operator(top, output) is Some,
        fold_before(incoming, operators.push(OpStackItem::Operator(top)), output) == fold_before(
            incoming,
            operators,
            fold_operator(top, output)->0,
        ),
{
    assert(operators.push(OpStackItem::Operator(top)).drop_last() =~= operators);
}

/// At the end of an expression: folds every operator left on the stack into
/// the output, topmost first. A left parenthesis left on the stack was never
/// closed.
pub open spec fn fold_all(operators: Seq<OpStackItem>, output: Seq<SpecExpression>) -> Result<
    Seq<SpecExpression>,
    SpecParserError,
>
    decreases operators.len(),
{
    if operators.len() == 0 {
        Ok(output)
    } else {
        match operators.last() {
            OpStackItem::LParen => Err(SpecParserError::MissingRParen),
            OpStackItem::Operator(top) => match fold_operator(top, output) {
                Some(folded) => fold_all(operators.drop_last(), folded),
                None => Err(SpecParserError::IncompleteExpression),
            },
        }
    }
}

/// The end of an expression that began at offset `start`: what is left on
/// the stacks must fold into exactly one node.
pub open spec fn finish_result(
    start: usize,
    output: Seq<SpecExpression>,
    operators: Seq<OpStackItem>,
) -> Result<SpecExpression, SpecError> {
    match fold_all(operators, output) {
        Err(error) => Err((error, start)),
        Ok(folded) => if folded.len() != 1 {
            Err((SpecParserError::InvalidBinaryExpression, start))
        } else {
            Ok(folded[0])
        },
    }
}

/// The end of an expression before the token at `pos`, which is not passed.
pub open spec fn finish_expression(
    pos: int,
    start: usize,
    output: Seq<SpecExpression>,
    operators: Seq<OpStackItem>,
) -> Parsed<SpecExpression> {
    Parsed { result: finish_result(start, output, operators), pos }
}

/// The shunting-yard loop from `pos` on, for an expression that began at
/// offset `start`, with the two stacks as they stand.
///
/// A literal or an identifier goes to the output. A left parenthesis goes to
/// the operator stack. A right parenthesis closes the topmost left one; where
/// the stack holds none, it ends the expression and is not passed. An
/// operator first folds the operators on the stack that are applied before
/// it, then goes to the stack: binary operators of one level associate to
/// the left. Any other token ends the expression and is not passed.
pub open spec fn parse_operands(
    s: Seq<char>,
    pos: int,
    start: usize,
    output: Seq<SpecExpression>,
    operators: Seq<OpStackItem>,
) -> Parsed<SpecExpression>
    decreases s.len() - pos,
    when 0 <= pos <= s.len()
{
    let lexed = lexer::lex_token(s, pos);
    match lexed.result {
        Err(_) => lex_failure(s, pos),
        Ok(next) => {
            proof {
                lexer::lemma_lex_token_progress(s, pos);
            }
            match next.token {
                SpecToken::Literal(value) => parse_operands(
                    s,
                    lexed.end,
                    start,
                    output.push(SpecExpression::Literal(value)),
                    operators,
                ),
                SpecToken::Identifier(name) => parse_operands(
                    s,
                    lexed.end,
                    start,
                    output.push(SpecExpression::Variable(name)),
                    operators,
                ),
                SpecToken::LParen => parse_operands(
                    s,
                    lexed.end,
                    start,
                    output,
                    operators.push(OpStackItem::LParen),
                ),
                SpecToken::RParen => if operators.contains(OpStackItem::LParen) {
                    match close_paren(operators, output) {
                        Some((rest, folded)) => parse_operands(s, lexed.end, start, folded, rest),
                        None => Parsed {
                            result: Err((SpecParserError::IncompleteExpression, start)),
                            pos: lexed.end,
                        },
                    }
                } else {
                    finish_expression(pos, start, output, operators)
                },
                SpecToken::Operator(operator) => match fold_before(operator, operators, output) {
                    Some((rest, folded)) => parse_operands(
                        s,
                        lexed.end,
                        start,
                        folded,
                        rest.push(OpStackItem::Operator(operator)),
                    ),
                    None => Parsed {
                        result: Err((SpecParserError::IncompleteExpression, start)),
                        pos: lexed.end,
                    },
                },
                _ => finish_expression(pos, start, output, operators),
            }
        },
    }
}

/// The expression that starts at `pos`. Errors that the expression parser
/// finds itself are reported at the offset of the expression's first token.
#[verifier::opaque]
pub open spec fn parse_expression(s: Seq<char>, pos: int) -> Parsed<SpecExpression> {
    match lexer::lex_token(s, pos).result {
        Err(_) => lex_failure(s, pos),
        Ok(first) => parse_operands(s, pos, first.offset, Seq::empty(), Seq::empty()),
    }
}

/// `print` expression `;`
#[verifier::opaque]
pub open spec fn parse_print(s: Seq<char>, pos: int) -> Parsed<SpecStatement> {
    let keyword = expect(s, pos, SpecToken::Print);
    if keyword.result is Err {
        failed(keyword)
    } else {
        let value = parse_expression(s, keyword.pos);
        if value.result is Err {
            failed(value)
        } else {
            let semicolon = expect(s, value.pos, SpecToken::Semicolon);
            if semicolon.result is Err {
                failed(semicolon)
            } else {
                Parsed {
                    result: Ok(SpecStatement::Print(value.result->Ok_0)),
                    pos: semicolon.pos,
                }
            }
        }
    }
}

/// `assert` expression `;`
#[verifier::opaque]
pub open spec fn parse_assertion(s: Seq<char>, pos: int) -> Parsed<SpecStatement> {
    let keyword = expect(s, pos, SpecToken::Assert);
    if keyword.result is Err {
        failed(keyword)
    } else {
        let value = parse_expression(s, keyword.pos);
        if value.result is Err {
            failed(value)
        } else {
            let semicolon = expect(s, value.pos, SpecToken::Semicolon);
            if semicolon.result is Err {
                failed(semicolon)
            } else {
                Parsed {
                    result: Ok(SpecStatement::Assert(value.result->Ok_0)),
                    pos: semicolon.pos,
                }
            }
        }
    }
}

/// `read` identifier `;`
#[verifier::opaque]
pub open spec fn parse_read(s: Seq<char>, pos: int) -> Parsed<SpecStatement> {
    let keyword = expect(s, pos, SpecToken::Read);
    if keyword.result is Err {
        failed(keyword)
    } else {
        let name = expect_identifier(s, keyword.pos);
        if name.result is Err {
            failed(name)
        } else {
            let semicolon = expect(s, name.pos, SpecToken::Semicolon);
            if semicolon.result is Err {
                failed(semicolon)
            } else {
                Parsed { result: Ok(SpecStatement::Read(name.result->Ok_0)), pos: semicolon.pos }
            }
        }
    }
}

/// identifier `:=` expression `;`
#[verifier::opaque]
pub open spec fn parse_assignment(s: Seq<char>, pos: int) -> Parsed<SpecStatement> {
    let name = expect_identifier(s, pos);
    if name.result is Err {
        failed(name)
    } else {
        let assign = expect(s, name.pos, SpecToken::Assign);
        if assign.result is Err {
            failed(assign)
        } else {
            let value = parse_expression(s, assign.pos);
            if value.result is Err {
                failed(value)
            } else {
                let semicolon = expect(s, value.pos, SpecToken::Semicolon);
                if semicolon.result is Err {
                    failed(semicolon)
                } else {
                    Parsed {
                        result: Ok(
                            SpecStatement::Assign(name.result->Ok_0, value.result->Ok_0),
                        ),
                        pos: semicolon.pos,
                    }
                }
            }
        }
    }
}

/// The optional initialiser of a declaration: `:=` expression, or nothing.
#[verifier::opaque]
pub open spec fn parse_initial(s: Seq<char>, pos: int) -> Parsed<Option<SpecExpression>> {
    let lexed = lexer::lex_token(s, pos);
    match lexed.result {
        Err(_) => lex_failure(s, pos),
        Ok(next) => if next.token == SpecToken::Assign {
            let value = parse_expression(s, lexed.end);
            if value.result is Err {
                failed(value)
            } else {
                Parsed { result: Ok(Some(value.result->Ok_0)), pos: value.pos }
            }
        } else {
            Parsed { result: Ok(None), pos }
        },
    }
}

/// `var` identifier `:` type, an optional initialiser, `;`
#[verifier::opaque]
pub open spec fn parse_declaration(s: Seq<char>, pos: int) -> Parsed<SpecStatement> {
    let keyword = expect(s, pos, SpecToken::Var);
    if keyword.result is Err {
        failed(keyword)
    } else {
        let name = expect_identifier(s, keyword.pos);
        if name.result is Err {
            failed(name)
        } else {
            let colon = expect(s, name.pos, SpecToken::Colon);
            if colon.result is Err {
                failed(colon)
            } else {
                let type_of = expect_type_name(s, colon.pos);
                if type_of.result is Err {
                    failed(type_of)
                } else {
                    let initial = parse_initial(s, type_of.pos);
                    if initial.result is Err {
                        failed(initial)
                    } else {
                        let semicolon = expect(s, initial.pos, SpecToken::Semicolon);
                        if semicolon.result is Err {
                            failed(semicolon)
                        } else {
                            Parsed {
                                result: Ok(
                                    SpecStatement::Declare {
                                        name: name.result->Ok_0,
                                        type_of: type_of.result->Ok_0,
                                        initial: initial.result->Ok_0,
                                    },
                                ),
                                pos: semicolon.pos,
                            }
                        }
                    }
                }
            }
        }
    }
}

/// The head of a loop: `for` identifier `in` expression `..` expression
/// `do`. Gives the variable and the two bounds.
#[verifier::opaque]
pub open spec fn parse_for_head(s: Seq<char>, pos: int) -> Parsed<
    (Seq<char>, SpecExpression, SpecExpression),
> {
    let keyword = expect(s, pos, SpecToken::For);
    if keyword.result is Err {
        failed(keyword)
    } else {
        let variable = expect_identifier(s, keyword.pos);
        if variable.result is Err {
            failed(variable)
        } else {
            let in_keyword = expect(s, variable.pos, SpecToken::In);
            if in_keyword.result is Err {
                failed(in_keyword)
            } else {
                let from = parse_expression(s, in_keyword.pos);
                if from.result is Err {
                    failed(from)
                } else {
                    let range = expect(s, from.pos, SpecToken::Range);
                    if range.result is Err {
                        failed(range)
                    } else {
                        let to = parse_expression(s, range.pos);
                        if to.result is Err {
                            failed(to)
                        } else {
                            let do_keyword = expect(s, to.pos, SpecToken::Do);
                            if do_keyword.result is Err {
                                failed(do_keyword)
                            } else {
                                Parsed {
                                    result: Ok(
                                        (
                                            variable.result->Ok_0,
                                            from.result->Ok_0,
                                            to.result->Ok_0,
                                        ),
                                    ),
                                    pos: do_keyword.pos,
                                }
                            }
                        }
                    }
                }
            }
        }
    }
}

/// The tail of a loop: `end` `for` `;`
#[verifier::opaque]
pub open spec fn parse_for_tail(s: Seq<char>, pos: int) -> Parsed<()> {
    let end_keyword = expect(s, pos, SpecToken::End);
    if end_keyword.result is Err {
        failed(end_keyword)
    } else {
        let for_keyword = expect(s, end_keyword.pos, SpecToken::For);
        if for_keyword.result is Err {
            failed(for_keyword)
        } else {
            expect(s, for_keyword.pos, SpecToken::Semicolon)
        }
    }
}

/// A loop: its head, the statements of its body, its tail.
pub open spec fn parse_for(s: Seq<char>, pos: int) -> Parsed<SpecStatement>
    decreases s.len() - pos, 0int,
    when 0 <= pos <= s.len() <= usize::MAX
{
    let head = parse_for_head(s, pos);
    if head.result is Err {
        failed(head)
    } else {
        proof {
            lemma_simple_statement_advanced(s, pos);
        }
        let body = parse_statements(s, head.pos, Seq::empty());
        if body.result is Err {
            failed(body)
        } else {
            let tail = parse_for_tail(s, body.pos);
            if tail.result is Err {
                failed(tail)
            } else {
                Parsed {
                    result: Ok(
                        SpecStatement::For {
                            variable: head.result->Ok_0.0,
                            from: head.result->Ok_0.1,
                            to: head.result->Ok_0.2,
                            run: body.result->Ok_0,
                        },
                    ),
                    pos: tail.pos,
                }
            }
        }
    }
}

/// One statement, chosen by its first token.
pub open spec fn parse_statement(s: Seq<char>, pos: int) -> Parsed<SpecStatement>
    decreases s.len() - pos, 1int,
{
    match lexer::lex_token(s, pos).result {
        Err(_) => lex_failure(s, pos),
        Ok(first) => match first.token {
            SpecToken::Print => parse_print(s, pos),
            SpecToken::Read => parse_read(s, pos),
            SpecToken::Var => parse_declaration(s, pos),
            SpecToken::Assert => parse_assertion(s, pos),
            SpecToken::Identifier(_) => parse_assignment(s, pos),
            SpecToken::For => parse_for(s, pos),
            other => Parsed {
                result: Err(
                    (SpecParserError::UnknownStatement { first: other.kind() }, first.offset),
                ),
                pos,
            },
        },
    }
}

/// The statements from `pos` up to the end of the text or the word `end`,
/// after the statements in `done`. Each statement is given with the offset
/// of its first token and the offset after its last.
pub open spec fn parse_statements(
    s: Seq<char>,
    pos: int,
    done: Seq<SpecStatementWithCtx>,
) -> Parsed<Seq<SpecStatementWithCtx>>
    decreases s.len() - pos, 2int,
{
    match lexer::lex_token(s, pos).result {
        Err(_) => lex_failure(s, pos),
        Ok(next) => if next.token == SpecToken::EndOfFile || next.token == SpecToken::End {
            Parsed { result: Ok(done), pos }
        } else {
            let statement = parse_statement(s, pos);
            if statement.result is Err {
                failed(statement)
            } else {
                let read = done.push(
                    SpecStatementWithCtx {
                        start: next.offset,
                        end: statement.pos as usize,
                        statement: statement.result->Ok_0,
                    },
                );
                if !(pos < statement.pos <= s.len()) {
                    // A statement holds tokens, so this case does not arise;
                    // see `lemma_statement_advanced`.
                    Parsed { result: Ok(read), pos }
                } else {
                    parse_statements(s, statement.pos, read)
                }
            }
        },
    }
}

/// The statements from `pos` up to the end of the text or the word `end`.
#[verifier::opaque]
pub open spec fn parse_statement_list(s: Seq<char>, pos: int) -> Parsed<Seq<SpecStatementWithCtx>> {
    parse_statements(s, pos, Seq::empty())
}

/// Recovery after an error: passes tokens up to and including the next
/// semicolon. It fails, and stops there, at the end of the text and at a
/// token that cannot be read.
pub open spec fn recover(s: Seq<char>, pos: int) -> (bool, int)
    decreases s.len() - pos,
    when 0 <= pos <= s.len()
{
    let lexed = lexer::lex_token(s, pos);
    match lexed.result {
        Err(_) => (false, lexed.end),
        Ok(next) => {
            proof {
                lexer::lemma_lex_token_progress(s, pos);
            }
            match next.token {
                SpecToken::Semicolon => (true, lexed.end),
                SpecToken::EndOfFile => (false, pos),
                _ => recover(s, lexed.end),
            }
        },
    }
}

/// The program that starts at `pos`, after the errors in `errors` have been
/// found before it.
///
/// Where the statements parse and the end of the text follows them, and no
/// error was found before, the result is the program. An error is added to
/// the list; after it the parser recovers and goes on, to find the errors
/// that follow, and stops where it cannot recover.
pub open spec fn parse_program_after(s: Seq<char>, pos: int, errors: Seq<SpecError>) -> Result<
    Seq<SpecStatementWithCtx>,
    Seq<SpecError>,
>
    decreases s.len() - pos,
    when 0 <= pos <= s.len() <= usize::MAX
{
    let statements = parse_statement_list(s, pos);
    match statements.result {
        Ok(program) => match expect(s, statements.pos, SpecToken::EndOfFile).result {
            Ok(_) => if errors.len() == 0 {
                Ok(program)
            } else {
                Err(errors)
            },
            Err(error) => Err(errors.push(error)),
        },
        Err(error) => {
            let (recovered, after) = recover(s, statements.pos);
            if recovered {
                proof {
                    reveal(parse_statement_list);
                    lemma_statements_within(s, pos, Seq::empty());
                    lemma_recover_within(s, statements.pos);
                }
                parse_program_after(s, after, errors.push(error))
            } else {
                Err(errors.push(error))
            }
        },
    }
}

/// The program that the text `s` holds from `pos` on, or the errors in it.
pub open spec fn parse_program(s: Seq<char>, pos: int) -> Result<
    Seq<SpecStatementWithCtx>,
    Seq<SpecError>,
> {
    parse_program_after(s, pos, Seq::empty())
}

/// The mathematical content of a list of errors.
pub open spec fn errors_view(errors: Seq<ParserErrorWithCtx>) -> Seq<SpecError> {
    errors.map_values(|e: ParserErrorWithCtx| e@)
}

/// The mathematical content of what a step returned, for a step that
/// returns a plain value.
pub open spec fn plain_parsed<T>(step: Result<T, ParserErrorWithCtx>, pos: int) -> Parsed<T> {
    Parsed {
        result: match step {
            Ok(value) => Ok(value),
            Err(error) => Err(error@),
        },
        pos,
    }
}

/// The mathematical content of what a step returned, for a step that
/// returns a value with a view.
pub open spec fn view_parsed<T: View>(step: Result<T, ParserErrorWithCtx>, pos: int) -> Parsed<
    T::V,
> {
    Parsed {
        result: match step {
            Ok(value) => Ok(value@),
            Err(error) => Err(error@),
        },
        pos,
    }
}

/// The mathematical content of what a statement parser returned that lists
/// its one error.
pub open spec fn statement_parsed(
    step: Result<Statement, Vec<ParserErrorWithCtx>>,
    pos: int,
    expected: Parsed<SpecStatement>,
) -> bool {
    &&& pos == expected.pos
    &&& match expected.result {
        Ok(statement) => step is Ok && step->Ok_0@ == statement,
        Err(error) => step is Err && errors_view(step->Err_0@) == seq![error],
    }
}

/// The mathematical content of what the parser of a statement list
/// returned.
pub open spec fn statements_parsed(
    step: Result<Vec<StatementWithCtx>, Vec<ParserErrorWithCtx>>,
    pos: int,
    expected: Parsed<Seq<SpecStatementWithCtx>>,
) -> bool {
    &&& pos == expected.pos
    &&& match expected.result {
        Ok(statements) => step is Ok && ast::block_view(step->Ok_0@) == statements,
        Err(error) => step is Err && errors_view(step->Err_0@) == seq![error],
    }
}

/// Whether every error in the list is reported at an offset within a text
/// of `len` characters.
pub open spec fn offsets_within(errors: Seq<ParserErrorWithCtx>, len: nat) -> bool {
    forall|i: int| 0 <= i < errors.len() ==> (#[trigger] errors[i]).1 <= len
}

/// Whether a step that began at `pos` ended within the text, at or after
/// `pos`, and reports its error, if it has one, at an offset within the
/// text.
pub open spec fn within<T>(step: Parsed<T>, s: Seq<char>, pos: int) -> bool {
    &&& pos <= step.pos <= s.len()
    &&& step.result matches Err(error) ==> error.1 <= s.len()
}

/// Whether a step that began at `pos` stayed within the text and, where it
/// succeeded, passed at least one token.
pub open spec fn advanced<T>(step: Parsed<T>, s: Seq<char>, pos: int) -> bool {
    &&& within(step, s, pos)
    &&& step.result is Ok ==> pos < step.pos
}

/// Expecting a token stays within the text, and passing a token other than
/// the end of the text moves forward.
pub proof fn lemma_expect_within(s: Seq<char>, pos: int, expected: SpecToken)
    requires
        0 <= pos <= s.len() <= usize::MAX,
    ensures
        within(expect(s, pos, expected), s, pos),
        !(expected is EndOfFile) ==> advanced(expect(s, pos, expected), s, pos),
{
    reveal(expect);
    lexer::lemma_lex_token_bounds(s, pos);
}

/// Expecting an identifier stays within the text, and passing one moves
/// forward.
pub proof fn lemma_expect_identifier_within(s: Seq<char>, pos: int)
    requires
        0 <= pos <= s.len() <= usize::MAX,
    ensures
        advanced(expect_identifier(s, pos), s, pos),
{
    reveal(expect_identifier);
    lexer::lemma_lex_token_bounds(s, pos);
}

/// Expecting the name of a type stays within the text, and passing one
/// moves forward.
pub proof fn lemma_expect_type_name_within(s: Seq<char>, pos: int)
    requires
        0 <= pos <= s.len() <= usize::MAX,
    ensures
        advanced(expect_type_name(s, pos), s, pos),
{
    reveal(expect_type_name);
    lexer::lemma_lex_token_bounds(s, pos);
}

/// The shunting-yard loop stays within the text.
pub proof fn lemma_parse_operands_within(
    s: Seq<char>,
    pos: int,
    start: usize,
    output: Seq<SpecExpression>,
    operators: Seq<OpStackItem>,
)
    requires
        0 <= pos <= s.len() <= usize::MAX,
        start <= s.len(),
    ensures
        within(parse_operands(s, pos, start, output, operators), s, pos),
    decreases s.len() - pos,
{
    let lexed = lexer::lex_token(s, pos);
    lexer::lemma_lex_token_bounds(s, pos);
    match lexed.result {
        Err(_) => {},
        Ok(next) => {
            match next.token {
                SpecToken::Literal(value) => {
                    lemma_parse_operands_within(
                        s,
                        lexed.end,
                        start,
                        output.push(SpecExpression::Literal(value)),
                        operators,
                    );
                },
                SpecToken::Identifier(name) => {
                    lemma_parse_operands_within(
                        s,
                        lexed.end,
                        start,
                        output.push(SpecExpression::Variable(name)),
                        operators,
                    );
                },
                SpecToken::LParen => {
                    lemma_parse_operands_within(
                        s,
                        lexed.end,
                        start,
                        output,
                        operators.push(OpStackItem::LParen),
                    );
                },
                SpecToken::RParen => {
                    if operators.contains(OpStackItem::LParen) {
                        match close_paren(operators, output) {
                            Some((rest, folded)) => {
                                lemma_parse_operands_within(s, lexed.end, start, folded, rest);
                            },
                            None => {},
                        }
                    }
                },
                SpecToken::Operator(operator) => {
                    match fold_before(operator, operators, output) {
                        Some((rest, folded)) => {
                            lemma_parse_operands_within(
                                s,
                                lexed.end,
                                start,
                                folded,
                                rest.push(OpStackItem::Operator(operator)),
                            );
                        },
                        None => {},
                    }
                },
                _ => {},
            }
        },
    }
}

/// Parsing an expression stays within the text.
pub proof fn lemma_parse_expression_within(s: Seq<char>, pos: int)
    requires
        0 <= pos <= s.len() <= usize::MAX,
    ensures
        within(parse_expression(s, pos), s, pos),
{
    reveal(parse_expression);
    lexer::lemma_lex_token_bounds(s, pos);
    if lexer::lex_token(s, pos).result is Ok {
        let first = lexer::lex_token(s, pos).result->Ok_0;
        lemma_parse_operands_within(s, pos, first.offset, Seq::empty(), Seq::empty());
    }
}

/// A statement that is no loop stays within the text and, where it
/// parses, passes at least one token.
pub proof fn lemma_simple_statement_advanced(s: Seq<char>, pos: int)
    requires
        0 <= pos <= s.len() <= usize::MAX,
    ensures
        advanced(parse_print(s, pos), s, pos),
        advanced(parse_assertion(s, pos), s, pos),
        advanced(parse_read(s, pos), s, pos),
        advanced(parse_assignment(s, pos), s, pos),
        advanced(parse_declaration(s, pos), s, pos),
        advanced(parse_for_head(s, pos), s, pos),
{
    reveal(parse_print);
    reveal(parse_assertion);
    reveal(parse_read);
    reveal(parse_assignment);
    reveal(parse_declaration);
    reveal(parse_initial);
    reveal(parse_for_head);
    lemma_expect_within(s, pos, SpecToken::Print);
    let print = expect(s, pos, SpecToken::Print);
    if print.result is Ok {
        lemma_parse_expression_within(s, print.pos);
        lemma_expect_within(s, parse_expression(s, print.pos).pos, SpecToken::Semicolon);
    }
    lemma_expect_within(s, pos, SpecToken::Assert);
    let assertion = expect(s, pos, SpecToken::Assert);
    if assertion.result is Ok {
        lemma_parse_expression_within(s, assertion.pos);
        lemma_expect_within(s, parse_expression(s, assertion.pos).pos, SpecToken::Semicolon);
    }
    lemma_expect_within(s, pos, SpecToken::Read);
    let read = expect(s, pos, SpecToken::Read);
    if read.result is Ok {
        lemma_expect_identifier_within(s, read.pos);
        lemma_expect_within(s, expect_identifier(s, read.pos).pos, SpecToken::Semicolon);
    }
    lemma_expect_identifier_within(s, pos);
    let name = expect_identifier(s, pos);
    if name.result is Ok {
        lemma_expect_within(s, name.pos, SpecToken::Assign);
        let assign = expect(s, name.pos, SpecToken::Assign);
        if assign.result is Ok {
            lemma_parse_expression_within(s, assign.pos);
            lemma_expect_within(s, parse_expression(s, assign.pos).pos, SpecToken::Semicolon);
        }
    }
    lemma_expect_within(s, pos, SpecToken::Var);
    let var = expect(s, pos, SpecToken::Var);
    if var.result is Ok {
        lemma_expect_identifier_within(s, var.pos);
        let declared = expect_identifier(s, var.pos);
        if declared.result is Ok {
            lemma_expect_within(s, declared.pos, SpecToken::Colon);
            let colon = expect(s, declared.pos, SpecToken::Colon);
            if colon.result is Ok {
                lemma_expect_type_name_within(s, colon.pos);
                let type_of = expect_type_name(s, colon.pos);
                if type_of.result is Ok {
                    lexer::lemma_lex_token_bounds(s, type_of.pos);
                    let lexed = lexer::lex_token(s, type_of.pos);
                    if lexed.result is Ok {
                        lemma_parse_expression_within(s, lexed.end);
                    }
                    lemma_expect_within(s, parse_initial(s, type_of.pos).pos, SpecToken::Semicolon);
                }
            }
        }
    }
    lemma_expect_within(s, pos, SpecToken::For);
    let for_keyword = expect(s, pos, SpecToken::For);
    if for_keyword.result is Ok {
        lemma_expect_identifier_within(s, for_keyword.pos);
        let variable = expect_identifier(s, for_keyword.pos);
        if variable.result is Ok {
            lemma_expect_within(s, variable.pos, SpecToken::In);
            let in_keyword = expect(s, variable.pos, SpecToken::In);
            if in_keyword.result is Ok {
                lemma_parse_expression_within(s, in_keyword.pos);
                let from = parse_expression(s, in_keyword.pos);
                lemma_expect_within(s, from.pos, SpecToken::Range);
                let range = expect(s, from.pos, SpecToken::Range);
                if from.result is Ok && range.result is Ok {
                    lemma_parse_expression_within(s, range.pos);
                    lemma_expect_within(s, parse_expression(s, range.pos).pos, SpecToken::Do);
                }
            }
        }
    }
}

/// The tail of a loop stays within the text.
pub proof fn lemma_for_tail_within(s: Seq<char>, pos: int)
    requires
        0 <= pos <= s.len() <= usize::MAX,
    ensures
        within(parse_for_tail(s, pos), s, pos),
{
    reveal(parse_for_tail);
    lemma_expect_within(s, pos, SpecToken::End);
    let end_keyword = expect(s, pos, SpecToken::End);
    if end_keyword.result is Ok {
        lemma_expect_within(s, end_keyword.pos, SpecToken::For);
        let for_keyword = expect(s, end_keyword.pos, SpecToken::For);
        if for_keyword.result is Ok {
            lemma_expect_within(s, for_keyword.pos, SpecToken::Semicolon);
        }
    }
}

/// A statement stays within the text and, where it parses, passes at
/// least one token.
pub proof fn lemma_statement_advanced(s: Seq<char>, pos: int)
    requires
        0 <= pos <= s.len() <= usize::MAX,
    ensures
        advanced(parse_statement(s, pos), s, pos),
    decreases s.len() - pos, 1int,
{
    lexer::lemma_lex_token_bounds(s, pos);
    lemma_simple_statement_advanced(s, pos);
    if lexer::lex_token(s, pos).result is Ok {
        let first = lexer::lex_token(s, pos).result->Ok_0;
        if first.token is For {
            lemma_for_advanced(s, pos);
        }
    }
}

/// A loop stays within the text and, where it parses, passes at least
/// one token.
pub proof fn lemma_for_advanced(s: Seq<char>, pos: int)
    requires
        0 <= pos <= s.len() <= usize::MAX,
    ensures
        advanced(parse_for(s, pos), s, pos),
    decreases s.len() - pos, 0int,
{
    lemma_simple_statement_advanced(s, pos);
    let head = parse_for_head(s, pos);
    if head.result is Ok {
        lemma_statements_within(s, head.pos, Seq::empty());
        let body = parse_statements(s, head.pos, Seq::empty());
        if body.result is Ok {
            lemma_for_tail_within(s, body.pos);
        }
    }
}

/// A list of statements stays within the text.
pub proof fn lemma_statements_within(s: Seq<char>, pos: int, done: Seq<SpecStatementWithCtx>)
    requires
        0 <= pos <= s.len() <= usize::MAX,
    ensures
        within(parse_statements(s, pos, done), s, pos),
    decreases s.len() - pos, 2int,
{
    lexer::lemma_lex_token_bounds(s, pos);
    if lexer::lex_token(s, pos).result is Ok {
        let next = lexer::lex_token(s, pos).result->Ok_0;
        if !(next.token == SpecToken::EndOfFile || next.token == SpecToken::End) {
            lemma_statement_advanced(s, pos);
            let statement = parse_statement(s, pos);
            if statement.result is Ok {
                lemma_statements_within(
                    s,
                    statement.pos,
                    done.push(
                        SpecStatementWithCtx {
                            start: next.offset,
                            end: statement.pos as usize,
                            statement: statement.result->Ok_0,
                        },
                    ),
                );
            }
        }
    }
}

/// Recovery stays within the text and, where it succeeds, passes at least
/// one token.
pub proof fn lemma_recover_within(s: Seq<char>, pos: int)
    requires
        0 <= pos <= s.len() <= usize::MAX,
    ensures
        pos <= recover(s, pos).1 <= s.len(),
        recover(s, pos).0 ==> pos < recover(s, pos).1,
    decreases s.len() - pos,
{
    lexer::lemma_lex_token_bounds(s, pos);
    let lexed = lexer::lex_token(s, pos);
    if lexed.result is Ok {
        let next = lexed.result->Ok_0;
        if !(next.token is Semicolon) && !(next.token is EndOfFile) {
            lemma_recover_within(s, lexed.end);
        }
    }
}

/// Every error in the list of a program that does not parse is reported at
/// an offset within the text, where the errors found before are.
pub proof fn lemma_program_errors_within(s: Seq<char>, pos: int, errors: Seq<SpecError>)
    requires
        0 <= pos <= s.len() <= usize::MAX,
        forall|i: int| 0 <= i < errors.len() ==> (#[trigger] errors[i]).1 <= s.len(),
    ensures
        parse_program_after(s, pos, errors) matches Err(all) ==> all.len() > 0 && forall|i: int|
            0 <= i < all.len() ==> (#[trigger] all[i]).1 <= s.len(),
    decreases s.len() - pos,
{
    reveal(parse_statement_list);
    lemma_statements_within(s, pos, Seq::empty());
    let statements = parse_statement_list(s, pos);
    match statements.result {
        Ok(_) => {
            lemma_expect_within(s, statements.pos, SpecToken::EndOfFile);
        },
        Err(error) => {
            lemma_recover_within(s, statements.pos);
            let (recovered, after) = recover(s, statements.pos);
            if recovered {
                lemma_program_errors_within(s, after, errors.push(error));
            }
        },
    }
}

/// A text that does not parse has at least one error, and each is reported
/// at an offset within the text.
pub proof fn lemma_parse_errors_within(s: Seq<char>)
    requires
        s.len() <= usize::MAX,
    ensures
        parse_program(s, 0) matches Err(errors) ==> errors.len() > 0 && forall|i: int|
            0 <= i < errors.len() ==> (#[trigger] errors[i]).1 <= s.len(),
{
    lemma_program_errors_within(s, 0, Seq::empty());
}

} // verus!
