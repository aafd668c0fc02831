//! The parser: recursive descent for statements, a shunting-yard loop for
//! expressions, and recovery at semicolons to report more than one error.
use vstd::prelude::*;

use crate::common::errors::{
    ErrWithCtx,
    ParserError,
    ParserErrorWithCtx,
    ParserErrors,
    SpecParserError,
    TryRecover,
};
use crate::common::types::{Operator, TypeName};
use crate::common::util::ResultExt;
use crate::parsing::ast;
use crate::parsing::ast::{Expression, Statement, StatementWithCtx};
use crate::parsing::grammar;
use crate::parsing::grammar::OpStackItem;
use crate::parsing::lexer;
use crate::parsing::token::{Token, TokenKind};
use crate::parsing::token_stream::TokenStream;

verus! {

/// Folds `operator` with its operands from the top of `output`.
fn create_node(operator: Operator, output: &mut Vec<Expression>) -> (made: Result<(), ParserError>)
    ensures
        match grammar::fold_operator(operator, ast::expressions_view(old(output)@)) {
            Some(folded) => made is Ok && ast::expressions_view(final(output)@) == folded,
            None => made is Err && made->Err_0@ == SpecParserError::IncompleteExpression,
        },
{
    let ghost before = ast::expressions_view(output@);
    match operator {
        Operator::BinaryOperator(op) => {
            let right = match output.pop() {
                Some(e) => e,
                None => {
                    return Err(ParserError::IncompleteExpression);
                },
            };
            let left = match output.pop() {
                Some(e) => e,
                None => {
                    return Err(ParserError::IncompleteExpression);
                },
            };
            output.push(Expression::BinaryOp(op, Box::new((left, right))));
            assert(ast::expressions_view(output@) =~= grammar::fold_operator(
                operator,
                before,
            )->0);
            Ok(())
        },
        Operator::UnaryOperator(op) => {
            let inner = match output.pop() {
                Some(e) => e,
                None => {
                    return Err(ParserError::IncompleteExpression);
                },
            };
            output.push(Expression::UnaryOp(op, Box::new(inner)));
            assert(ast::expressions_view(output@) =~= grammar::fold_operator(
                operator,
                before,
            )->0);
            Ok(())
        },
    }
}

/// Whether a left parenthesis is on the operator stack.
fn has_lparen(operators: &Vec<OpStackItem>) -> (found: bool)
    ensures
        found == operators@.contains(OpStackItem::LParen),
{
    let mut i: usize = 0;
    while i < operators.len()
        invariant
            i <= operators.len(),
            forall|j: int| 0 <= j < i ==> operators@[j] != OpStackItem::LParen,
        decreases operators.len() - i,
    {
        if operators[i] == OpStackItem::LParen {
            return true;
        }
        i += 1;
    }
    false
}

/// Folds the operators above the topmost left parenthesis and removes it.
fn close_paren(operators: &mut Vec<OpStackItem>, output: &mut Vec<Expression>) -> (closed: Result<
    (),
    ParserError,
>)
    ensures
        match grammar::close_paren(old(operators)@, ast::expressions_view(old(output)@)) {
            Some((rest, folded)) => closed is Ok && final(operators)@ == rest
                && ast::expressions_view(final(output)@) == folded,
            None => closed is Err && closed->Err_0@ == SpecParserError::IncompleteExpression,
        },
{
    loop
        invariant
            grammar::close_paren(old(operators)@, ast::expressions_view(old(output)@))
                == grammar::close_paren(operators@, ast::expressions_view(output@)),
        decreases operators@.len(),
    {
        match operators.pop() {
            None => {
                return Ok(());
            },
            Some(OpStackItem::LParen) => {
                return Ok(());
            },
            Some(OpStackItem::Operator(top)) => {
                match create_node(top, output) {
                    Ok(()) => {},
                    Err(error) => {
                        return Err(error);
                    },
                }
            },
        }
    }
}

/// Whether `top` is applied before the operator `incoming` that follows
/// it.
fn folds_first(top: Operator, incoming: Operator) -> (first: bool)
    ensures
        first == grammar::folds_first(top, incoming),
{
    let top_level = top.get_precedence();
    let incoming_level = incoming.get_precedence();
    match incoming {
        Operator::BinaryOperator(_) => top_level >= incoming_level,
        Operator::UnaryOperator(_) => top_level > incoming_level,
    }
}

/// Folds the operators on top of the stack that are applied before
/// `operator`.
fn fold_before(
    operator: Operator,
    operators: &mut Vec<OpStackItem>,
    output: &mut Vec<Expression>,
) -> (folded: Result<(), ParserError>)
    ensures
        match grammar::fold_before(
            operator,
            old(operators)@,
            ast::expressions_view(old(output)@),
        ) {
            Some((rest, out)) => folded is Ok && final(operators)@ == rest
                && ast::expressions_view(final(output)@) == out,
            None => folded is Err && folded->Err_0@ == SpecParserError::IncompleteExpression,
        },
{
    loop
        invariant
            grammar::fold_before(operator, old(operators)@, ast::expressions_view(old(output)@))
                == grammar::fold_before(operator, operators@, ast::expressions_view(output@)),
        decreases operators@.len(),
    {
        let n = operators.len();
        if n == 0 {
            return Ok(());
        }
        match operators[n - 1] {
            OpStackItem::LParen => {
                return Ok(());
            },
            OpStackItem::Operator(top) => {
                if !folds_first(top, operator) {
                    return Ok(());
                }
                operators.pop();
                match create_node(top, output) {
                    Ok(()) => {},
                    Err(error) => {
                        return Err(error);
                    },
                }
            },
        }
    }
}

/// Folds what is left on the stacks at the end of an expression that began
/// at offset `start`.
#[verifier::loop_isolation(false)]
fn finish_expression(
    start: usize,
    output: Vec<Expression>,
    operators: Vec<OpStackItem>,
) -> (finished: Result<Expression, ParserErrorWithCtx>)
    ensures
        grammar::view_parsed(finished, 0).result == grammar::finish_result(
            start,
            ast::expressions_view(output@),
            operators@,
        ),
        finished matches Err(error) ==> error.1 == start,
{
    let ghost all = grammar::fold_all(operators@, ast::expressions_view(output@));
    let mut output = output;
    let mut operators = operators;
    loop
        invariant
            all == grammar::fold_all(operators@, ast::expressions_view(output@)),
        decreases operators@.len(),
    {
        match operators.pop() {
            None => {
                if output.len() != 1 {
                    return Err(ErrWithCtx(ParserError::InvalidBinaryExpression, start));
                }
                return match output.pop() {
                    Some(expression) => Ok(expression),
                    None => Err(ErrWithCtx(ParserError::InvalidBinaryExpression, start)),
                };
            },
            Some(OpStackItem::LParen) => {
                return Err(ErrWithCtx(ParserError::MissingRParen, start));
            },
            Some(OpStackItem::Operator(top)) => {
                match create_node(top, &mut output) {
                    Ok(()) => {},
                    Err(error) => {
                        return Err(ErrWithCtx(error, start));
                    },
                }
            },
        }
    }
}

/// A parser over a stream of tokens.
pub struct Parser<T: TokenStream> {
    lexer: T,
}

impl<T: TokenStream> Parser<T> {
    /// What every parser keeps true of itself: its token stream is well
    /// formed.
    pub closed spec fn well_formed(&self) -> bool {
        self.lexer.well_formed()
    }

    /// The text that is parsed.
    pub closed spec fn source(&self) -> Seq<char> {
        self.lexer.source()
    }

    /// Where in the text the next token is read from.
    pub closed spec fn position(&self) -> int {
        self.lexer.position()
    }

    /// Whether the next token has been read ahead.
    pub closed spec fn buffered(&self) -> bool {
        self.lexer.buffered()
    }

    /// A parser that reads what `lexer` has not yet handed out.
    pub fn new(lexer: T) -> (parser: Parser<T>)
        requires
            lexer.well_formed(),
        ensures
            parser.well_formed(),
            parser.source() == lexer.source(),
            parser.position() == lexer.position(),
            parser.buffered() == lexer.buffered(),
    {
        Parser { lexer }
    }

    fn expect_eq(&mut self, token: &Token) -> (met: Result<(), ParserErrorWithCtx>)
        requires
            old(self).well_formed(),
        ensures
            final(self).well_formed(),
            final(self).source() == old(self).source(),
            grammar::plain_parsed(met, final(self).position()) == grammar::expect(
                old(self).source(),
                old(self).position(),
                token@,
            ),
            0 <= old(self).position() <= final(self).position() <= old(self).source().len(),
            met is Ok ==> !final(self).buffered(),
            met is Ok && !(token@ is EndOfFile) ==> old(self).position() < final(self).position(),
            met matches Err(error) ==> error.1 <= old(self).source().len(),
    {
        proof {
            reveal(grammar::expect);
            self.lexer.lemma_position_in_source();
            lexer::lemma_lex_token_bounds(self.lexer.source(), self.lexer.position());
        }
        let next = match self.lexer.peek() {
            Ok(next) => next,
            Err(error) => {
                proof {
                    self.lexer.lemma_position_in_source();
                }
                return Err(ErrWithCtx::from(error));
            },
        };
        if next.token.same_as(token) {
            self.lexer.advance();
            Ok(())
        } else {
            Err(
                ErrWithCtx(
                    ParserError::UnexpectedToken {
                        expected: token.get_kind(),
                        was: next.token.get_kind(),
                    },
                    next.offset,
                ),
            )
        }
    }

    fn expect_identifier(&mut self) -> (name: Result<String, ParserErrorWithCtx>)
        requires
            old(self).well_formed(),
        ensures
            final(self).well_formed(),
            final(self).source() == old(self).source(),
            grammar::view_parsed(name, final(self).position()) == grammar::expect_identifier(
                old(self).source(),
                old(self).position(),
            ),
            0 <= old(self).position() <= final(self).position() <= old(self).source().len(),
            name is Ok ==> !final(self).buffered(),
            name is Ok ==> old(self).position() < final(self).position(),
            name matches Err(error) ==> error.1 <= old(self).source().len(),
    {
        proof {
            reveal(grammar::expect_identifier);
            self.lexer.lemma_position_in_source();
            lexer::lemma_lex_token_bounds(self.lexer.source(), self.lexer.position());
        }
        let next = match self.lexer.peek() {
            Ok(next) => next,
            Err(error) => {
                proof {
                    self.lexer.lemma_position_in_source();
                }
                return Err(ErrWithCtx::from(error));
            },
        };
        match next.token {
            Token::Identifier(name) => {
                self.lexer.advance();
                Ok(name)
            },
            other => Err(
                ErrWithCtx(
                    ParserError::UnexpectedToken {
                        expected: TokenKind::IdentifierK,
                        was: other.get_kind(),
                    },
                    next.offset,
                ),
            ),
        }
    }

    fn expect_type_name(&mut self) -> (ty: Result<TypeName, ParserErrorWithCtx>)
        requires
            old(self).well_formed(),
        ensures
            final(self).well_formed(),
            final(self).source() == old(self).source(),
            grammar::plain_parsed(ty, final(self).position()) == grammar::expect_type_name(
                old(self).source(),
                old(self).position(),
            ),
            0 <= old(self).position() <= final(self).position() <= old(self).source().len(),
            ty is Ok ==> !final(self).buffered(),
            ty matches Err(error) ==> error.1 <= old(self).source().len(),
    {
        proof {
            reveal(grammar::expect_type_name);
            self.lexer.lemma_position_in_source();
            lexer::lemma_lex_token_bounds(self.lexer.source(), self.lexer.position());
        }
        let next = match self.lexer.peek() {
            Ok(next) => next,
            Err(error) => {
                proof {
                    self.lexer.lemma_position_in_source();
                }
                return Err(ErrWithCtx::from(error));
            },
        };
        match next.token {
            Token::Type(ty) => {
                self.lexer.advance();
                Ok(ty)
            },
            other => Err(
                ErrWithCtx(
                    ParserError::UnexpectedToken {
                        expected: TokenKind::TypeK,
                        was: other.get_kind(),
                    },
                    next.offset,
                ),
            ),
        }
    }

    /// Passes the next token, whatever it is.
    fn advance(&mut self) -> (passed: Result<(), ParserErrorWithCtx>)
        requires
            old(self).well_formed(),
        ensures
            final(self).well_formed(),
            final(self).source() == old(self).source(),
            passed matches Err(error) ==> error.1 <= old(self).source().len(),
            !final(self).buffered(),
            final(self).position() == lexer::lex_token(
                old(self).source(),
                old(self).position(),
            ).end,
            match lexer::lex_token(old(self).source(), old(self).position()).result {
                Ok(_) => passed is Ok,
                Err(error) => passed is Err && passed->Err_0@ == (
                    SpecParserError::LexerError(error),
                    final(self).position() as usize,
                ),
            },
    {
        proof {
            self.lexer.lemma_position_in_source();
            lexer::lemma_lex_token_bounds(self.lexer.source(), self.lexer.position());
        }
        match self.lexer.next() {
            Ok(_) => Ok(()),
            Err(error) => Err(ErrWithCtx::from(error)),
        }
    }

    fn parse_print_statement(&mut self) -> (parsed: Result<Statement, ParserErrorWithCtx>)
        requires
            old(self).well_formed(),
        ensures
            final(self).well_formed(),
            final(self).source() == old(self).source(),
            grammar::view_parsed(parsed, final(self).position()) == grammar::parse_print(
                old(self).source(),
                old(self).position(),
            ),
            0 <= old(self).position() <= final(self).position() <= old(self).source().len(),
            parsed is Ok ==> !final(self).buffered(),
            parsed is Ok ==> old(self).position() < final(self).position(),
            parsed matches Err(error) ==> error.1 <= old(self).source().len(),
    {
        proof {
            reveal(grammar::parse_print);
        }
        match self.expect_eq(&Token::Print) {
            Ok(()) => {},
            Err(error) => {
                return Err(error);
            },
        }
        let value = match self.parse_expression() {
            Ok(value) => value,
            Err(error) => {
                return Err(error);
            },
        };
        match self.expect_eq(&Token::Semicolon) {
            Ok(()) => {},
            Err(error) => {
                return Err(error);
            },
        }
        Ok(Statement::Print(value))
    }

    fn parse_read_statement(&mut self) -> (parsed: Result<Statement, ParserErrorWithCtx>)
        requires
            old(self).well_formed(),
        ensures
            final(self).well_formed(),
            final(self).source() == old(self).source(),
            grammar::view_parsed(parsed, final(self).position()) == grammar::parse_read(
                old(self).source(),
                old(self).position(),
            ),
            0 <= old(self).position() <= final(self).position() <= old(self).source().len(),
            parsed is Ok ==> !final(self).buffered(),
            parsed is Ok ==> old(self).position() < final(self).position(),
            parsed matches Err(error) ==> error.1 <= old(self).source().len(),
    {
        proof {
            reveal(grammar::parse_read);
        }
        match self.expect_eq(&Token::Read) {
            Ok(()) => {},
            Err(error) => {
                return Err(error);
            },
        }
        let identifier = match self.expect_identifier() {
            Ok(identifier) => identifier,
            Err(error) => {
                return Err(error);
            },
        };
        match self.expect_eq(&Token::Semicolon) {
            Ok(()) => {},
            Err(error) => {
                return Err(error);
            },
        }
        Ok(Statement::Read(identifier))
    }

    /// The optional initialiser of a declaration.
    fn parse_initial(&mut self) -> (parsed: Result<Option<Expression>, ParserErrorWithCtx>)
        requires
            old(self).well_formed(),
        ensures
            final(self).well_formed(),
            final(self).source() == old(self).source(),
            final(self).position() == grammar::parse_initial(
                old(self).source(),
                old(self).position(),
            ).pos,
            match grammar::parse_initial(old(self).source(), old(self).position()).result {
                Ok(Some(value)) => parsed is Ok && parsed->Ok_0 is Some && parsed->Ok_0->0@
                    == value,
                Ok(None) => parsed is Ok && parsed->Ok_0 is None,
                Err(error) => parsed is Err && parsed->Err_0@ == error,
            },
            0 <= old(self).position() <= final(self).position() <= old(self).source().len(),
            parsed matches Err(error) ==> error.1 <= old(self).source().len(),
    {
        proof {
            reveal(grammar::parse_initial);
            self.lexer.lemma_position_in_source();
            lexer::lemma_lex_token_bounds(self.lexer.source(), self.lexer.position());
        }
        let next = match self.lexer.peek() {
            Ok(next) => next,
            Err(error) => {
                proof {
                    self.lexer.lemma_position_in_source();
                }
                return Err(ErrWithCtx::from(error));
            },
        };
        if next.token.kind_equals(TokenKind::AssignK) {
            match self.advance() {
                Ok(()) => {},
                Err(error) => {
                    return Err(error);
                },
            }
            match self.parse_expression() {
                Ok(expression) => Ok(Some(expression)),
                Err(error) => Err(error),
            }
        } else {
            Ok(None)
        }
    }

    fn parse_decleration(&mut self) -> (parsed: Result<Statement, ParserErrorWithCtx>)
        requires
            old(self).well_formed(),
        ensures
            final(self).well_formed(),
            final(self).source() == old(self).source(),
            grammar::view_parsed(parsed, final(self).position()) == grammar::parse_declaration(
                old(self).source(),
                old(self).position(),
            ),
            0 <= old(self).position() <= final(self).position() <= old(self).source().len(),
            parsed is Ok ==> !final(self).buffered(),
            parsed is Ok ==> old(self).position() < final(self).position(),
            parsed matches Err(error) ==> error.1 <= old(self).source().len(),
    {
        proof {
            reveal(grammar::parse_declaration);
        }
        match self.expect_eq(&Token::Var) {
            Ok(()) => {},
            Err(error) => {
                return Err(error);
            },
        }
        let name = match self.expect_identifier() {
            Ok(name) => name,
            Err(error) => {
                return Err(error);
            },
        };
        match self.expect_eq(&Token::Colon) {
            Ok(()) => {},
            Err(error) => {
                return Err(error);
            },
        }
        let type_of = match self.expect_type_name() {
            Ok(type_of) => type_of,
            Err(error) => {
                return Err(error);
            },
        };
        let initial = match self.parse_initial() {
            Ok(initial) => initial,
            Err(error) => {
                return Err(error);
            },
        };
        match self.expect_eq(&Token::Semicolon) {
            Ok(()) => {},
            Err(error) => {
                return Err(error);
            },
        }
        Ok(Statement::Declare { name, type_of, initial })
    }

    fn parse_assignment(&mut self) -> (parsed: Result<Statement, ParserErrorWithCtx>)
        requires
            old(self).well_formed(),
        ensures
            final(self).well_formed(),
            final(self).source() == old(self).source(),
            grammar::view_parsed(parsed, final(self).position()) == grammar::parse_assignment(
                old(self).source(),
                old(self).position(),
            ),
            0 <= old(self).position() <= final(self).position() <= old(self).source().len(),
            parsed is Ok ==> !final(self).buffered(),
            parsed is Ok ==> old(self).position() < final(self).position(),
            parsed matches Err(error) ==> error.1 <= old(self).source().len(),
    {
        proof {
            reveal(grammar::parse_assignment);
        }
        let identifier = match self.expect_identifier() {
            Ok(identifier) => identifier,
            Err(error) => {
                return Err(error);
            },
        };
        match self.expect_eq(&Token::Assign) {
            Ok(()) => {},
            Err(error) => {
                return Err(error);
            },
        }
        let value = match self.parse_expression() {
            Ok(value) => value,
            Err(error) => {
                return Err(error);
            },
        };
        match self.expect_eq(&Token::Semicolon) {
            Ok(()) => {},
            Err(error) => {
                return Err(error);
            },
        }
        Ok(Statement::Assign(identifier, value))
    }

    /// Parses an expression with a shunting-yard loop: operands go to an
    /// output stack, operators wait on a second stack until a later
    /// operator that they are applied before, a closing parenthesis or the
    /// end of the expression folds them into nodes.
    #[verifier::loop_isolation(false)]
    pub fn parse_expression(&mut self) -> (parsed: Result<Expression, ParserErrorWithCtx>)
        requires
            old(self).well_formed(),
        ensures
            final(self).well_formed(),
            final(self).source() == old(self).source(),
            grammar::view_parsed(parsed, final(self).position()) == grammar::parse_expression(
                old(self).source(),
                old(self).position(),
            ),
            0 <= old(self).position() <= final(self).position() <= old(self).source().len(),
            parsed matches Err(error) ==> error.1 <= old(self).source().len(),
    {
        proof {
            reveal(grammar::parse_expression);
        }
        let ghost s = self.lexer.source();
        let ghost from = self.lexer.position();
        proof {
            self.lexer.lemma_position_in_source();
            lexer::lemma_lex_token_bounds(s, from);
        }
        let mut output: Vec<Expression> = Vec::new();
        let mut operators: Vec<OpStackItem> = Vec::new();
        let start = match self.lexer.peek() {
            Ok(first) => first.offset,
            Err(error) => {
                proof {
                    self.lexer.lemma_position_in_source();
                }
                return Err(ErrWithCtx::from(error));
            },
        };
        assert(ast::expressions_view(output@) =~= Seq::empty());
        loop
            invariant
                self.lexer.well_formed(),
                self.lexer.source() == s,
                from <= self.lexer.position() <= s.len() <= usize::MAX,
                start <= s.len(),
                grammar::parse_expression(s, from) == grammar::parse_operands(
                    s,
                    self.lexer.position(),
                    start,
                    ast::expressions_view(output@),
                    operators@,
                ),
            decreases s.len() - self.lexer.position(),
        {
            let ghost pos = self.lexer.position();
            let ghost out = ast::expressions_view(output@);
            proof {
                lexer::lemma_lex_token_progress(s, pos);
            }
            let next = match self.lexer.peek() {
                Ok(next) => next,
                Err(error) => {
                    proof {
                        self.lexer.lemma_position_in_source();
                    }
                    return Err(ErrWithCtx::from(error));
                },
            };
            match next.token {
                Token::Literal(value) => {
                    self.lexer.advance();
                    output.push(Expression::Literal(value));
                    assert(ast::expressions_view(output@) =~= out.push(
                        ast::SpecExpression::Literal(value@),
                    ));
                },
                Token::Identifier(identifier) => {
                    self.lexer.advance();
                    output.push(Expression::Variable(identifier));
                    assert(ast::expressions_view(output@) =~= out.push(
                        ast::SpecExpression::Variable(identifier@),
                    ));
                },
                Token::LParen => {
                    self.lexer.advance();
                    operators.push(OpStackItem::LParen);
                },
                Token::RParen => {
                    if !has_lparen(&operators) {
                        return finish_expression(start, output, operators);
                    }
                    self.lexer.advance();
                    match close_paren(&mut operators, &mut output) {
                        Ok(()) => {},
                        Err(error) => {
                            return Err(ErrWithCtx(error, start));
                        },
                    }
                },
                Token::Operator(op) => {
                    self.lexer.advance();
                    match fold_before(op, &mut operators, &mut output) {
                        Ok(()) => {},
                        Err(error) => {
                            return Err(ErrWithCtx(error, start));
                        },
                    }
                    operators.push(OpStackItem::Operator(op));
                },
                _ => {
                    return finish_expression(start, output, operators);
                },
            }
        }
    }

    pub fn parse_assertion(&mut self) -> (parsed: Result<Statement, ParserErrorWithCtx>)
        requires
            old(self).well_formed(),
        ensures
            final(self).well_formed(),
            final(self).source() == old(self).source(),
            grammar::view_parsed(parsed, final(self).position()) == grammar::parse_assertion(
                old(self).source(),
                old(self).position(),
            ),
            0 <= old(self).position() <= final(self).position() <= old(self).source().len(),
            parsed is Ok ==> !final(self).buffered(),
            parsed is Ok ==> old(self).position() < final(self).position(),
            parsed matches Err(error) ==> error.1 <= old(self).source().len(),
    {
        proof {
            reveal(grammar::parse_assertion);
        }
        match self.expect_eq(&Token::Assert) {
            Ok(()) => {},
            Err(error) => {
                return Err(error);
            },
        }
        let assertion = match self.parse_expression() {
            Ok(assertion) => assertion,
            Err(error) => {
                return Err(error);
            },
        };
        match self.expect_eq(&Token::Semicolon) {
            Ok(()) => {},
            Err(error) => {
                return Err(error);
            },
        }
        Ok(Statement::Assert(assertion))
    }

    /// The head of a loop, up to and including `do`.
    fn parse_for_head(&mut self) -> (parsed: Result<
        (String, Expression, Expression),
        ParserErrorWithCtx,
    >)
        requires
            old(self).well_formed(),
        ensures
            final(self).well_formed(),
            final(self).source() == old(self).source(),
            final(self).position() == grammar::parse_for_head(
                old(self).source(),
                old(self).position(),
            ).pos,
            match grammar::parse_for_head(old(self).source(), old(self).position()).result {
                Ok(head) => parsed is Ok && (parsed->Ok_0.0@, parsed->Ok_0.1@, parsed->Ok_0.2@)
                    == head,
                Err(error) => parsed is Err && parsed->Err_0@ == error,
            },
            0 <= old(self).position() <= final(self).position() <= old(self).source().len(),
            parsed is Ok ==> old(self).position() < final(self).position(),
            parsed matches Err(error) ==> error.1 <= old(self).source().len(),
    {
        proof {
            reveal(grammar::parse_for_head);
        }
        match self.expect_eq(&Token::For) {
            Ok(()) => {},
            Err(error) => {
                return Err(error);
            },
        }
        let variable = match self.expect_identifier() {
            Ok(variable) => variable,
            Err(error) => {
                return Err(error);
            },
        };
        match self.expect_eq(&Token::In) {
            Ok(()) => {},
            Err(error) => {
                return Err(error);
            },
        }
        let from = match self.parse_expression() {
            Ok(from) => from,
            Err(error) => {
                return Err(error);
            },
        };
        match self.expect_eq(&Token::Range) {
            Ok(()) => {},
            Err(error) => {
                return Err(error);
            },
        }
        let to = match self.parse_expression() {
            Ok(to) => to,
            Err(error) => {
                return Err(error);
            },
        };
        match self.expect_eq(&Token::Do) {
            Ok(()) => {},
            Err(error) => {
                return Err(error);
            },
        }
        Ok((variable, from, to))
    }

    /// The tail of a loop: `end for ;`.
    fn parse_for_tail(&mut self) -> (parsed: Result<(), ParserErrorWithCtx>)
        requires
            old(self).well_formed(),
        ensures
            final(self).well_formed(),
            final(self).source() == old(self).source(),
            grammar::plain_parsed(parsed, final(self).position()) == grammar::parse_for_tail(
                old(self).source(),
                old(self).position(),
            ),
            0 <= old(self).position() <= final(self).position() <= old(self).source().len(),
            parsed is Ok ==> !final(self).buffered(),
            parsed matches Err(error) ==> error.1 <= old(self).source().len(),
    {
        proof {
            reveal(grammar::parse_for_tail);
        }
        match self.expect_eq(&Token::End) {
            Ok(()) => {},
            Err(error) => {
                return Err(error);
            },
        }
        match self.expect_eq(&Token::For) {
            Ok(()) => {},
            Err(error) => {
                return Err(error);
            },
        }
        self.expect_eq(&Token::Semicolon)
    }

    pub fn parse_for(&mut self) -> (parsed: Result<Statement, ParserErrors>)
        requires
            old(self).well_formed(),
        ensures
            final(self).well_formed(),
            final(self).source() == old(self).source(),
            grammar::statement_parsed(
                parsed,
                final(self).position(),
                grammar::parse_for(old(self).source(), old(self).position()),
            ),
            0 <= old(self).position() <= final(self).position() <= old(self).source().len(),
            parsed is Ok ==> !final(self).buffered(),
            parsed is Ok ==> old(self).position() < final(self).position(),
            parsed matches Err(errors) ==> grammar::offsets_within(
                errors@,
                old(self).source().len(),
            ),
        decreases old(self).source().len() - old(self).position(), 0int,
    {
        proof {
            reveal(grammar::parse_statement_list);
            self.lexer.lemma_position_in_source();
        }
        let (variable, from, to) = match self.parse_for_head() {
            Ok(head) => head,
            Err(error) => {
                return listed(error);
            },
        };
        let run = match self.parse_statement_list() {
            Ok(run) => run,
            Err(errors) => {
                return Err(errors);
            },
        };
        match self.parse_for_tail() {
            Ok(()) => {},
            Err(error) => {
                return listed(error);
            },
        }
        Ok(Statement::For { variable, from, to, run })
    }

    pub fn parse_statement(&mut self) -> (parsed: Result<Statement, ParserErrors>)
        requires
            old(self).well_formed(),
        ensures
            final(self).well_formed(),
            final(self).source() == old(self).source(),
            grammar::statement_parsed(
                parsed,
                final(self).position(),
                grammar::parse_statement(old(self).source(), old(self).position()),
            ),
            0 <= old(self).position() <= final(self).position() <= old(self).source().len(),
            parsed is Ok ==> !final(self).buffered(),
            parsed is Ok ==> old(self).position() < final(self).position(),
            parsed matches Err(errors) ==> grammar::offsets_within(
                errors@,
                old(self).source().len(),
            ),
        decreases old(self).source().len() - old(self).position(), 1int,
    {
        proof {
            self.lexer.lemma_position_in_source();
            lexer::lemma_lex_token_bounds(self.lexer.source(), self.lexer.position());
        }
        let first = match self.lexer.peek() {
            Ok(first) => first,
            Err(error) => {
                proof {
                    self.lexer.lemma_position_in_source();
                }
                return listed(ErrWithCtx::from(error));
            },
        };
        match first.token {
            Token::Print => match self.parse_print_statement() {
                Ok(statement) => Ok(statement),
                Err(error) => listed(error),
            },
            Token::Read => match self.parse_read_statement() {
                Ok(statement) => Ok(statement),
                Err(error) => listed(error),
            },
            Token::Var => match self.parse_decleration() {
                Ok(statement) => Ok(statement),
                Err(error) => listed(error),
            },
            Token::Assert => match self.parse_assertion() {
                Ok(statement) => Ok(statement),
                Err(error) => listed(error),
            },
            Token::Identifier(_) => match self.parse_assignment() {
                Ok(statement) => Ok(statement),
                Err(error) => listed(error),
            },
            Token::For => self.parse_for(),
            other => listed(
                ErrWithCtx(ParserError::UnknownStatement { first: other.get_kind() }, first.offset),
            ),
        }
    }

    #[verifier::loop_isolation(false)]
    pub fn parse_statement_list(&mut self) -> (parsed: Result<Vec<StatementWithCtx>, ParserErrors>)
        requires
            old(self).well_formed(),
        ensures
            final(self).well_formed(),
            final(self).source() == old(self).source(),
            grammar::statements_parsed(
                parsed,
                final(self).position(),
                grammar::parse_statement_list(old(self).source(), old(self).position()),
            ),
            0 <= old(self).position() <= final(self).position() <= old(self).source().len(),
            parsed matches Err(errors) ==> grammar::offsets_within(
                errors@,
                old(self).source().len(),
            ),
        decreases old(self).source().len() - old(self).position(), 3int,
    {
        let ghost s = self.lexer.source();
        let ghost from = self.lexer.position();
        proof {
            self.lexer.lemma_position_in_source();
        }
        let mut statements: Vec<StatementWithCtx> = Vec::new();
        proof {
            reveal(grammar::parse_statement_list);
        }
        loop
            invariant
                self.lexer.well_formed(),
                self.lexer.source() == s,
                from <= self.lexer.position() <= s.len(),
                grammar::parse_statement_list(s, from) == grammar::parse_statements(
                    s,
                    self.lexer.position(),
                    ast::block_view(statements@),
                ),
            decreases s.len() - self.lexer.position(),
        {
            let ghost pos = self.lexer.position();
            proof {
                self.lexer.lemma_position_in_source();
                lexer::lemma_lex_token_bounds(s, pos);
            }
            let next = match self.lexer.peek() {
                Ok(next) => next,
                Err(error) => {
                    proof {
                        self.lexer.lemma_position_in_source();
                    }
                    return listed(ErrWithCtx::from(error));
                },
            };
            if next.token.kind_equals(TokenKind::EndOfFileK) || next.token.kind_equals(
                TokenKind::EndK,
            ) {
                return Ok(statements);
            }
            let start = self.lexer.offset();
            let statement = match self.parse_statement() {
                Ok(statement) => statement,
                Err(errors) => {
                    return Err(errors);
                },
            };
            let end = self.lexer.offset();
            let with_ctx = StatementWithCtx { source_position: start..end, statement };
            proof {
                ast::lemma_block_view_push(statements@, with_ctx);
            }
            statements.push(with_ctx);
        }
    }

    /// Parses a whole program. After an error the parser skips to the next
    /// semicolon and goes on, so that the list holds every error it can
    /// find; the statements read after an error are not returned.
    pub fn parse_program(&mut self) -> (parsed: Result<Vec<StatementWithCtx>, ParserErrors>)
        requires
            old(self).well_formed(),
        ensures
            final(self).well_formed(),
            final(self).source() == old(self).source(),
            match grammar::parse_program(old(self).source(), old(self).position()) {
                Ok(program) => parsed is Ok && ast::block_view(parsed->Ok_0@) == program,
                Err(errors) => parsed is Err && grammar::errors_view(parsed->Err_0@) == errors,
            },
            parsed matches Err(errors) ==> errors@.len() > 0 && grammar::offsets_within(
                errors@,
                old(self).source().len(),
            ),
    {
        proof {
            reveal(grammar::expect);
        }
        let ghost s = self.lexer.source();
        let ghost from = self.lexer.position();
        proof {
            self.lexer.lemma_position_in_source();
        }
        let mut errors: Vec<ParserErrorWithCtx> = Vec::new();
        assert(grammar::errors_view(errors@) =~= Seq::empty());
        loop
            invariant
                self.lexer.well_formed(),
                self.lexer.source() == s,
                s == old(self).source(),
                0 <= from <= self.lexer.position() <= s.len() <= usize::MAX,
                grammar::offsets_within(errors@, s.len()),
                grammar::parse_program(old(self).source(), old(self).position())
                    == grammar::parse_program_after(
                    s,
                    self.lexer.position(),
                    grammar::errors_view(errors@),
                ),
            decreases s.len() - self.lexer.position(),
        {
            let ghost found = grammar::errors_view(errors@);
            let ghost pos = self.lexer.position();
            let ghost goal = grammar::parse_program_after(s, pos, found);
            let ghost statements = grammar::parse_statement_list(s, pos);
            match self.parse_statement_list() {
                Ok(program) => {
                    let ghost end = grammar::expect(
                        s,
                        statements.pos,
                        crate::parsing::token::SpecToken::EndOfFile,
                    );
                    match self.expect_eq(&Token::EndOfFile) {
                        Ok(()) => {
                            assert(end.result is Ok);
                            if errors.len() == 0 {
                                assert(goal == Ok::<_, Seq<grammar::SpecError>>(
                                    statements.result->Ok_0,
                                ));
                                return Ok(program);
                            } else {
                                assert(goal == Err::<Seq<ast::SpecStatementWithCtx>, _>(found));
                                return Err(errors);
                            }
                        },
                        Err(error) => {
                            errors.push(error);
                            assert(grammar::errors_view(errors@) =~= found.push(error@));
                            assert(goal == Err::<Seq<ast::SpecStatementWithCtx>, _>(
                                found.push(end.result->Err_0),
                            ));
                            return Err(errors);
                        },
                    }
                },
                Err(inner) => {
                    let mut inner = inner;
                    let ghost first = inner@[0];
                    assert(grammar::errors_view(inner@).len() == 1);
                    assert(grammar::errors_view(inner@)[0] == first@);
                    match inner.pop() {
                        Some(error) => {
                            errors.push(error);
                        },
                        None => {},
                    }
                    assert(grammar::errors_view(errors@) =~= found.push(first@));
                    let ghost recovery = grammar::recover(s, statements.pos);
                    if !self.try_recover() {
                        assert(goal == Err::<Seq<ast::SpecStatementWithCtx>, _>(
                            found.push(first@),
                        ));
                        return Err(errors);
                    }
                    assert(goal == grammar::parse_program_after(
                        s,
                        recovery.1,
                        found.push(first@),
                    ));
                },
            }
        }
    }
}

/// A list of the one error `error`.
fn listed<T>(error: ParserErrorWithCtx) -> (errors: Result<T, ParserErrors>)
    ensures
        errors is Err,
        errors->Err_0@ == seq![error],
        grammar::errors_view(errors->Err_0@) == seq![error@],
{
    let errors = Err(error).vec_err();
    assert(grammar::errors_view(errors->Err_0@) =~= seq![error@]);
    errors
}

impl<T: TokenStream> TryRecover for Parser<T> {
    open spec fn recoverable(&self) -> bool {
        self.well_formed()
    }

    /// Passes tokens up to and including the next semicolon. At the end of
    /// the text, and at a token that cannot be read, recovery fails.
    #[verifier::loop_isolation(false)]
    fn try_recover(&mut self) -> (recovered: bool)
        ensures
            final(self).source() == old(self).source(),
            (recovered, final(self).position()) == grammar::recover(
                old(self).source(),
                old(self).position(),
            ),
            0 <= old(self).position() <= final(self).position() <= old(self).source().len(),
            recovered ==> old(self).position() < final(self).position(),
    {
        let ghost s = self.lexer.source();
        let ghost from = self.lexer.position();
        proof {
            self.lexer.lemma_position_in_source();
        }
        loop
            invariant
                self.lexer.well_formed(),
                self.lexer.source() == s,
                from <= self.lexer.position() <= s.len(),
                grammar::recover(s, from) == grammar::recover(s, self.lexer.position()),
            decreases s.len() - self.lexer.position(),
        {
            proof {
                self.lexer.lemma_position_in_source();
                lexer::lemma_lex_token_progress(s, self.lexer.position());
            }
            match self.lexer.peek() {
                Err(_) => {
                    proof {
                        self.lexer.lemma_position_in_source();
                    }
                    return false;
                },
                Ok(next) => {
                    if next.token.kind_equals(TokenKind::SemicolonK) {
                        self.lexer.advance();
                        return true;
                    } else if next.token.kind_equals(TokenKind::EndOfFileK) {
                        return false;
                    } else {
                        self.lexer.advance();
                    }
                },
            }
        }
    }
}

} // verus!
