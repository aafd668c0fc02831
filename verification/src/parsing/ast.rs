//! The syntax tree.
use std::ops::Range;
use vstd::prelude::*;

use crate::common::types::{BinaryOperator, LiteralValue, SpecLiteral, TypeName, UnaryOperator};

verus! {

/// An expression. Every node owns its operands.
#[derive(PartialEq, Eq, Debug)]
pub enum Expression {
    Literal(LiteralValue),
    Variable(String),
    BinaryOp(BinaryOperator, Box<(Expression, Expression)>),
    UnaryOp(UnaryOperator, Box<Expression>),
}

/// The mathematical content of an [`Expression`].
pub enum SpecExpression {
    Literal(SpecLiteral),
    Variable(Seq<char>),
    BinaryOp(BinaryOperator, Box<SpecExpression>, Box<SpecExpression>),
    UnaryOp(UnaryOperator, Box<SpecExpression>),
}

impl View for Expression {
    type V = SpecExpression;

    open spec fn view(&self) -> SpecExpression
        decreases self,
    {
        match self {
            Expression::Literal(literal) => SpecExpression::Literal(literal@),
            Expression::Variable(name) => SpecExpression::Variable(name@),
            Expression::BinaryOp(op, operands) => SpecExpression::BinaryOp(
                *op,
                Box::new(operands.0@),
                Box::new(operands.1@),
            ),
            Expression::UnaryOp(op, operand) => SpecExpression::UnaryOp(
                *op,
                Box::new((**operand)@),
            ),
        }
    }
}

/// The contents of a stack of expressions, bottom first.
pub open spec fn expressions_view(stack: Seq<Expression>) -> Seq<SpecExpression> {
    stack.map_values(|e: Expression| e@)
}

/// A statement.
#[derive(PartialEq, Eq, Debug)]
pub enum Statement {
    Declare { name: String, type_of: TypeName, initial: Option<Expression> },
    Assign(String, Expression),
    For { variable: String, from: Expression, to: Expression, run: Block },
    Print(Expression),
    Read(String),
    Assert(Expression),
}

/// A statement with the part of the source text that it was read from: the
/// offsets from `source_position.start` up to, not including,
/// `source_position.end`.
#[derive(PartialEq, Eq, Debug)]
pub struct StatementWithCtx {
    pub source_position: Range<usize>,
    pub statement: Statement,
}

pub type Block = Vec<StatementWithCtx>;

pub type Program<'a> = &'a [StatementWithCtx];

/// The mathematical content of a [`Statement`].
pub enum SpecStatement {
    Declare { name: Seq<char>, type_of: TypeName, initial: Option<SpecExpression> },
    Assign(Seq<char>, SpecExpression),
    For { variable: Seq<char>, from: SpecExpression, to: SpecExpression, run: Seq<SpecStatementWithCtx> },
    Print(SpecExpression),
    Read(Seq<char>),
    Assert(SpecExpression),
}

/// The mathematical content of a [`StatementWithCtx`].
pub struct SpecStatementWithCtx {
    pub start: usize,
    pub end: usize,
    pub statement: SpecStatement,
}

impl View for Statement {
    type V = SpecStatement;

    open spec fn view(&self) -> SpecStatement
        decreases self,
    {
        match self {
            Statement::Declare { name, type_of, initial } => SpecStatement::Declare {
                name: name@,
                type_of: *type_of,
                initial: match initial {
                    Some(e) => Some(e@),
                    None => None,
                },
            },
            Statement::Assign(name, value) => SpecStatement::Assign(name@, value@),
            Statement::For { variable, from, to, run } => SpecStatement::For {
                variable: variable@,
                from: from@,
                to: to@,
                run: block_view(run@),
            },
            Statement::Print(value) => SpecStatement::Print(value@),
            Statement::Read(name) => SpecStatement::Read(name@),
            Statement::Assert(value) => SpecStatement::Assert(value@),
        }
    }
}

impl View for StatementWithCtx {
    type V = SpecStatementWithCtx;

    open spec fn view(&self) -> SpecStatementWithCtx
        decreases self,
    {
        SpecStatementWithCtx {
            start: self.source_position.start,
            end: self.source_position.end,
            statement: self.statement@,
        }
    }
}

/// The contents of a sequence of statements, in order.
pub open spec fn block_view(block: Seq<StatementWithCtx>) -> Seq<SpecStatementWithCtx>
    decreases block,
{
    if block.len() == 0 {
        Seq::empty()
    } else {
        block_view(block.drop_last()).push(block.last()@)
    }
}

/// The view of a block has one statement for each statement of the block.
pub proof fn lemma_block_view(block: Seq<StatementWithCtx>)
    ensures
        block_view(block).len() == block.len(),
        forall|i: int| 0 <= i < block.len() ==> (#[trigger] block_view(block)[i]) == block[i]@,
    decreases block.len(),
{
    if block.len() > 0 {
        lemma_block_view(block.drop_last());
        assert(block_view(block) == block_view(block.drop_last()).push(block.last()@));
    }
}

/// Adding a statement to a block adds its view to the view of the block.
pub proof fn lemma_block_view_push(block: Seq<StatementWithCtx>, statement: StatementWithCtx)
    ensures
        block_view(block.push(statement)) == block_view(block).push(statement@),
{
    assert(block.push(statement).drop_last() =~= block);
}

} // verus!
