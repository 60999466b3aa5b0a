//! Expressions: trees of operations over operands.

use vstd::prelude::*;
use crate::value::{notes_view, Note, NoteView, Number, NumberView};

verus! {

/// The resolved name of a chain: its place in the builder's table of chains.
#[derive(Debug, Clone, Copy, PartialEq, Eq, Structural)]
pub struct ChainName(pub usize);

impl View for ChainName {
    type V = ChainName;

    open spec fn view(&self) -> ChainName {
        *self
    }
}

/// A scalar that a chain of notes has.
#[derive(Debug, Clone, Copy, PartialEq, Eq, Structural)]
pub enum Property {
    Start,
    End,
    Duration,
}

/// What an operation works on.
#[derive(Debug, PartialEq, Eq)]
pub enum Operand {
    /// A number.
    Num(Number),
    /// The time of the sample that is being computed.
    Time,
    /// The chain's own output this many samples ago; never zero.
    BackLink(usize),
    /// The output of another chain.
    Id(ChainName),
    /// A property of another chain, which is made of notes.
    Property(ChainName, Property),
    /// A sequence of notes.
    Notes(Vec<Note>),
    /// A sub-expression.
    Expression(Box<Expression>),
}

/// An operation and its operands.
#[derive(Debug, PartialEq, Eq)]
pub enum Operation {
    Negate(Operand),
    Sine(Operand),
    Cosine(Operand),
    Ceiling(Operand),
    Floor(Operand),
    AbsoluteValue(Operand),
    Logarithm(Operand),
    Min(Operand, Operand),
    Max(Operand, Operand),
    Power(Operand, Operand),
    Multiply(Operand, Operand),
    Divide(Operand, Operand),
    Remainder(Operand, Operand),
    Add(Operand, Operand),
    Subtract(Operand, Operand),
    Operand(Operand),
}

/// An expression.
#[derive(Debug, PartialEq, Eq)]
pub struct Expression(pub Operation);

/// The operations of one operand.
#[derive(Debug, Clone, Copy, PartialEq, Eq, Structural)]
pub enum Unary {
    Negate,
    Sine,
    Cosine,
    Ceiling,
    Floor,
    AbsoluteValue,
    Logarithm,
}

/// The operations of two operands.
#[derive(Debug, Clone, Copy, PartialEq, Eq, Structural)]
pub enum Binary {
    Min,
    Max,
    Power,
    Multiply,
    Divide,
    Remainder,
    Add,
    Subtract,
}

/// What an [`Operand`] holds.
pub enum OperandView {
    Num(NumberView),
    Time,
    BackLink(nat),
    Id(ChainName),
    Property(ChainName, Property),
    Notes(Seq<NoteView>),
    Expression(Box<ExpressionView>),
}

/// What an [`Expression`] holds: one operation, named by its kind, over the
/// views of its operands.
pub enum ExpressionView {
    Unary(Unary, OperandView),
    Binary(Binary, OperandView, OperandView),
    Operand(OperandView),
}

/// What an operand holds.
pub open spec fn operand_view(operand: Operand) -> OperandView
    decreases operand,
{
    match operand {
        Operand::Num(n) => OperandView::Num(n@),
        Operand::Time => OperandView::Time,
        Operand::BackLink(n) => OperandView::BackLink(n as nat),
        Operand::Id(name) => OperandView::Id(name),
        Operand::Property(name, property) => OperandView::Property(name, property),
        Operand::Notes(notes) => OperandView::Notes(notes_view(notes@)),
        Operand::Expression(e) => OperandView::Expression(Box::new(expression_view(*e))),
    }
}

/// What an operation holds.
pub open spec fn operation_view(operation: Operation) -> ExpressionView
    decreases operation,
{
    match operation {
        Operation::Negate(a) => ExpressionView::Unary(Unary::Negate, operand_view(a)),
        Operation::Sine(a) => ExpressionView::Unary(Unary::Sine, operand_view(a)),
        Operation::Cosine(a) => ExpressionView::Unary(Unary::Cosine, operand_view(a)),
        Operation::Ceiling(a) => ExpressionView::Unary(Unary::Ceiling, operand_view(a)),
        Operation::Floor(a) => ExpressionView::Unary(Unary::Floor, operand_view(a)),
        Operation::AbsoluteValue(a) => ExpressionView::Unary(
            Unary::AbsoluteValue,
            operand_view(a),
        ),
        Operation::Logarithm(a) => ExpressionView::Unary(Unary::Logarithm, operand_view(a)),
        Operation::Min(a, b) => ExpressionView::Binary(
            Binary::Min,
            operand_view(a),
            operand_view(b),
        ),
        Operation::Max(a, b) => ExpressionView::Binary(
            Binary::Max,
            operand_view(a),
            operand_view(b),
        ),
        Operation::Power(a, b) => ExpressionView::Binary(
            Binary::Power,
            operand_view(a),
            operand_view(b),
        ),
        Operation::Multiply(a, b) => ExpressionView::Binary(
            Binary::Multiply,
            operand_view(a),
            operand_view(b),
        ),
        Operation::Divide(a, b) => ExpressionView::Binary(
            Binary::Divide,
            operand_view(a),
            operand_view(b),
        ),
        Operation::Remainder(a, b) => ExpressionView::Binary(
            Binary::Remainder,
            operand_view(a),
            operand_view(b),
        ),
        Operation::Add(a, b) => ExpressionView::Binary(
            Binary::Add,
            operand_view(a),
            operand_view(b),
        ),
        Operation::Subtract(a, b) => ExpressionView::Binary(
            Binary::Subtract,
            operand_view(a),
            operand_view(b),
        ),
        Operation::Operand(a) => ExpressionView::Operand(operand_view(a)),
    }
}

/// What an expression holds.
pub open spec fn expression_view(expression: Expression) -> ExpressionView
    decreases expression,
{
    operation_view(expression.0)
}

impl View for Operand {
    type V = OperandView;

    open spec fn view(&self) -> OperandView {
        operand_view(*self)
    }
}

impl View for Expression {
    type V = ExpressionView;

    open spec fn view(&self) -> ExpressionView {
        expression_view(*self)
    }
}

/// The operand that stands for a whole expression.
pub open spec fn grouped(e: ExpressionView) -> OperandView {
    OperandView::Expression(Box::new(e))
}

/// The expression that is nothing but an operand.
pub open spec fn plain(operand: OperandView) -> ExpressionView {
    ExpressionView::Operand(operand)
}

/// An expression that is nothing but a sequence of notes.
pub open spec fn is_notes(e: ExpressionView) -> bool {
    e matches ExpressionView::Operand(OperandView::Notes(_))
}

impl Expression {
    /// Applies an operation of one operand to an expression.
    pub fn unary(op: Unary, e: Expression) -> (r: Expression)
        ensures
            r@ == ExpressionView::Unary(op, grouped(e@)),
    {
        let a = Operand::Expression(Box::new(e));
        Expression(
            match op {
                Unary::Negate => Operation::Negate(a),
                Unary::Sine => Operation::Sine(a),
                Unary::Cosine => Operation::Cosine(a),
                Unary::Ceiling => Operation::Ceiling(a),
                Unary::Floor => Operation::Floor(a),
                Unary::AbsoluteValue => Operation::AbsoluteValue(a),
                Unary::Logarithm => Operation::Logarithm(a),
            },
        )
    }

    /// Applies an operation of two operands to two expressions.
    pub fn binary(op: Binary, left: Expression, right: Expression) -> (r: Expression)
        ensures
            r@ == ExpressionView::Binary(op, grouped(left@), grouped(right@)),
    {
        let a = Operand::Expression(Box::new(left));
        let b = Operand::Expression(Box::new(right));
        Expression(
            match op {
                Binary::Min => Operation::Min(a, b),
                Binary::Max => Operation::Max(a, b),
                Binary::Power => Operation::Power(a, b),
                Binary::Multiply => Operation::Multiply(a, b),
                Binary::Divide => Operation::Divide(a, b),
                Binary::Remainder => Operation::Remainder(a, b),
                Binary::Add => Operation::Add(a, b),
                Binary::Subtract => Operation::Subtract(a, b),
            },
        )
    }

    /// The expression that is nothing but the given operand.
    pub fn operand(operand: Operand) -> (r: Expression)
        ensures
            r@ == plain(operand@),
    {
        Expression(Operation::Operand(operand))
    }

    /// Whether the expression is nothing but a sequence of notes.
    pub fn is_notes(&self) -> (r: bool)
        ensures
            r == is_notes(self@),
    {
        match &self.0 {
            Operation::Operand(Operand::Notes(_)) => true,
            _ => false,
        }
    }
}

} // verus!
