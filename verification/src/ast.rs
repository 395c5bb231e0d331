//! The syntax tree that the parser produces and the lowering pass consumes.

use vstd::prelude::*;

verus! {

/// A prefix operator.
#[derive(Debug, Clone, Copy, PartialEq, Eq, Structural)]
pub enum UnOp {
    Negation,
    BitwiseComplement,
    LogicalNegation,
}

/// An infix operator.
#[derive(Debug, Clone, Copy, PartialEq, Eq, Structural)]
pub enum BinOp {
    Add,
    Subtract,
    Multiply,
    Divide,
    Remainder,
    BitwiseAnd,
    BitwiseOr,
    BitwiseXor,
    LeftShift,
    RightShift,
    LogicalAnd,
    LogicalOr,
    Equal,
    NotEqual,
    LessThan,
    LessThanEqual,
    GreaterThan,
    GreaterThanEqual,
}

/// An expression: a literal, or an operator applied to smaller expressions.
#[derive(Debug, PartialEq)]
pub enum Expression {
    Constant(i32),
    UnaryOp((UnOp, Box<Expression>)),
    BinaryOp(BinOp, Box<Expression>, Box<Expression>),
}

/// A statement. The language has one: `return`.
#[derive(Debug, PartialEq)]
pub enum Statement {
    Return(Expression),
}

/// A function definition without parameters.
#[derive(Debug, PartialEq)]
pub struct FunctionDeclaration {
    pub name: String,
    pub body: Statement,
}

/// A program: exactly one function.
#[derive(Debug, PartialEq)]
pub struct Program {
    pub function: FunctionDeclaration,
}

/// The mathematical value of a [`FunctionDeclaration`]: the name is its sequence
/// of characters.
pub struct FunctionDeclarationView {
    pub name: Seq<char>,
    pub body: Statement,
}

/// The mathematical value of a [`Program`].
pub struct ProgramView {
    pub function: FunctionDeclarationView,
}

impl View for FunctionDeclaration {
    type V = FunctionDeclarationView;

    open spec fn view(&self) -> FunctionDeclarationView {
        FunctionDeclarationView { name: self.name@, body: self.body }
    }
}

impl View for Program {
    type V = ProgramView;

    open spec fn view(&self) -> ProgramView {
        ProgramView { function: self.function@ }
    }
}

impl Statement {
    /// The expression that the statement returns.
    pub open spec fn expression(self) -> Expression {
        match self {
            Statement::Return(e) => e,
        }
    }
}

impl Expression {
    /// The number of nodes of the expression: its literals and its operators.
    pub open spec fn size(self) -> nat
        decreases self,
    {
        match self {
            Expression::Constant(_) => 1,
            Expression::UnaryOp((_, inner)) => 1 + inner.size(),
            Expression::BinaryOp(_, left, right) => 1 + left.size() + right.size(),
        }
    }

    /// The number of operator nodes in the expression. Each of them is given one
    /// temporary when the expression is lowered.
    pub open spec fn operators(self) -> nat
        decreases self,
    {
        match self {
            Expression::Constant(_) => 0,
            Expression::UnaryOp((_, inner)) => 1 + inner.operators(),
            Expression::BinaryOp(_, left, right) => 1 + left.operators() + right.operators(),
        }
    }
}

} // verus!
