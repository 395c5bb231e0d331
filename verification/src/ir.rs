//! The intermediate representation: a flat list of three-address instructions,
//! with control flow written as labels and jumps.

use vstd::prelude::*;

verus! {

/// A unary operation.
#[derive(Debug, Clone, Copy, PartialEq, Eq, Structural)]
pub enum UnaryOp {
    Negation,
    BitwiseComplement,
    LogicalNegation,
}

/// A binary operation.
#[derive(Debug, Clone, Copy, PartialEq, Eq, Structural)]
pub enum BinaryOp {
    Add,
    Subtract,
    Multiply,
    Divide,
    Remainder,
    BitwiseAnd,
    BitwiseOr,
    BitwiseXor,
    LeftShift,
    RightShift,
    LessThan,
    GreaterThan,
    LessThanEqual,
    GreaterThanEqual,
    NotEqual,
    Equal,
}

/// An operand: a constant, or a variable, which is a temporary or a variable of
/// the source.
#[derive(Debug, PartialEq)]
pub enum Val {
    Constant(i32),
    Var(String),
}

/// The mathematical value of a [`Val`]: a variable is the characters of its name.
pub enum ValView {
    Constant(i32),
    Var(Seq<char>),
}

impl View for Val {
    type V = ValView;

    open spec fn view(&self) -> ValView {
        match *self {
            Val::Constant(c) => ValView::Constant(c),
            Val::Var(name) => ValView::Var(name@),
        }
    }
}

impl Clone for Val {
    /// Returns a copy with the same value.
    fn clone(&self) -> (copy: Val)
        ensures
            copy@ == self@,
    {
        match self {
            Val::Constant(c) => Val::Constant(*c),
            Val::Var(name) => Val::Var(name.clone()),
        }
    }
}

/// An instruction. The operands are written sources first, destination last,
/// except for `Copy`, which has its destination first.
#[derive(Debug, Clone, PartialEq)]
pub enum Instruction {
    Return(Val),
    Unary(UnaryOp, Val, Val),
    Binary(BinaryOp, Val, Val, Val),
    Copy(Val, Val),
    Jump(String),
    JumpIfZero(Val, String),
    JumpIfNotZero(Val, String),
    Label(String),
}

/// The mathematical value of an [`Instruction`].
pub enum InstructionView {
    Return(ValView),
    Unary(UnaryOp, ValView, ValView),
    Binary(BinaryOp, ValView, ValView, ValView),
    Copy(ValView, ValView),
    Jump(Seq<char>),
    JumpIfZero(ValView, Seq<char>),
    JumpIfNotZero(ValView, Seq<char>),
    Label(Seq<char>),
}

impl View for Instruction {
    type V = InstructionView;

    open spec fn view(&self) -> InstructionView {
        match *self {
            Instruction::Return(v) => InstructionView::Return(v@),
            Instruction::Unary(op, src, dst) => InstructionView::Unary(op, src@, dst@),
            Instruction::Binary(op, src1, src2, dst) => InstructionView::Binary(
                op,
                src1@,
                src2@,
                dst@,
            ),
            Instruction::Copy(dst, src) => InstructionView::Copy(dst@, src@),
            Instruction::Jump(target) => InstructionView::Jump(target@),
            Instruction::JumpIfZero(cond, target) => InstructionView::JumpIfZero(cond@, target@),
            Instruction::JumpIfNotZero(cond, target) => InstructionView::JumpIfNotZero(
                cond@,
                target@,
            ),
            Instruction::Label(name) => InstructionView::Label(name@),
        }
    }
}

/// The values of a sequence of instructions.
pub open spec fn instruction_views(instructions: Seq<Instruction>) -> Seq<InstructionView> {
    instructions.map_values(|i: Instruction| i@)
}

/// A function: its name and its instructions, in order.
#[derive(Debug)]
pub struct Function {
    pub name: String,
    pub instructions: Vec<Instruction>,
}

/// The mathematical value of a [`Function`].
pub struct FunctionView {
    pub name: Seq<char>,
    pub instructions: Seq<InstructionView>,
}

impl View for Function {
    type V = FunctionView;

    open spec fn view(&self) -> FunctionView {
        FunctionView { name: self.name@, instructions: instruction_views(self.instructions@) }
    }
}

/// A program: exactly one function.
#[derive(Debug)]
pub struct Program {
    pub function: Function,
}

/// The mathematical value of a [`Program`].
pub struct ProgramView {
    pub function: FunctionView,
}

impl View for Program {
    type V = ProgramView;

    open spec fn view(&self) -> ProgramView {
        ProgramView { function: self.function@ }
    }
}

} // verus!
