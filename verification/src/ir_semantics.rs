//! What the intermediate representation means: instructions are taken one after
//! the other, a jump goes on at its label, and a `Return` ends the run.

use vstd::prelude::*;
use crate::ast::BinOp;
use crate::ir::{BinaryOp, InstructionView, UnaryOp, ValView};
use crate::semantics::{apply_binary, apply_unary};

verus! {

/// The state of a run: the index of the next instruction, and the values of the
/// variables.
pub struct State {
    pub pc: int,
    pub vars: Map<Seq<char>, int>,
}

/// How a run stands.
pub enum Progress {
    /// The run goes on from a state.
    Running(State),
    /// The run has ended with a `Return` of a value.
    Returned(int),
    /// The run cannot go on: there is no next instruction, an operation has no
    /// value, a jump has no label, or a destination is not a variable.
    Stuck,
}

/// The infix operator of the source that an operation stands for.
pub open spec fn source_operator(op: BinaryOp) -> BinOp {
    match op {
        BinaryOp::Add => BinOp::Add,
        BinaryOp::Subtract => BinOp::Subtract,
        BinaryOp::Multiply => BinOp::Multiply,
        BinaryOp::Divide => BinOp::Divide,
        BinaryOp::Remainder => BinOp::Remainder,
        BinaryOp::BitwiseAnd => BinOp::BitwiseAnd,
        BinaryOp::BitwiseOr => BinOp::BitwiseOr,
        BinaryOp::BitwiseXor => BinOp::BitwiseXor,
        BinaryOp::LeftShift => BinOp::LeftShift,
        BinaryOp::RightShift => BinOp::RightShift,
        BinaryOp::LessThan => BinOp::LessThan,
        BinaryOp::GreaterThan => BinOp::GreaterThan,
        BinaryOp::LessThanEqual => BinOp::LessThanEqual,
        BinaryOp::GreaterThanEqual => BinOp::GreaterThanEqual,
        BinaryOp::NotEqual => BinOp::NotEqual,
        BinaryOp::Equal => BinOp::Equal,
    }
}

/// The prefix operator of the source that an operation stands for.
pub open spec fn source_prefix(op: UnaryOp) -> crate::ast::UnOp {
    match op {
        UnaryOp::Negation => crate::ast::UnOp::Negation,
        UnaryOp::BitwiseComplement => crate::ast::UnOp::BitwiseComplement,
        UnaryOp::LogicalNegation => crate::ast::UnOp::LogicalNegation,
    }
}

/// The index of the label with the given name, if there is one.
pub open spec fn label_position(code: Seq<InstructionView>, label: Seq<char>) -> Option<int> {
    if exists|i: int| 0 <= i < code.len() && code[i] == InstructionView::Label(label) {
        Some(choose|i: int| 0 <= i < code.len() && code[i] == InstructionView::Label(label))
    } else {
        None
    }
}

impl State {
    /// The value of an operand.
    pub open spec fn value(self, operand: ValView) -> int {
        match operand {
            ValView::Constant(c) => c as int,
            ValView::Var(name) => self.vars[name],
        }
    }

    /// The run after `value` is given to the variable `dst`.
    pub open spec fn assign(self, dst: ValView, value: int) -> Progress {
        match dst {
            ValView::Var(name) => Progress::Running(
                State { pc: self.pc + 1, vars: self.vars.insert(name, value) },
            ),
            ValView::Constant(_) => Progress::Stuck,
        }
    }

    /// The run after a jump to a label.
    pub open spec fn jump(self, code: Seq<InstructionView>, label: Seq<char>) -> Progress {
        match label_position(code, label) {
            Some(position) => Progress::Running(State { pc: position, ..self }),
            None => Progress::Stuck,
        }
    }

    /// The run after the step to the next instruction.
    pub open spec fn next(self) -> Progress {
        Progress::Running(State { pc: self.pc + 1, ..self })
    }

    /// The run after one instruction.
    pub open spec fn step(self, code: Seq<InstructionView>) -> Progress {
        if 0 <= self.pc < code.len() {
            match code[self.pc] {
                InstructionView::Return(value) => Progress::Returned(self.value(value)),
                InstructionView::Unary(op, src, dst) => self.assign(
                    dst,
                    apply_unary(source_prefix(op), self.value(src)),
                ),
                InstructionView::Binary(op, src1, src2, dst) => match apply_binary(
                    source_operator(op),
                    self.value(src1),
                    self.value(src2),
                ) {
                    Some(value) => self.assign(dst, value),
                    None => Progress::Stuck,
                },
                InstructionView::Copy(dst, src) => self.assign(dst, self.value(src)),
                InstructionView::Jump(target) => self.jump(code, target),
                InstructionView::JumpIfZero(condition, target) => if self.value(condition) == 0 {
                    self.jump(code, target)
                } else {
                    self.next()
                },
                InstructionView::JumpIfNotZero(condition, target) => if self.value(condition)
                    != 0 {
                    self.jump(code, target)
                } else {
                    self.next()
                },
                InstructionView::Label(_) => self.next(),
            }
        } else {
            Progress::Stuck
        }
    }

    /// The run after at most `steps` instructions: it ends before that where it
    /// returns or gets stuck.
    pub open spec fn run(self, code: Seq<InstructionView>, steps: nat) -> Progress
        decreases steps,
    {
        if steps == 0 {
            Progress::Running(self)
        } else {
            match self.step(code) {
                Progress::Running(next) => next.run(code, (steps - 1) as nat),
                ended => ended,
            }
        }
    }
}

/// A run of some steps and then some more is a run of all of them.
pub proof fn lemma_run_more(code: Seq<InstructionView>, start: State, first: nat, more: nat)
    requires
        start.run(code, first) is Running,
    ensures
        start.run(code, first + more) == start.run(code, first)->Running_0.run(code, more),
    decreases first,
{
    if first > 0 {
        let next = start.step(code)->Running_0;
        lemma_run_more(code, next, (first - 1) as nat, more);
    }
}

} // verus!
