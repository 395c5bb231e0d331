//! Instruction selection: each instruction of the intermediate representation
//! becomes a short run of machine instructions in two-address form, whose
//! operands may still be names.

use vstd::prelude::*;
use crate::codegen::{instruction_views, Instruction, InstructionView, Operand, OperandView, Reg};
use crate::ir;

verus! {

/// The operand for a value: an immediate for a constant, a name for a variable.
pub open spec fn operand_of(v: ir::ValView) -> OperandView {
    match v {
        ir::ValView::Constant(c) => OperandView::Imm(c),
        ir::ValView::Var(name) => OperandView::Pseudo(name),
    }
}

/// Returns the operand for a value.
pub fn to_operand(v: &ir::Val) -> (operand: Operand)
    ensures
        operand@ == operand_of(v@),
{
    match v {
        ir::Val::Constant(i) => Operand::Imm(*i),
        ir::Val::Var(s) => Operand::Pseudo(s.clone()),
    }
}

/// Whether instructions can be selected for `instruction`: it is a return, a
/// unary operation, or one of the five arithmetic operations.
pub open spec fn selectable(instruction: ir::InstructionView) -> bool {
    match instruction {
        ir::InstructionView::Return(_) => true,
        ir::InstructionView::Unary(_, _, _) => true,
        ir::InstructionView::Binary(op, _, _, _) => op == ir::BinaryOp::Add || op
            == ir::BinaryOp::Subtract || op == ir::BinaryOp::Multiply || op == ir::BinaryOp::Divide
            || op == ir::BinaryOp::Remainder,
        _ => false,
    }
}

/// Whether instructions can be selected for every instruction of a sequence.
pub open spec fn all_selectable(instructions: Seq<ir::InstructionView>) -> bool {
    forall|i: int| 0 <= i < instructions.len() ==> selectable(#[trigger] instructions[i])
}

/// The machine instructions for one instruction.
///
/// Addition, subtraction and multiplication move the first source to the
/// destination and then apply the operation to the destination and the second
/// source. Division and remainder go through `rax` and `rdx`: the dividend to
/// `rax`, its sign into `rdx`, the division, and then the quotient from `rax` or
/// the remainder from `rdx` to the destination. Negation and complement move and
/// then work in place. Logical negation of a constant is decided here; of a name,
/// it is a comparison with zero, a zeroed destination, and a `Sete` on it. A
/// return moves the value to `rax`.
pub open spec fn select_one(instruction: ir::InstructionView) -> Seq<InstructionView>
    recommends
        selectable(instruction),
{
    match instruction {
        ir::InstructionView::Binary(op, src1, src2, dst) => {
            let s1 = operand_of(src1);
            let s2 = operand_of(src2);
            let d = operand_of(dst);
            match op {
                ir::BinaryOp::Add => seq![InstructionView::Mov(d, s1), InstructionView::Add(d, s2)],
                ir::BinaryOp::Subtract => seq![
                    InstructionView::Mov(d, s1),
                    InstructionView::Sub(d, s2),
                ],
                ir::BinaryOp::Multiply => seq![
                    InstructionView::Mov(d, s1),
                    InstructionView::Imul(d, s2),
                ],
                ir::BinaryOp::Divide => seq![
                    InstructionView::Mov(OperandView::Reg(Reg::Rax), s1),
                    InstructionView::Cqo,
                    InstructionView::Idiv(s2),
                    InstructionView::Mov(d, OperandView::Reg(Reg::Rax)),
                ],
                ir::BinaryOp::Remainder => seq![
                    InstructionView::Mov(OperandView::Reg(Reg::Rax), s1),
                    InstructionView::Cqo,
                    InstructionView::Idiv(s2),
                    InstructionView::Mov(d, OperandView::Reg(Reg::Rdx)),
                ],
                _ => seq![],
            }
        },
        ir::InstructionView::Unary(op, src, dst) => {
            let s = operand_of(src);
            let d = operand_of(dst);
            match op {
                ir::UnaryOp::Negation => seq![InstructionView::Mov(d, s), InstructionView::Neg(d)],
                ir::UnaryOp::BitwiseComplement => seq![
                    InstructionView::Mov(d, s),
                    InstructionView::Not(d),
                ],
                ir::UnaryOp::LogicalNegation => match s {
                    OperandView::Imm(value) => seq![
                        InstructionView::Mov(d, OperandView::Imm(if value == 0 { 1i32 } else { 0i32 })),
                    ],
                    _ => seq![
                        InstructionView::Cmp(s, OperandView::Imm(0)),
                        InstructionView::Mov(d, OperandView::Imm(0)),
                        InstructionView::Sete(d),
                    ],
                },
            }
        },
        ir::InstructionView::Return(value) => seq![
            InstructionView::Mov(OperandView::Reg(Reg::Rax), operand_of(value)),
            InstructionView::Ret,
        ],
        _ => seq![],
    }
}

/// The machine instructions for a sequence of instructions: those for each, in
/// order.
pub open spec fn select_all(instructions: Seq<ir::InstructionView>) -> Seq<InstructionView>
    decreases instructions.len(),
{
    if instructions.len() == 0 {
        Seq::empty()
    } else {
        select_all(instructions.drop_last()) + select_one(instructions.last())
    }
}

/// Selection goes through a sequence piece by piece.
pub proof fn lemma_select_all_concat(a: Seq<ir::InstructionView>, b: Seq<ir::InstructionView>)
    ensures
        select_all(a + b) == select_all(a) + select_all(b),
    decreases b.len(),
{
    if b.len() == 0 {
        assert(a + b =~= a);
        assert(select_all(a) + select_all(b) =~= select_all(a));
    } else {
        assert((a + b).drop_last() =~= a + b.drop_last());
        assert((a + b).last() == b.last());
        lemma_select_all_concat(a, b.drop_last());
        assert(select_all(a + b) =~= select_all(a) + select_all(b));
    }
}

/// Whether instructions can be selected for `instruction`.
pub fn is_selectable(instruction: &ir::Instruction) -> (b: bool)
    ensures
        b == selectable(instruction@),
{
    match instruction {
        ir::Instruction::Return(_) => true,
        ir::Instruction::Unary(_, _, _) => true,
        ir::Instruction::Binary(op, _, _, _) => match op {
            ir::BinaryOp::Add => true,
            ir::BinaryOp::Subtract => true,
            ir::BinaryOp::Multiply => true,
            ir::BinaryOp::Divide => true,
            ir::BinaryOp::Remainder => true,
            _ => false,
        },
        _ => false,
    }
}

/// Appends the machine instructions for one instruction.
fn select_instruction(instruction: &ir::Instruction, insts: &mut Vec<Instruction>)
    requires
        selectable(instruction@),
    ensures
        instruction_views(final(insts)@) == instruction_views(old(insts)@) + select_one(
            instruction@,
        ),
{
    let ghost before = instruction_views(insts@);
    match instruction {
        ir::Instruction::Binary(op, src1, src2, dst) => {
            let s1 = to_operand(src1);
            let s2 = to_operand(src2);
            let d = to_operand(dst);
            match op {
                ir::BinaryOp::Add => {
                    insts.push(Instruction::Mov(d.clone(), s1));
                    insts.push(Instruction::Add(d, s2));
                },
                ir::BinaryOp::Subtract => {
                    insts.push(Instruction::Mov(d.clone(), s1));
                    insts.push(Instruction::Sub(d, s2));
                },
                ir::BinaryOp::Multiply => {
                    insts.push(Instruction::Mov(d.clone(), s1));
                    insts.push(Instruction::Imul(d, s2));
                },
                ir::BinaryOp::Divide => {
                    insts.push(Instruction::Mov(Operand::Reg(Reg::Rax), s1));
                    insts.push(Instruction::Cqo);
                    insts.push(Instruction::Idiv(s2));
                    insts.push(Instruction::Mov(d, Operand::Reg(Reg::Rax)));
                },
                ir::BinaryOp::Remainder => {
                    insts.push(Instruction::Mov(Operand::Reg(Reg::Rax), s1));
                    insts.push(Instruction::Cqo);
                    insts.push(Instruction::Idiv(s2));
                    insts.push(Instruction::Mov(d, Operand::Reg(Reg::Rdx)));
                },
                _ => {},
            }
        },
        ir::Instruction::Unary(op, src, dst) => {
            let s = to_operand(src);
            let d = to_operand(dst);
            match op {
                ir::UnaryOp::Negation => {
                    insts.push(Instruction::Mov(d.clone(), s));
                    insts.push(Instruction::Neg(d));
                },
                ir::UnaryOp::BitwiseComplement => {
                    insts.push(Instruction::Mov(d.clone(), s));
                    insts.push(Instruction::Not(d));
                },
                ir::UnaryOp::LogicalNegation => {
                    if let Operand::Imm(val) = &s {
                        if *val == 0 {
                            insts.push(Instruction::Mov(d, Operand::Imm(1)));
                        } else {
                            insts.push(Instruction::Mov(d, Operand::Imm(0)));
                        }
                    } else {
                        insts.push(Instruction::Cmp(s, Operand::Imm(0)));
                        insts.push(Instruction::Mov(d.clone(), Operand::Imm(0)));
                        insts.push(Instruction::Sete(d));
                    }
                },
            }
        },
        ir::Instruction::Return(val) => {
            insts.push(Instruction::Mov(Operand::Reg(Reg::Rax), to_operand(val)));
            insts.push(Instruction::Ret);
        },
        _ => {},
    }
    assert(instruction_views(insts@) =~= before + select_one(instruction@));
}

/// Selects machine instructions for a function.
pub fn select_instructions(ir_fn: &ir::Function) -> (insts: Vec<Instruction>)
    requires
        all_selectable(ir_fn@.instructions),
    ensures
        instruction_views(insts@) == select_all(ir_fn@.instructions),
{
    let mut insts: Vec<Instruction> = Vec::new();
    let ghost source = ir_fn@.instructions;
    let mut i: usize = 0;
    assert(source.take(0) =~= Seq::empty());
    assert(instruction_views(insts@) =~= Seq::empty());
    while i < ir_fn.instructions.len()
        invariant
            i <= ir_fn.instructions.len(),
            source == ir_fn@.instructions,
            source.len() == ir_fn.instructions.len(),
            all_selectable(source),
            instruction_views(insts@) == select_all(source.take(i as int)),
        decreases ir_fn.instructions.len() - i,
    {
        proof {
            let next = source.take(i + 1);
            assert(next.drop_last() =~= source.take(i as int));
            assert(next.last() == source[i as int]);
            assert(source[i as int] == ir_fn.instructions[i as int]@);
        }
        select_instruction(&ir_fn.instructions[i], &mut insts);
        i = i + 1;
    }
    assert(source.take(i as int) =~= source);
    insts
}

} // verus!
