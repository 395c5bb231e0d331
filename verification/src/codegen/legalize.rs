//! Legalization: instructions that the processor cannot encode are rewritten
//! into ones that it can, with the help of two scratch registers.
//!
//! `r10` carries a source from memory, or an immediate divisor; `r11` carries
//! the destination of a multiplication. Neither holds a value from one
//! instruction of the input to the next.

use vstd::prelude::*;
use crate::codegen::frame::is_placed;
use crate::codegen::{instruction_views, Instruction, InstructionView, Operand, OperandView, Reg};

verus! {

/// Whether legalization takes `instruction`: none of its operands is a name, and
/// a `Sete` has a register or an eight-byte slot to set.
pub open spec fn fixable(instruction: InstructionView) -> bool {
    &&& forall|k: int|
        0 <= k < instruction.operands().len() ==> !(#[trigger] instruction.operands()[k]
            is Pseudo)
    &&& instruction matches InstructionView::Sete(dst) ==> dst is Reg || dst is StackQWord
}

/// Whether legalization takes every instruction of a sequence.
pub open spec fn all_fixable(instructions: Seq<InstructionView>) -> bool {
    forall|i: int| 0 <= i < instructions.len() ==> fixable(#[trigger] instructions[i])
}

/// Whether an instruction is as frame allocation leaves it: its operands are
/// immediates, registers and eight-byte slots.
pub open spec fn is_allocated(instruction: InstructionView) -> bool {
    forall|k: int|
        0 <= k < instruction.operands().len() ==> {
            let operand = #[trigger] instruction.operands()[k];
            operand is Imm || operand is Reg || operand is StackQWord
        }
}

/// Whether every instruction of a sequence is as frame allocation leaves it.
pub open spec fn all_allocated(instructions: Seq<InstructionView>) -> bool {
    forall|i: int| 0 <= i < instructions.len() ==> is_allocated(#[trigger] instructions[i])
}

/// Whether the processor can encode `instruction`, as far as these rules go: no
/// instruction has two operands in memory; a `Sete` sets a byte, in a byte
/// register or a one-byte slot; a division has no immediate divisor; and a
/// multiplication has no destination in memory.
pub open spec fn encodable(instruction: InstructionView) -> bool {
    &&& instruction.operands().len() == 2 ==> !(instruction.operands()[0].is_stack()
        && instruction.operands()[1].is_stack())
    &&& instruction matches InstructionView::Sete(dst) ==> (dst is StackByte || (
    dst matches OperandView::Reg(r) && r.is_byte()))
    &&& instruction matches InstructionView::Idiv(divisor) ==> !(divisor is Imm)
    &&& instruction matches InstructionView::Imul(dst, _) ==> !dst.is_stack()
}

/// The instructions that stand for one instruction after legalization.
///
/// A move, an addition, a subtraction or a comparison of two slots loads the
/// source into `r10` and uses `r10` in its place. A `Sete` gets the low byte of
/// its register, or the one-byte slot at the offset of its slot. An immediate
/// divisor goes through `r10`. A multiplication into a slot loads the slot into
/// `r11`, multiplies there, and stores `r11` back. Every other instruction stays
/// as it is.
pub open spec fn fix_one(instruction: InstructionView) -> Seq<InstructionView>
    recommends
        fixable(instruction),
{
    let r10 = OperandView::Reg(Reg::R10);
    let r11 = OperandView::Reg(Reg::R11);
    match instruction {
        InstructionView::Mov(dst, src) => if dst is StackQWord && src is StackQWord {
            seq![InstructionView::Mov(r10, src), InstructionView::Mov(dst, r10)]
        } else {
            seq![instruction]
        },
        InstructionView::Add(dst, src) => if dst is StackQWord && src is StackQWord {
            seq![InstructionView::Mov(r10, src), InstructionView::Add(dst, r10)]
        } else {
            seq![instruction]
        },
        InstructionView::Sub(dst, src) => if dst is StackQWord && src is StackQWord {
            seq![InstructionView::Mov(r10, src), InstructionView::Sub(dst, r10)]
        } else {
            seq![instruction]
        },
        InstructionView::Cmp(dst, src) => if dst is StackQWord && src is StackQWord {
            seq![InstructionView::Mov(r10, src), InstructionView::Cmp(dst, r10)]
        } else {
            seq![instruction]
        },
        InstructionView::Sete(dst) => match dst {
            OperandView::Reg(reg) => seq![InstructionView::Sete(OperandView::Reg(reg.byte_alias()))],
            OperandView::StackQWord(offset) => seq![
                InstructionView::Sete(OperandView::StackByte(offset)),
            ],
            _ => seq![instruction],
        },
        InstructionView::Idiv(src) => if src is Imm {
            seq![InstructionView::Mov(r10, src), InstructionView::Idiv(r10)]
        } else {
            seq![instruction]
        },
        InstructionView::Imul(dst, src) => if dst is StackQWord {
            seq![
                InstructionView::Mov(r11, dst),
                InstructionView::Imul(r11, src),
                InstructionView::Mov(dst, r11),
            ]
        } else {
            seq![instruction]
        },
        _ => seq![instruction],
    }
}

/// The instructions after legalization: those for each instruction, in order.
pub open spec fn fix_all(instructions: Seq<InstructionView>) -> Seq<InstructionView>
    decreases instructions.len(),
{
    if instructions.len() == 0 {
        Seq::empty()
    } else {
        fix_all(instructions.drop_last()) + fix_one(instructions.last())
    }
}

/// Whether the processor can encode every instruction of a sequence.
pub open spec fn all_encodable(instructions: Seq<InstructionView>) -> bool {
    forall|i: int| 0 <= i < instructions.len() ==> encodable(#[trigger] instructions[i])
}

/// What legalization makes of an instruction that frame allocation has left,
/// the processor can encode.
pub proof fn lemma_fix_one_encodable(instruction: InstructionView)
    requires
        fixable(instruction),
        is_allocated(instruction),
    ensures
        all_encodable(fix_one(instruction)),
        fix_one(instruction).len() >= 1,
{
    let fixed = fix_one(instruction);
    let operands = instruction.operands();
    if operands.len() >= 1 {
        assert(operands[0] is Imm || operands[0] is Reg || operands[0] is StackQWord);
    }
    if operands.len() == 2 {
        assert(operands[1] is Imm || operands[1] is Reg || operands[1] is StackQWord);
    }
    assert forall|i: int| 0 <= i < fixed.len() implies encodable(#[trigger] fixed[i]) by {
        match instruction {
            InstructionView::Sete(dst) => {
                if let OperandView::Reg(reg) = dst {
                    crate::codegen::lemma_byte_alias(reg, reg);
                }
            },
            _ => {},
        }
    }
}

/// What legalization makes of instructions that frame allocation has left, the
/// processor can encode: no instruction of it has two operands in memory, no `Sete` sets
/// more than a byte, no division has an immediate divisor, and no multiplication
/// has its destination in memory.
pub proof fn lemma_fix_all_encodable(instructions: Seq<InstructionView>)
    requires
        all_fixable(instructions),
        all_allocated(instructions),
    ensures
        all_encodable(fix_all(instructions)),
    decreases instructions.len(),
{
    if instructions.len() > 0 {
        let front = instructions.drop_last();
        assert forall|i: int| 0 <= i < front.len() implies fixable(#[trigger] front[i])
            && is_allocated(front[i]) by {
            assert(front[i] == instructions[i]);
        }
        lemma_fix_all_encodable(front);
        lemma_fix_one_encodable(instructions.last());
        let a = fix_all(front);
        let b = fix_one(instructions.last());
        assert forall|i: int| 0 <= i < (a + b).len() implies encodable(#[trigger] (a + b)[i]) by {
            if i < a.len() {
                assert((a + b)[i] == a[i]);
            } else {
                assert((a + b)[i] == b[i - a.len()]);
            }
        }
    }
}

/// Legalization brings in no name: after it no operand is one.
pub proof fn lemma_fix_all_placed(instructions: Seq<InstructionView>)
    requires
        all_fixable(instructions),
    ensures
        forall|i: int|
            0 <= i < fix_all(instructions).len() ==> is_placed(#[trigger] fix_all(instructions)[i]),
    decreases instructions.len(),
{
    if instructions.len() > 0 {
        let front = instructions.drop_last();
        let last = instructions.last();
        assert forall|i: int| 0 <= i < front.len() implies fixable(#[trigger] front[i]) by {
            assert(front[i] == instructions[i]);
        }
        lemma_fix_all_placed(front);
        let a = fix_all(front);
        let b = fix_one(last);
        assert(fixable(last));
        if last.operands().len() >= 1 {
            assert(!(last.operands()[0] is Pseudo));
        }
        if last.operands().len() == 2 {
            assert(!(last.operands()[1] is Pseudo));
        }
        assert forall|i: int| 0 <= i < (a + b).len() implies is_placed(#[trigger] (a + b)[i]) by {
            if i < a.len() {
                assert((a + b)[i] == a[i]);
            } else {
                assert((a + b)[i] == b[i - a.len()]);
            }
        }
    }
}

/// Whether an operand is an eight-byte slot.
fn is_slot(op: &Operand) -> (b: bool)
    ensures
        b == (op@ is StackQWord),
{
    match op {
        Operand::StackQWord(_) => true,
        _ => false,
    }
}

/// Appends the instructions that stand for `inst` after legalization.
fn fix_instruction(inst: &Instruction, clean_insts: &mut Vec<Instruction>)
    requires
        fixable(inst@),
    ensures
        instruction_views(final(clean_insts)@) == instruction_views(old(clean_insts)@) + fix_one(
            inst@,
        ),
{
    let ghost before = instruction_views(clean_insts@);
    match inst {
        Instruction::Add(dst, src) => {
            if is_slot(dst) && is_slot(src) {
                clean_insts.push(Instruction::Mov(Operand::Reg(Reg::R10), src.clone()));
                clean_insts.push(Instruction::Add(dst.clone(), Operand::Reg(Reg::R10)));
            } else {
                clean_insts.push(inst.clone());
            }
        },
        Instruction::Sub(dst, src) => {
            if is_slot(dst) && is_slot(src) {
                clean_insts.push(Instruction::Mov(Operand::Reg(Reg::R10), src.clone()));
                clean_insts.push(Instruction::Sub(dst.clone(), Operand::Reg(Reg::R10)));
            } else {
                clean_insts.push(inst.clone());
            }
        },
        Instruction::Cmp(dst, src) => {
            if is_slot(dst) && is_slot(src) {
                clean_insts.push(Instruction::Mov(Operand::Reg(Reg::R10), src.clone()));
                clean_insts.push(Instruction::Cmp(dst.clone(), Operand::Reg(Reg::R10)));
            } else {
                clean_insts.push(inst.clone());
            }
        },
        Instruction::Mov(dst, src) => {
            if is_slot(dst) && is_slot(src) {
                clean_insts.push(Instruction::Mov(Operand::Reg(Reg::R10), src.clone()));
                clean_insts.push(Instruction::Mov(dst.clone(), Operand::Reg(Reg::R10)));
            } else {
                clean_insts.push(inst.clone());
            }
        },
        Instruction::Sete(dst) => {
            match dst {
                Operand::Reg(reg) => {
                    clean_insts.push(Instruction::Sete(Operand::Reg(reg.to_byte_reg())));
                },
                Operand::StackQWord(offset) => {
                    clean_insts.push(Instruction::Sete(Operand::StackByte(*offset)));
                },
                _ => {
                    clean_insts.push(inst.clone());
                },
            }
        },
        Instruction::Idiv(src) => {
            if let Operand::Imm(val) = src {
                clean_insts.push(Instruction::Mov(Operand::Reg(Reg::R10), Operand::Imm(*val)));
                clean_insts.push(Instruction::Idiv(Operand::Reg(Reg::R10)));
            } else {
                clean_insts.push(inst.clone());
            }
        },
        Instruction::Imul(dst, src) => {
            if is_slot(dst) {
                clean_insts.push(Instruction::Mov(Operand::Reg(Reg::R11), dst.clone()));
                clean_insts.push(Instruction::Imul(Operand::Reg(Reg::R11), src.clone()));
                clean_insts.push(Instruction::Mov(dst.clone(), Operand::Reg(Reg::R11)));
            } else {
                clean_insts.push(Instruction::Imul(dst.clone(), src.clone()));
            }
        },
        _ => {
            clean_insts.push(inst.clone());
        },
    }
    assert(instruction_views(clean_insts@) =~= before + fix_one(inst@));
}

/// Rewrites the instructions that the processor cannot encode.
///
/// Where the instructions are as frame allocation leaves them, no instruction of
/// the result has two operands in memory, every `Sete` sets a byte, no division
/// has an immediate divisor, and no multiplication has its destination in memory.
pub fn fix_instructions(insts: Vec<Instruction>) -> (clean_insts: Vec<Instruction>)
    requires
        all_fixable(instruction_views(insts@)),
    ensures
        instruction_views(clean_insts@) == fix_all(instruction_views(insts@)),
        all_allocated(instruction_views(insts@)) ==> all_encodable(
            instruction_views(clean_insts@),
        ),
{
    let mut clean_insts: Vec<Instruction> = Vec::new();
    let ghost source = instruction_views(insts@);
    let mut i: usize = 0;
    assert(source.take(0) =~= Seq::empty());
    assert(instruction_views(clean_insts@) =~= Seq::empty());
    while i < insts.len()
        invariant
            i <= insts.len(),
            source == instruction_views(insts@),
            all_fixable(source),
            instruction_views(clean_insts@) == fix_all(source.take(i as int)),
        decreases insts.len() - i,
    {
        proof {
            let next = source.take(i + 1);
            assert(next.drop_last() =~= source.take(i as int));
            assert(next.last() == source[i as int]);
            assert(source[i as int] == insts[i as int]@);
        }
        fix_instruction(&insts[i], &mut clean_insts);
        i = i + 1;
    }
    proof {
        assert(source.take(i as int) =~= source);
        if all_allocated(source) {
            lemma_fix_all_encodable(source);
        }
    }
    clean_insts
}

} // verus!
