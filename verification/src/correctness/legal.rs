//! Legalization keeps what the instructions compute: the rewritten instructions
//! leave everything as the instructions before them do, but for the two scratch
//! registers.

use vstd::prelude::*;
use crate::codegen::legalize::{fix_all, fix_one};
use crate::codegen::{InstructionView, OperandView, Reg};
use crate::machine::{
    lemma_run_concat, lemma_run_one, lemma_run_three, lemma_run_two, with_low_byte, wrap64,
    Machine,
};

verus! {

/// Whether two machines are alike but for the scratch registers `r10` and `r11`.
pub open spec fn alike(a: Machine, b: Machine) -> bool {
    &&& a.memory == b.memory
    &&& a.names == b.names
    &&& a.zero == b.zero
    &&& forall|reg: Reg|
        reg != Reg::R10 && reg != Reg::R11 ==> #[trigger] a.regs[reg] == b.regs[reg]
}

/// Whether an operand is an immediate, an eight-byte slot, or a 64-bit register
/// other than the two scratch registers.
pub open spec fn is_settled(operand: OperandView) -> bool {
    match operand {
        OperandView::Imm(_) => true,
        OperandView::Reg(reg) => !reg.is_byte() && reg != Reg::R10 && reg != Reg::R11,
        OperandView::StackQWord(_) => true,
        _ => false,
    }
}

/// Whether an instruction is as frame allocation may leave it, and does not use
/// the two scratch registers: its operands are immediates, eight-byte slots and
/// other 64-bit registers.
pub open spec fn computes_settled(instruction: InstructionView) -> bool {
    forall|k: int|
        0 <= k < instruction.operands().len() ==> is_settled(#[trigger] instruction.operands()[k])
}

/// An operand has the same value in machines that are alike.
pub proof fn lemma_alike_value(a: Machine, b: Machine, operand: OperandView)
    requires
        alike(a, b),
        is_settled(operand),
    ensures
        b.value(operand) == a.value(operand),
{
}

/// An operand names the same location in machines that are alike, the location
/// holds the same value, and storing the same value there leaves them alike.
pub proof fn lemma_alike_store(a: Machine, b: Machine, operand: OperandView, value: int)
    requires
        alike(a, b),
        is_settled(operand),
        !(operand is Imm),
    ensures
        a.word(operand) is Some,
        b.word(operand) == a.word(operand),
        b.byte(operand) == a.byte(operand),
        a.byte(operand) == a.word(operand),
        b.load(a.word(operand)->0) == a.load(a.word(operand)->0),
        alike(a.store(a.word(operand)->0, value), b.store(a.word(operand)->0, value)),
{
}

/// An instruction does the same in machines that are alike.
pub proof fn lemma_alike_step(a: Machine, b: Machine, instruction: InstructionView)
    requires
        alike(a, b),
        computes_settled(instruction),
        a.step(instruction) is Some,
    ensures
        b.step(instruction) is Some,
        alike(a.step(instruction)->0, b.step(instruction)->0),
{
    let operands = instruction.operands();
    if operands.len() >= 1 {
        assert(is_settled(operands[0]));
        lemma_alike_value(a, b, operands[0]);
    }
    if operands.len() == 2 {
        assert(is_settled(operands[1]));
        lemma_alike_value(a, b, operands[1]);
    }
    match instruction {
        InstructionView::Mov(dst, src) => {
            lemma_alike_store(a, b, dst, a.value(src)->0);
        },
        InstructionView::Add(dst, src) => {
            let location = a.word(dst)->0;
            lemma_alike_store(a, b, dst, wrap64(a.load(location) + a.value(src)->0));
        },
        InstructionView::Sub(dst, src) => {
            let location = a.word(dst)->0;
            lemma_alike_store(a, b, dst, wrap64(a.load(location) - a.value(src)->0));
        },
        InstructionView::Imul(dst, src) => {
            let location = a.word(dst)->0;
            lemma_alike_store(a, b, dst, wrap64(a.load(location) * a.value(src)->0));
        },
        InstructionView::Neg(dst) => {
            let location = a.word(dst)->0;
            lemma_alike_store(a, b, dst, wrap64(-a.load(location)));
        },
        InstructionView::Not(dst) => {
            let location = a.word(dst)->0;
            lemma_alike_store(a, b, dst, -a.load(location) - 1);
        },
        InstructionView::Sete(dst) => {
            let location = a.byte(dst)->0;
            lemma_alike_store(
                a,
                b,
                dst,
                with_low_byte(a.load(location), if a.zero { 1int } else { 0int }),
            );
        },
        _ => {},
    }
}

/// Loading a slot into `r10` gives a machine that is alike, with the value of the
/// slot in `r10`.
pub proof fn lemma_load_scratch(a: Machine, b: Machine, scratch: Reg, src: OperandView) -> (end:
    Machine)
    requires
        alike(a, b),
        is_settled(src),
        scratch == Reg::R10 || scratch == Reg::R11,
    ensures
        b.step(InstructionView::Mov(OperandView::Reg(scratch), src)) == Some(end),
        alike(a, end),
        end.regs[scratch] == a.value(src)->0,
        a.value(src) is Some,
{
    b.step(InstructionView::Mov(OperandView::Reg(scratch), src))->0
}

/// An instruction whose source is `r10` does, in a machine that has the value of
/// `src` in `r10`, what the instruction with the source `src` does.
pub proof fn lemma_through_scratch(
    a: Machine,
    b: Machine,
    instruction: InstructionView,
    dst: OperandView,
    src: OperandView,
)
    requires
        alike(a, b),
        is_settled(dst),
        is_settled(src),
        dst is StackQWord,
        b.regs[Reg::R10] == a.value(src)->0,
        a.value(src) is Some,
        instruction == InstructionView::Mov(dst, src) || instruction == InstructionView::Add(
            dst,
            src,
        ) || instruction == InstructionView::Sub(dst, src) || instruction == InstructionView::Cmp(
            dst,
            src,
        ),
        a.step(instruction) is Some,
    ensures
        ({
            let r10 = OperandView::Reg(Reg::R10);
            let through = instruction.with_operands(dst, r10);
            &&& b.step(through) is Some
            &&& alike(a.step(instruction)->0, b.step(through)->0)
        }),
{
    let r10 = OperandView::Reg(Reg::R10);
    let location = a.word(dst)->0;
    lemma_alike_value(a, b, dst);
    match instruction {
        InstructionView::Mov(_, _) => {
            lemma_alike_store(a, b, dst, a.value(src)->0);
        },
        InstructionView::Add(_, _) => {
            lemma_alike_store(a, b, dst, wrap64(a.load(location) + a.value(src)->0));
        },
        InstructionView::Sub(_, _) => {
            lemma_alike_store(a, b, dst, wrap64(a.load(location) - a.value(src)->0));
        },
        _ => {},
    }
}

/// A multiplication into a slot through `r11` does what the multiplication does.
pub proof fn lemma_fix_imul(a: Machine, b: Machine, dst: OperandView, src: OperandView) -> (end:
    Machine)
    requires
        alike(a, b),
        is_settled(dst),
        is_settled(src),
        dst is StackQWord,
        a.step(InstructionView::Imul(dst, src)) is Some,
    ensures
        b.run(fix_one(InstructionView::Imul(dst, src))) == Some(end),
        alike(a.step(InstructionView::Imul(dst, src))->0, end),
{
    let r11 = OperandView::Reg(Reg::R11);
    lemma_run_three(
        b,
        InstructionView::Mov(r11, dst),
        InstructionView::Imul(r11, src),
        InstructionView::Mov(dst, r11),
    );
    let b1 = lemma_load_scratch(a, b, Reg::R11, dst);
    lemma_alike_value(a, b1, src);
    let b2 = b1.step(InstructionView::Imul(r11, src))->0;
    let product = wrap64(a.value(dst)->0 * a.value(src)->0);
    assert(b2.regs[Reg::R11] == product);
    assert(alike(a, b2));
    lemma_alike_store(a, b2, dst, product);
    b2.step(InstructionView::Mov(dst, r11))->0
}

/// A division by an immediate through `r10` does what the division does.
pub proof fn lemma_fix_idiv(a: Machine, b: Machine, src: OperandView) -> (end: Machine)
    requires
        alike(a, b),
        src is Imm,
        a.step(InstructionView::Idiv(src)) is Some,
    ensures
        b.run(fix_one(InstructionView::Idiv(src))) == Some(end),
        alike(a.step(InstructionView::Idiv(src))->0, end),
{
    let r10 = OperandView::Reg(Reg::R10);
    lemma_run_two(b, InstructionView::Mov(r10, src), InstructionView::Idiv(r10));
    let b1 = lemma_load_scratch(a, b, Reg::R10, src);
    b1.step(InstructionView::Idiv(r10))->0
}

/// A `Sete` on the low byte of its operand does what the `Sete` does.
pub proof fn lemma_fix_sete(a: Machine, b: Machine, dst: OperandView) -> (end: Machine)
    requires
        alike(a, b),
        is_settled(dst),
        a.step(InstructionView::Sete(dst)) is Some,
    ensures
        b.run(fix_one(InstructionView::Sete(dst))) == Some(end),
        alike(a.step(InstructionView::Sete(dst))->0, end),
{
    let fixed = fix_one(InstructionView::Sete(dst))[0];
    lemma_run_one(b, fixed);
    lemma_alike_store(
        a,
        b,
        dst,
        with_low_byte(a.load(a.byte(dst)->0), if a.zero { 1int } else { 0int }),
    );
    b.step(fixed)->0
}

/// The instructions that stand for an instruction after legalization do what
/// the instruction does.
pub proof fn lemma_fix_step(a: Machine, b: Machine, instruction: InstructionView) -> (end: Machine)
    requires
        alike(a, b),
        computes_settled(instruction),
        a.step(instruction) is Some,
    ensures
        b.run(fix_one(instruction)) == Some(end),
        alike(a.step(instruction)->0, end),
{
    let r10 = OperandView::Reg(Reg::R10);
    let operands = instruction.operands();
    if operands.len() >= 1 {
        assert(is_settled(operands[0]));
    }
    if operands.len() == 2 {
        assert(is_settled(operands[1]));
    }
    let two_slots = operands.len() == 2 && operands[0] is StackQWord && operands[1] is StackQWord;
    match instruction {
        InstructionView::Sete(dst) => lemma_fix_sete(a, b, dst),
        InstructionView::Idiv(src) if src is Imm => lemma_fix_idiv(a, b, src),
        InstructionView::Imul(dst, src) if dst is StackQWord => lemma_fix_imul(a, b, dst, src),
        _ => {
            if two_slots && !(instruction is Imul) {
                let dst = operands[0];
                let src = operands[1];
                let through = instruction.with_operands(dst, r10);
                lemma_run_two(b, InstructionView::Mov(r10, src), through);
                let b1 = lemma_load_scratch(a, b, Reg::R10, src);
                lemma_through_scratch(a, b1, instruction, dst, src);
                b1.step(through)->0
            } else {
                lemma_run_one(b, instruction);
                lemma_alike_step(a, b, instruction);
                b.step(instruction)->0
            }
        },
    }
}

/// Running legalized instructions does what running the instructions does.
pub proof fn lemma_fix_run(a: Machine, b: Machine, code: Seq<InstructionView>) -> (end: Machine)
    requires
        alike(a, b),
        forall|i: int| 0 <= i < code.len() ==> computes_settled(#[trigger] code[i]),
        a.run(code) is Some,
    ensures
        b.run(fix_all(code)) == Some(end),
        alike(a.run(code)->0, end),
    decreases code.len(),
{
    if code.len() == 0 {
        b
    } else {
        let front = code.drop_last();
        assert forall|i: int| 0 <= i < front.len() implies computes_settled(
            #[trigger] front[i],
        ) by {
            assert(front[i] == code[i]);
        }
        let middle = lemma_fix_run(a, b, front);
        let end = lemma_fix_step(a.run(front)->0, middle, code.last());
        lemma_run_concat(b, fix_all(front), fix_one(code.last()));
        end
    }
}

} // verus!
