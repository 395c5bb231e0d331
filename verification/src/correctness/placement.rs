//! Frame allocation keeps what the instructions compute: where a name had a
//! value, its slot has it.

use vstd::prelude::*;
use crate::codegen::frame::{
    lemma_index_of, place, place_all, place_instruction, slot, slot_offset, FRAME_CAPACITY,
};
use crate::codegen::{InstructionView, OperandView, Reg};
use crate::machine::{Location, Machine};

verus! {

/// Whether the machine `placed` has in its registers what `named` has, and in
/// the slot of each name of the frame the value that `named` has for the name.
pub open spec fn agree(named: Machine, placed: Machine, names: Seq<Seq<char>>) -> bool {
    &&& placed.regs == named.regs
    &&& placed.zero == named.zero
    &&& forall|i: int|
        0 <= i < names.len() ==> placed.memory[placed.regs[Reg::Rbp] + slot_offset(i)]
            == named.names[#[trigger] names[i]]
}

/// Whether memory at the frame pointer and above it is in `after` as it is in
/// `before`, and the frame pointer too.
pub open spec fn kept_above(before: Machine, after: Machine) -> bool {
    &&& after.regs[Reg::Rbp] == before.regs[Reg::Rbp]
    &&& forall|address: int|
        address >= before.regs[Reg::Rbp] ==> #[trigger] after.memory[address]
            == before.memory[address]
}

/// Whether an operand is an immediate, a name of the frame, or a 64-bit register
/// other than the frame pointer.
pub open spec fn is_named(names: Seq<Seq<char>>, operand: OperandView) -> bool {
    match operand {
        OperandView::Imm(_) => true,
        OperandView::Reg(reg) => !reg.is_byte() && reg != Reg::Rbp,
        OperandView::Pseudo(name) => names.contains(name),
        _ => false,
    }
}

/// Whether an instruction is one that computes over immediates, names of the
/// frame and registers other than the frame pointer: it is no `Push`, `Pop` or
/// `Ret`, which use the stack.
pub open spec fn computes_over(names: Seq<Seq<char>>, instruction: InstructionView) -> bool {
    &&& forall|k: int|
        0 <= k < instruction.operands().len() ==> is_named(
            names,
            #[trigger] instruction.operands()[k],
        )
    &&& !(instruction is Push)
    &&& !(instruction is Pop)
    &&& !(instruction is Ret)
}

/// The slot of a name of the frame lies where its index says.
pub proof fn lemma_slot(names: Seq<Seq<char>>, i: int)
    requires
        names.no_duplicates(),
        names.len() <= FRAME_CAPACITY,
        0 <= i < names.len(),
    ensures
        place(names, OperandView::Pseudo(names[i])) == OperandView::StackQWord(
            slot_offset(i) as i32,
        ),
        slot_offset(i) as i32 == slot_offset(i),
        slot(names, names[i]) == slot_offset(i),
{
    lemma_index_of(names, i);
}

/// A placed operand has the value of the operand.
pub proof fn lemma_place_value(
    named: Machine,
    placed: Machine,
    names: Seq<Seq<char>>,
    operand: OperandView,
)
    requires
        agree(named, placed, names),
        names.no_duplicates(),
        names.len() <= FRAME_CAPACITY,
        is_named(names, operand),
    ensures
        placed.value(place(names, operand)) == named.value(operand),
{
    if let OperandView::Pseudo(name) = operand {
        let i = choose|i: int| 0 <= i < names.len() && names[i] == name;
        lemma_slot(names, i);
    }
}

/// The location of a placed operand stands for the location of the operand: it
/// holds the same value, and after the same value is stored in both, the two
/// machines agree as before.
pub proof fn lemma_place_store(
    named: Machine,
    placed: Machine,
    names: Seq<Seq<char>>,
    operand: OperandView,
    value: int,
    as_byte: bool,
)
    requires
        agree(named, placed, names),
        names.no_duplicates(),
        names.len() <= FRAME_CAPACITY,
        is_named(names, operand),
        !(operand is Imm),
    ensures
        ({
            let there = place(names, operand);
            let from = if as_byte {
                named.byte(operand)
            } else {
                named.word(operand)
            };
            let to = if as_byte {
                placed.byte(there)
            } else {
                placed.word(there)
            };
            &&& from is Some
            &&& to is Some
            &&& placed.load(to->0) == named.load(from->0)
            &&& agree(named.store(from->0, value), placed.store(to->0, value), names)
            &&& kept_above(placed, placed.store(to->0, value))
        }),
{
    let there = place(names, operand);
    match operand {
        OperandView::Pseudo(name) => {
            let i = choose|i: int| 0 <= i < names.len() && names[i] == name;
            lemma_slot(names, i);
            let after_named = named.store(Location::Name(name), value);
            let address = placed.regs[Reg::Rbp] + slot_offset(i);
            let after_placed = placed.store(Location::Memory(address), value);
            assert forall|j: int| 0 <= j < names.len() implies after_placed.memory[after_placed.regs[Reg::Rbp]
                + slot_offset(j)] == after_named.names[#[trigger] names[j]] by {
                if j != i {
                    assert(names[j] != names[i]);
                }
            }
        },
        _ => {},
    }
}

/// The step of a placed instruction stands for the step of the instruction.
pub proof fn lemma_place_step(
    named: Machine,
    placed: Machine,
    names: Seq<Seq<char>>,
    instruction: InstructionView,
) -> (end: Machine)
    requires
        agree(named, placed, names),
        names.no_duplicates(),
        names.len() <= FRAME_CAPACITY,
        computes_over(names, instruction),
        named.step(instruction) is Some,
    ensures
        placed.step(place_instruction(names, instruction)) == Some(end),
        agree(named.step(instruction)->0, end, names),
        kept_above(placed, end),
{
    let there = place_instruction(names, instruction);
    let operands = instruction.operands();
    if operands.len() >= 1 {
        assert(is_named(names, operands[0]));
        lemma_place_value(named, placed, names, operands[0]);
    }
    if operands.len() == 2 {
        assert(is_named(names, operands[1]));
        lemma_place_value(named, placed, names, operands[1]);
    }
    match instruction {
        InstructionView::Mov(dst, src) => {
            lemma_place_store(named, placed, names, dst, named.value(src)->0, false);
        },
        InstructionView::Add(dst, src) => {
            let location = named.word(dst)->0;
            lemma_place_store(
                named,
                placed,
                names,
                dst,
                crate::machine::wrap64(named.load(location) + named.value(src)->0),
                false,
            );
        },
        InstructionView::Sub(dst, src) => {
            let location = named.word(dst)->0;
            lemma_place_store(
                named,
                placed,
                names,
                dst,
                crate::machine::wrap64(named.load(location) - named.value(src)->0),
                false,
            );
        },
        InstructionView::Imul(dst, src) => {
            let location = named.word(dst)->0;
            lemma_place_store(
                named,
                placed,
                names,
                dst,
                crate::machine::wrap64(named.load(location) * named.value(src)->0),
                false,
            );
        },
        InstructionView::Neg(dst) => {
            let location = named.word(dst)->0;
            lemma_place_store(
                named,
                placed,
                names,
                dst,
                crate::machine::wrap64(-named.load(location)),
                false,
            );
        },
        InstructionView::Not(dst) => {
            let location = named.word(dst)->0;
            lemma_place_store(named, placed, names, dst, -named.load(location) - 1, false);
        },
        InstructionView::Sete(dst) => {
            let location = named.byte(dst)->0;
            lemma_place_store(
                named,
                placed,
                names,
                dst,
                crate::machine::with_low_byte(
                    named.load(location),
                    if named.zero {
                        1int
                    } else {
                        0int
                    },
                ),
                true,
            );
        },
        _ => {},
    }
    placed.step(there)->0
}

/// Running placed instructions stands for running the instructions: where the
/// run over names has an end, the run over slots has one, and the two agree.
/// The run over slots changes nothing at the frame pointer and above it.
pub proof fn lemma_place_run(
    named: Machine,
    placed: Machine,
    names: Seq<Seq<char>>,
    code: Seq<InstructionView>,
) -> (end: Machine)
    requires
        agree(named, placed, names),
        names.no_duplicates(),
        names.len() <= FRAME_CAPACITY,
        forall|i: int| 0 <= i < code.len() ==> computes_over(names, #[trigger] code[i]),
        named.run(code) is Some,
    ensures
        placed.run(place_all(names, code)) == Some(end),
        agree(named.run(code)->0, end, names),
        kept_above(placed, end),
    decreases code.len(),
{
    if code.len() == 0 {
        placed
    } else {
        let front = code.drop_last();
        assert forall|i: int| 0 <= i < front.len() implies computes_over(
            names,
            #[trigger] front[i],
        ) by {
            assert(front[i] == code[i]);
        }
        let middle = lemma_place_run(named, placed, names, front);
        assert(place_all(names, code).drop_last() =~= place_all(names, front));
        assert(place_all(names, code).last() == place_instruction(names, code.last()));
        lemma_place_step(named.run(front)->0, middle, names, code.last())
    }
}

} // verus!
