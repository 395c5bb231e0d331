//! The generated code computes the value of the expression.
//!
//! The proof follows the stages of the backend. The instructions selected for a
//! lowered expression compute its value over names; frame allocation and
//! legalization keep what instructions compute; and the prologue and the
//! epilogue set the frame up and take it down around them.

pub mod bounds;
pub mod jumps;
pub mod legal;
pub mod lowering;
pub mod placement;

use vstd::prelude::*;
use crate::ast;
use crate::ast::Expression;
use crate::codegen::frame::{
    allocate_spec, covers, frame_names, lemma_frame_names, lemma_index_of, place_all,
    place_instruction, slot, slot_offset, FRAME_CAPACITY,
};
use crate::codegen::legalize::{fix_all, fix_one};
use crate::codegen::select::{lemma_select_all_concat, operand_of, select_all, select_one};
use crate::codegen::{
    aligned_size, epilogue, generate_spec, prologue, supported, InstructionView, OperandView, Reg,
    MAX_FRAME_BYTES,
};
use crate::correctness::bounds::{lemma_plain_supported, lemma_supported_plain};
use crate::correctness::legal::{computes_settled, is_settled, lemma_fix_run};
use crate::correctness::lowering::lemma_lowered_value;
use crate::correctness::placement::{agree, computes_over, is_named, kept_above, lemma_place_run};
use crate::ir;
use crate::ir_gen::{lower, lower_program};
use crate::machine::{
    lemma_run_concat, lemma_run_push, lemma_run_three, lemma_run_two, Machine,
};
use crate::semantics::{eval, eval_exact, is_plain, lemma_eval_exact, stays_in_range};

verus! {

/// Whether an instruction computes over immediates, `rax`, `rdx` and names, and
/// is no `Push`, `Pop` or `Ret`.
pub open spec fn is_computation(instruction: InstructionView) -> bool {
    &&& forall|k: int|
        0 <= k < instruction.operands().len() ==> {
            let operand = #[trigger] instruction.operands()[k];
            operand is Imm || operand is Pseudo || operand == OperandView::Reg(Reg::Rax) || operand
                == OperandView::Reg(Reg::Rdx)
        }
    &&& !(instruction is Push)
    &&& !(instruction is Pop)
    &&& !(instruction is Ret)
}

/// Whether every instruction of a sequence is a computation.
pub open spec fn all_computations(code: Seq<InstructionView>) -> bool {
    forall|i: int| 0 <= i < code.len() ==> is_computation(#[trigger] code[i])
}

/// Two sequences of computations make a sequence of computations.
pub proof fn lemma_computations_concat(a: Seq<InstructionView>, b: Seq<InstructionView>)
    requires
        all_computations(a),
        all_computations(b),
    ensures
        all_computations(a + b),
{
    assert forall|i: int| 0 <= i < (a + b).len() implies is_computation(#[trigger] (a + b)[i]) by {
        if i < a.len() {
            assert((a + b)[i] == a[i]);
        } else {
            assert((a + b)[i] == b[i - a.len()]);
        }
    }
}

/// The instructions selected for a unary or an arithmetic operation are
/// computations.
pub proof fn lemma_selected_computations(instruction: ir::InstructionView)
    requires
        instruction is Unary || (instruction matches ir::InstructionView::Binary(op, _, _, _)
            && (op == ir::BinaryOp::Add || op == ir::BinaryOp::Subtract || op
            == ir::BinaryOp::Multiply || op == ir::BinaryOp::Divide || op
            == ir::BinaryOp::Remainder)),
    ensures
        all_computations(select_one(instruction)),
{
    let selected = select_one(instruction);
    assert forall|i: int| 0 <= i < selected.len() implies is_computation(#[trigger] selected[i]) by {
        let inst = selected[i];
        assert forall|k: int| 0 <= k < inst.operands().len() implies {
            let operand = #[trigger] inst.operands()[k];
            operand is Imm || operand is Pseudo || operand == OperandView::Reg(Reg::Rax) || operand
                == OperandView::Reg(Reg::Rdx)
        } by {}
    }
}

/// The instructions selected for a lowered plain expression are computations.
pub proof fn lemma_lowered_computations(e: Expression, temps: nat, labels: nat)
    requires
        is_plain(e),
    ensures
        all_computations(select_all(lower(e, temps, labels).code)),
    decreases e,
{
    let lowered = lower(e, temps, labels);
    match e {
        Expression::Constant(_) => {},
        Expression::UnaryOp((op, inner)) => {
            let operand = lower(*inner, temps, labels);
            lemma_lowered_computations(*inner, temps, labels);
            assert(lowered.code.drop_last() =~= operand.code);
            lemma_selected_computations(lowered.code.last());
            lemma_computations_concat(select_all(operand.code), select_one(lowered.code.last()));
        },
        Expression::BinaryOp(op, left, right) => {
            let first = lower(*left, temps, labels);
            let second = lower(*right, first.temps, first.labels);
            lemma_lowered_computations(*left, temps, labels);
            lemma_lowered_computations(*right, first.temps, first.labels);
            assert(lowered.code.drop_last() =~= first.code + second.code);
            lemma_select_all_concat(first.code, second.code);
            lemma_computations_concat(select_all(first.code), select_all(second.code));
            lemma_selected_computations(lowered.code.last());
            lemma_computations_concat(
                select_all(first.code) + select_all(second.code),
                select_one(lowered.code.last()),
            );
        },
    }
}

/// A placed computation is a computation over immediates, `rax`, `rdx` and
/// slots.
pub proof fn lemma_place_settled(names: Seq<Seq<char>>, instruction: InstructionView)
    requires
        is_computation(instruction),
    ensures
        computes_settled(place_instruction(names, instruction)),
{
    let placed = place_instruction(names, instruction);
    assert forall|k: int| 0 <= k < placed.operands().len() implies is_settled(
        #[trigger] placed.operands()[k],
    ) by {
        let before = instruction.operands()[k];
        assert(before is Imm || before is Pseudo || before == OperandView::Reg(Reg::Rax) || before
            == OperandView::Reg(Reg::Rdx));
    }
}

/// The machine that has the registers and the memory of `placed`, and for each
/// name of the frame the value in its slot.
pub open spec fn named_like(placed: Machine, names: Seq<Seq<char>>) -> Machine {
    Machine {
        names: Map::new(
            |name: Seq<char>| names.contains(name),
            |name: Seq<char>| placed.memory[placed.regs[Reg::Rbp] + slot(names, name)],
        ),
        ..placed
    }
}

/// A machine agrees with the machine that is named like it.
pub proof fn lemma_named_like(placed: Machine, names: Seq<Seq<char>>)
    requires
        names.no_duplicates(),
    ensures
        agree(named_like(placed, names), placed, names),
{
    let named = named_like(placed, names);
    assert forall|i: int| 0 <= i < names.len() implies placed.memory[placed.regs[Reg::Rbp]
        + slot_offset(i)] == named.names[#[trigger] names[i]] by {
        lemma_index_of(names, i);
    }
}

/// The instructions of the body of a function that returns `e`, before the
/// instructions are placed: those that compute `e`, and the move of its value to
/// `rax`.
pub open spec fn body_of(e: Expression) -> Seq<InstructionView> {
    let lowered = lower(e, 0, 0);
    select_all(lowered.code).push(
        InstructionView::Mov(OperandView::Reg(Reg::Rax), operand_of(lowered.value)),
    )
}

/// The placed and legalized body of a function computes the value of its
/// expression into `rax`. It leaves the stack pointer and the frame pointer as
/// they were, and memory at the frame pointer and above it.
pub proof fn lemma_body(e: Expression, names: Seq<Seq<char>>, start: Machine) -> (end: Machine)
    requires
        is_plain(e),
        eval(e) is Some,
        names.no_duplicates(),
        names.len() <= FRAME_CAPACITY,
        forall|i: int| 0 <= i < body_of(e).len() ==> covers(names, #[trigger] body_of(e)[i]),
    ensures
        start.run(fix_all(place_all(names, body_of(e)))) == Some(end),
        end.regs[Reg::Rax] == eval(e)->0,
        end.regs[Reg::Rsp] == start.regs[Reg::Rsp],
        kept_above(start, end),
{
    let lowered = lower(e, 0, 0);
    let rax = OperandView::Reg(Reg::Rax);
    let to_rax = InstructionView::Mov(rax, operand_of(lowered.value));
    let body = body_of(e);
    let named = named_like(start, names);
    lemma_named_like(start, names);
    let computed_state = lemma_lowered_value(e, 0, 0, named);
    lemma_run_push(named, select_all(lowered.code), to_rax);
    let returned = computed_state.step(to_rax)->0;
    assert(named.run(body) == Some(returned));
    assert(returned.regs[Reg::Rax] == eval(e)->0);
    assert(returned.regs[Reg::Rsp] == start.regs[Reg::Rsp]);
    lemma_lowered_computations(e, 0, 0);
    assert(is_computation(to_rax)) by {
        assert forall|k: int| 0 <= k < to_rax.operands().len() implies {
            let operand = #[trigger] to_rax.operands()[k];
            operand is Imm || operand is Pseudo || operand == OperandView::Reg(Reg::Rax) || operand
                == OperandView::Reg(Reg::Rdx)
        } by {}
    }
    assert forall|i: int| 0 <= i < body.len() implies computes_over(names, #[trigger] body[i]) by {
        assert(is_computation(body[i])) by {
            if i < select_all(lowered.code).len() {
                assert(body[i] == select_all(lowered.code)[i]);
            }
        }
        assert(covers(names, body[i]));
        assert forall|k: int| 0 <= k < body[i].operands().len() implies is_named(
            names,
            #[trigger] body[i].operands()[k],
        ) by {}
    }
    let placed_end = lemma_place_run(named, start, names, body);
    let placed = place_all(names, body);
    assert forall|i: int| 0 <= i < placed.len() implies computes_settled(#[trigger] placed[i]) by {
        assert(is_computation(body[i])) by {
            if i < select_all(lowered.code).len() {
                assert(body[i] == select_all(lowered.code)[i]);
            }
        }
        lemma_place_settled(names, body[i]);
    }
    lemma_fix_run(start, start, placed)
}

/// The prologue saves the frame pointer below the stack pointer and sets the
/// frame pointer to where it is saved.
pub proof fn lemma_prologue(start: Machine, stack_size: int) -> (end: Machine)
    requires
        -MAX_FRAME_BYTES <= stack_size <= 0,
    ensures
        start.run(prologue(stack_size)) == Some(end),
        end.regs[Reg::Rbp] == start.regs[Reg::Rsp] - 8,
        stack_size == 0 ==> end.regs[Reg::Rsp] == start.regs[Reg::Rsp] - 8,
        end.regs[Reg::Rax] == start.regs[Reg::Rax],
        end.memory == start.memory.insert(start.regs[Reg::Rsp] - 8, start.regs[Reg::Rbp]),
{
    let rbp = OperandView::Reg(Reg::Rbp);
    let rsp = OperandView::Reg(Reg::Rsp);
    let push = InstructionView::Push(rbp);
    let set = InstructionView::Mov(rbp, rsp);
    if stack_size != 0 {
        let reserve = InstructionView::Sub(rsp, OperandView::Imm(aligned_size(stack_size) as i32));
        lemma_run_three(start, push, set, reserve);
        assert(prologue(stack_size) =~= seq![push, set, reserve]);
        let a = start.step(push)->0;
        let b = a.step(set)->0;
        b.step(reserve)->0
    } else {
        lemma_run_two(start, push, set);
        assert(prologue(stack_size) =~= seq![push, set]);
        let a = start.step(push)->0;
        a.step(set)->0
    }
}

/// The epilogue and the return take the frame down: the frame pointer is what
/// was saved, and the stack pointer is above the saved frame pointer and the
/// return address.
pub proof fn lemma_epilogue(start: Machine, stack_size: int) -> (end: Machine)
    requires
        stack_size == 0 ==> start.regs[Reg::Rsp] == start.regs[Reg::Rbp],
    ensures
        start.run(epilogue(stack_size).push(InstructionView::Ret)) == Some(end),
        end.regs[Reg::Rbp] == start.memory[start.regs[Reg::Rbp]],
        end.regs[Reg::Rsp] == start.regs[Reg::Rbp] + 16,
        end.regs[Reg::Rax] == start.regs[Reg::Rax],
        end.memory == start.memory,
{
    let rbp = OperandView::Reg(Reg::Rbp);
    let rsp = OperandView::Reg(Reg::Rsp);
    let restore = InstructionView::Mov(rsp, rbp);
    let pop = InstructionView::Pop(rbp);
    let ret = InstructionView::Ret;
    if stack_size != 0 {
        lemma_run_three(start, restore, pop, ret);
        assert(epilogue(stack_size).push(ret) =~= seq![restore, pop, ret]);
        let a = start.step(restore)->0;
        let b = a.step(pop)->0;
        b.step(ret)->0
    } else {
        lemma_run_two(start, pop, ret);
        assert(epilogue(stack_size).push(ret) =~= seq![pop, ret]);
        let a = start.step(pop)->0;
        a.step(ret)->0
    }
}

/// The generated code computes the value of the expression.
///
/// Take a program for which code can be generated, and whose expression has a
/// value. Then the generated instructions, run from any state of the machine, end
/// with the value of the expression in `rax`. The frame pointer is what it was at
/// the start, the stack pointer is above the return address, and the memory of
/// the caller, from the return address upwards, is what it was.
pub proof fn theorem_generated_code_computes_value(program: ast::ProgramView, start: Machine) -> (end:
    Machine)
    requires
        supported(lower_program(program)),
        eval(program.function.body.expression()) is Some,
    ensures
        start.run(generate_spec(lower_program(program)).function.instructions) == Some(end),
        end.regs[Reg::Rax] == eval(program.function.body.expression())->0,
        end.regs[Reg::Rsp] == start.regs[Reg::Rsp] + 8,
        end.regs[Reg::Rbp] == start.regs[Reg::Rbp],
        forall|address: int|
            address >= start.regs[Reg::Rsp] ==> #[trigger] end.memory[address]
                == start.memory[address],
{
    let e = program.function.body.expression();
    let lowered = lower(e, 0, 0);
    let ret = InstructionView::Ret;
    lemma_supported_plain(program);
    let source = lower_program(program).function.instructions;
    let body = body_of(e);
    let selected = select_all(source);
    // The selected instructions are the body and the return.
    assert(selected == body.push(ret)) by {
        let last = ir::InstructionView::Return(lowered.value);
        assert(source =~= lowered.code.push(last));
        assert(source.drop_last() =~= lowered.code);
        assert(select_one(last) =~= seq![
            InstructionView::Mov(OperandView::Reg(Reg::Rax), operand_of(lowered.value)),
            ret,
        ]);
        assert(select_all(lowered.code) + select_one(last) =~= body.push(ret));
    }
    let names = frame_names(Seq::empty(), selected);
    let stack_size = allocate_spec(selected).1;
    lemma_frame_names(Seq::empty(), selected);
    assert forall|i: int| 0 <= i < body.len() implies covers(names, #[trigger] body[i]) by {
        assert(body[i] == selected[i]);
    }
    // Placing and legalizing go through the body and the return one by one.
    let placed_body = place_all(names, body);
    let fixed_body = fix_all(placed_body);
    assert(fix_all(allocate_spec(selected).0) == fixed_body.push(ret)) by {
        assert(place_all(names, selected) =~= placed_body.push(ret));
        assert(placed_body.push(ret).drop_last() =~= placed_body);
        assert(fix_one(ret) =~= seq![ret]);
        assert(fixed_body + fix_one(ret) =~= fixed_body.push(ret));
    }
    let code = generate_spec(lower_program(program)).function.instructions;
    let before = prologue(stack_size) + fixed_body;
    let after = epilogue(stack_size).push(ret);
    assert(code == before + after) by {
        let all = prologue(stack_size) + fixed_body.push(ret);
        assert(all.drop_last() =~= before);
        assert(all.last() == ret);
        assert(code =~= before + after);
    }
    // The run, piece by piece.
    let framed = lemma_prologue(start, stack_size);
    let computed_state = lemma_body(e, names, framed);
    lemma_run_concat(start, prologue(stack_size), fixed_body);
    let end = lemma_epilogue(computed_state, stack_size);
    lemma_run_concat(start, before, after);
    end
}

/// The generated code computes the value of every expression built from
/// literals, prefix operators and the operators `+ - * / %`.
///
/// Take a program that returns such an expression, which has not so many
/// operators that the frame may be too large. Let no division in it be by zero,
/// and let the value of each of its parts in the integers, with quotients rounded
/// towards zero and remainders of the sign of the dividend, be a 64-bit integer,
/// and with each remainder the quotient too. Then code can be generated for the program, and the generated instructions,
/// run from any state of the machine, end with the value of the expression in
/// `rax`.
pub proof fn theorem_arithmetic_is_computed(program: ast::ProgramView, start: Machine) -> (end:
    Machine)
    requires
        is_plain(program.function.body.expression()),
        stays_in_range(program.function.body.expression()),
        8 * program.function.body.expression().operators() <= MAX_FRAME_BYTES,
    ensures
        supported(lower_program(program)),
        start.run(generate_spec(lower_program(program)).function.instructions) == Some(end),
        Some(end.regs[Reg::Rax]) == eval_exact(program.function.body.expression()),
        end.regs[Reg::Rsp] == start.regs[Reg::Rsp] + 8,
        end.regs[Reg::Rbp] == start.regs[Reg::Rbp],
{
    lemma_plain_supported(program);
    lemma_eval_exact(program.function.body.expression());
    theorem_generated_code_computes_value(program, start)
}

} // verus!
