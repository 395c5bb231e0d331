//! The frame of a plain expression has no more slots than the expression has
//! operators, so that code can be generated for it unless it is very large.

use vstd::prelude::*;
use vstd::set_lib::{lemma_int_range, lemma_len_subset, lemma_map_size_bound, set_int_range};
use crate::ast;
use crate::ast::Expression;
use crate::codegen::frame::{frame_names, lemma_frame_names, record};
use crate::codegen::select::{select_all, select_one};
use crate::codegen::{supported, supported_instruction, InstructionView, OperandView, MAX_FRAME_BYTES};
use crate::ir;
use crate::ir::ValView;
use crate::ir_gen::{
    lemma_lower_counts, lemma_temp_index, lower, lower_program, temp_index, temp_name,
};
use crate::semantics::is_plain;

verus! {

/// Whether a name is the name of a temporary with a number less than `count`.
pub open spec fn is_early_temp(name: Seq<char>, count: nat) -> bool {
    temp_index(name) matches Some(k) && k < count
}

/// Whether a value, if it is a variable, is a temporary with a number less than
/// `count`.
pub open spec fn uses_early_temps(value: ValView, count: nat) -> bool {
    value matches ValView::Var(name) ==> is_early_temp(name, count)
}

/// Whether an instruction is a return, a unary operation or an arithmetic
/// operation, with a variable for its destination, over constants and
/// temporaries with numbers less than `count`.
pub open spec fn is_plain_instruction(instruction: ir::InstructionView, count: nat) -> bool {
    match instruction {
        ir::InstructionView::Return(value) => uses_early_temps(value, count),
        ir::InstructionView::Unary(_, src, dst) => dst is Var && uses_early_temps(src, count)
            && uses_early_temps(dst, count),
        ir::InstructionView::Binary(op, src1, src2, dst) => {
            &&& op == ir::BinaryOp::Add || op == ir::BinaryOp::Subtract || op
                == ir::BinaryOp::Multiply || op == ir::BinaryOp::Divide || op
                == ir::BinaryOp::Remainder
            &&& dst is Var
            &&& uses_early_temps(src1, count)
            &&& uses_early_temps(src2, count)
            &&& uses_early_temps(dst, count)
        },
        _ => false,
    }
}

/// Whether every instruction of a sequence is plain.
pub open spec fn all_plain(code: Seq<ir::InstructionView>, count: nat) -> bool {
    forall|i: int| 0 <= i < code.len() ==> is_plain_instruction(#[trigger] code[i], count)
}

/// Plain instructions are plain for a larger count, and two sequences of them
/// make one.
pub proof fn lemma_plain_concat(
    a: Seq<ir::InstructionView>,
    b: Seq<ir::InstructionView>,
    fewer: nat,
    count: nat,
)
    requires
        all_plain(a, fewer),
        all_plain(b, count),
        fewer <= count,
    ensures
        all_plain(a + b, count),
{
    assert forall|i: int| 0 <= i < (a + b).len() implies is_plain_instruction(
        #[trigger] (a + b)[i],
        count,
    ) by {
        if i < a.len() {
            assert((a + b)[i] == a[i]);
            assert(is_plain_instruction(a[i], fewer));
        } else {
            assert((a + b)[i] == b[i - a.len()]);
        }
    }
}

/// The instructions of a lowered plain expression are plain, over the
/// temporaries that the expression takes.
pub proof fn lemma_lowered_plain(e: Expression, temps: nat, labels: nat)
    requires
        is_plain(e),
    ensures
        all_plain(lower(e, temps, labels).code, lower(e, temps, labels).temps),
        uses_early_temps(lower(e, temps, labels).value, lower(e, temps, labels).temps),
    decreases e,
{
    let lowered = lower(e, temps, labels);
    lemma_lower_counts(e, temps, labels);
    match e {
        Expression::Constant(_) => {},
        Expression::UnaryOp((op, inner)) => {
            let operand = lower(*inner, temps, labels);
            lemma_lower_counts(*inner, temps, labels);
            lemma_lowered_plain(*inner, temps, labels);
            lemma_temp_index(operand.temps);
            let last = seq![lowered.code.last()];
            assert(lowered.code =~= operand.code + last);
            lemma_plain_concat(operand.code, last, operand.temps, lowered.temps);
        },
        Expression::BinaryOp(op, left, right) => {
            let first = lower(*left, temps, labels);
            let second = lower(*right, first.temps, first.labels);
            lemma_lower_counts(*left, temps, labels);
            lemma_lower_counts(*right, first.temps, first.labels);
            lemma_lowered_plain(*left, temps, labels);
            lemma_lowered_plain(*right, first.temps, first.labels);
            lemma_temp_index(second.temps);
            let last = seq![lowered.code.last()];
            assert(lowered.code =~= first.code + second.code + last);
            lemma_plain_concat(first.code, second.code, first.temps, second.temps);
            lemma_plain_concat(first.code + second.code, last, second.temps, lowered.temps);
        },
    }
}

/// Whether every name among the operands of an instruction is the name of a
/// temporary with a number less than `count`.
pub open spec fn names_early_temps(instruction: InstructionView, count: nat) -> bool {
    forall|k: int|
        0 <= k < instruction.operands().len() ==> (#[trigger] instruction.operands()[k]
            matches OperandView::Pseudo(name) ==> is_early_temp(name, count))
}

/// The instructions selected for plain instructions name no other names than
/// the instructions do.
pub proof fn lemma_selected_names(code: Seq<ir::InstructionView>, count: nat)
    requires
        all_plain(code, count),
    ensures
        forall|i: int|
            0 <= i < select_all(code).len() ==> names_early_temps(
                #[trigger] select_all(code)[i],
                count,
            ),
    decreases code.len(),
{
    if code.len() > 0 {
        let front = code.drop_last();
        assert forall|i: int| 0 <= i < front.len() implies is_plain_instruction(
            #[trigger] front[i],
            count,
        ) by {
            assert(front[i] == code[i]);
        }
        lemma_selected_names(front, count);
        let a = select_all(front);
        let b = select_one(code.last());
        assert(is_plain_instruction(code.last(), count));
        assert forall|i: int| 0 <= i < b.len() implies names_early_temps(#[trigger] b[i], count) by {
            let inst = b[i];
            assert forall|k: int| 0 <= k < inst.operands().len() implies (
            #[trigger] inst.operands()[k] matches OperandView::Pseudo(name) ==> is_early_temp(
                name,
                count,
            )) by {}
        }
        assert forall|i: int| 0 <= i < (a + b).len() implies names_early_temps(
            #[trigger] (a + b)[i],
            count,
        ) by {
            if i < a.len() {
                assert((a + b)[i] == a[i]);
            } else {
                assert((a + b)[i] == b[i - a.len()]);
            }
        }
    }
}

/// Whether every name of a sequence is the name of a temporary with a number
/// less than `count`.
pub open spec fn all_early_temps(names: Seq<Seq<char>>, count: nat) -> bool {
    forall|i: int| 0 <= i < names.len() ==> is_early_temp(#[trigger] names[i], count)
}

/// The names of a frame are among the names of its instructions.
pub proof fn lemma_frame_of_temps(code: Seq<InstructionView>, count: nat)
    requires
        forall|i: int| 0 <= i < code.len() ==> names_early_temps(#[trigger] code[i], count),
    ensures
        all_early_temps(frame_names(Seq::empty(), code), count),
    decreases code.len(),
{
    if code.len() > 0 {
        let front = code.drop_last();
        assert forall|i: int| 0 <= i < front.len() implies names_early_temps(
            #[trigger] front[i],
            count,
        ) by {
            assert(front[i] == code[i]);
        }
        lemma_frame_of_temps(front, count);
        let before = frame_names(Seq::empty(), front);
        let operands = code.last().operands();
        assert(names_early_temps(code.last(), count));
        if operands.len() >= 1 {
            lemma_record_temps(before, operands[0], count);
        }
        if operands.len() == 2 {
            lemma_record_temps(record(before, operands[0]), operands[1], count);
        }
    }
}

/// Recording the name of a temporary among names of temporaries leaves names of
/// temporaries.
proof fn lemma_record_temps(names: Seq<Seq<char>>, operand: OperandView, count: nat)
    requires
        all_early_temps(names, count),
        operand matches OperandView::Pseudo(name) ==> is_early_temp(name, count),
    ensures
        all_early_temps(record(names, operand), count),
{
}

/// Distinct names of temporaries with numbers less than `count` are no more
/// than `count`.
pub proof fn lemma_count_temps(names: Seq<Seq<char>>, count: nat)
    requires
        names.no_duplicates(),
        all_early_temps(names, count),
    ensures
        names.len() <= count,
{
    let numbers = set_int_range(0, count as int);
    let name_of = |k: int| temp_name(k as nat);
    let temps = numbers.map(name_of);
    lemma_int_range(0, count as int);
    lemma_map_size_bound(numbers, temps, name_of);
    assert forall|name: Seq<char>| names.to_set().contains(name) implies temps.contains(name) by {
        let i = choose|i: int| 0 <= i < names.len() && names[i] == name;
        assert(is_early_temp(names[i], count));
        let k = temp_index(name)->0;
        assert(name == temp_name(k));
        assert(numbers.contains(k as int));
        assert(name_of(k as int) == name);
    }
    lemma_len_subset(names.to_set(), temps);
    names.unique_seq_to_set();
}

/// Code can be generated for a program that returns a plain expression, unless
/// the expression has so many operators that the frame may be too large.
pub proof fn lemma_plain_supported(program: ast::ProgramView)
    requires
        is_plain(program.function.body.expression()),
        8 * program.function.body.expression().operators() <= MAX_FRAME_BYTES,
    ensures
        supported(lower_program(program)),
{
    let e = program.function.body.expression();
    let lowered = lower(e, 0, 0);
    let code = lower_program(program).function.instructions;
    let last = seq![ir::InstructionView::Return(lowered.value)];
    lemma_lower_counts(e, 0, 0);
    lemma_lowered_plain(e, 0, 0);
    assert(code =~= lowered.code + last);
    lemma_plain_concat(lowered.code, last, lowered.temps, lowered.temps);
    assert forall|i: int| 0 <= i < code.len() implies supported_instruction(#[trigger] code[i]) by {
        assert(is_plain_instruction(code[i], lowered.temps));
    }
    lemma_selected_names(code, lowered.temps);
    lemma_frame_of_temps(select_all(code), lowered.temps);
    lemma_frame_names(Seq::empty(), select_all(code));
    lemma_count_temps(frame_names(Seq::empty(), select_all(code)), lowered.temps);
}

/// Code can be generated for the instructions of a lowered expression only
/// where the expression is plain.
pub proof fn lemma_supported_lowered(e: Expression, temps: nat, labels: nat)
    requires
        forall|i: int|
            0 <= i < lower(e, temps, labels).code.len() ==> supported_instruction(
                #[trigger] lower(e, temps, labels).code[i],
            ),
    ensures
        is_plain(e),
    decreases e,
{
    let lowered = lower(e, temps, labels);
    match e {
        Expression::Constant(_) => {},
        Expression::UnaryOp((_, inner)) => {
            let operand = lower(*inner, temps, labels);
            assert forall|i: int| 0 <= i < operand.code.len() implies supported_instruction(
                #[trigger] operand.code[i],
            ) by {
                assert(lowered.code[i] == operand.code[i]);
            }
            lemma_supported_lowered(*inner, temps, labels);
        },
        Expression::BinaryOp(op, left, right) => {
            if crate::ir_gen::binary_op(op) is Some {
                let first = lower(*left, temps, labels);
                let second = lower(*right, first.temps, first.labels);
                assert forall|i: int| 0 <= i < first.code.len() implies supported_instruction(
                    #[trigger] first.code[i],
                ) by {
                    assert(lowered.code[i] == first.code[i]);
                }
                assert forall|i: int| 0 <= i < second.code.len() implies supported_instruction(
                    #[trigger] second.code[i],
                ) by {
                    assert(lowered.code[first.code.len() + i] == second.code[i]);
                }
                lemma_supported_lowered(*left, temps, labels);
                lemma_supported_lowered(*right, first.temps, first.labels);
                assert(supported_instruction(lowered.code[lowered.code.len() - 1]));
            } else {
                // The first test of a logical operator is a jump.
                let first = lower(*left, temps + 1, labels + 2);
                assert(supported_instruction(lowered.code[first.code.len() as int]));
            }
        },
    }
}

/// Code can be generated for a lowered program only where its expression is
/// plain.
pub proof fn lemma_supported_plain(program: ast::ProgramView)
    requires
        supported(lower_program(program)),
    ensures
        is_plain(program.function.body.expression()),
{
    let e = program.function.body.expression();
    let lowered = lower(e, 0, 0);
    let code = lower_program(program).function.instructions;
    assert forall|i: int| 0 <= i < lowered.code.len() implies supported_instruction(
        #[trigger] lowered.code[i],
    ) by {
        assert(code[i] == lowered.code[i]);
    }
    lemma_supported_lowered(e, 0, 0);
}

} // verus!
