//! The instructions selected for a lowered expression compute its value, over
//! operands that are still names.

use vstd::prelude::*;
use crate::ast::{BinOp, Expression, UnOp};
use crate::codegen::select::{lemma_select_all_concat, operand_of, select_all, select_one};
use crate::codegen::{InstructionView, OperandView, Reg};
use crate::ir;
use crate::ir::ValView;
use crate::ir_gen::{binary_op, lemma_temp_index, lower, temp_index, temp_name, unary_op};
use crate::machine::{
    fits64, lemma_run_concat, lemma_run_four, lemma_run_three, lemma_run_two, Machine,
};
use crate::semantics::{
    apply_arithmetic, apply_unary, eval, is_arithmetic, is_plain, lemma_eval_fits,
};

verus! {

/// Whether every name has in `after` the value that it has in `before`, but for
/// the temporaries with the numbers from `low` up to `high`, which is left out.
pub open spec fn kept_names(before: Machine, after: Machine, low: nat, high: nat) -> bool {
    forall|name: Seq<char>|
        (temp_index(name) matches Some(k) && low <= k < high) || #[trigger] after.names[name]
            == before.names[name]
}

/// Whether every register but `rax` and `rdx` has in `after` the value that it
/// has in `before`.
pub open spec fn kept_registers(before: Machine, after: Machine) -> bool {
    forall|reg: Reg|
        reg != Reg::Rax && reg != Reg::Rdx ==> #[trigger] after.regs[reg] == before.regs[reg]
}

/// The instructions selected for an arithmetic operation put its value in the
/// destination, and change no other name and nothing in memory.
pub proof fn lemma_select_arithmetic(
    m: Machine,
    op: BinOp,
    src1: ValView,
    src2: ValView,
    dst: Seq<char>,
    a: int,
    b: int,
) -> (end: Machine)
    requires
        is_arithmetic(op),
        m.value(operand_of(src1)) == Some(a),
        m.value(operand_of(src2)) == Some(b),
        operand_of(src1) != OperandView::Pseudo(dst),
        operand_of(src2) != OperandView::Pseudo(dst),
        fits64(a),
        fits64(b),
        apply_arithmetic(op, a, b) is Some,
    ensures
        m.run(
            select_one(ir::InstructionView::Binary(binary_op(op)->0, src1, src2, ValView::Var(dst))),
        ) == Some(end),
        end.names == m.names.insert(dst, apply_arithmetic(op, a, b)->0),
        end.memory == m.memory,
        kept_registers(m, end),
{
    let s1 = operand_of(src1);
    let s2 = operand_of(src2);
    let d = OperandView::Pseudo(dst);
    let rax = OperandView::Reg(Reg::Rax);
    let rdx = OperandView::Reg(Reg::Rdx);
    let code = select_one(
        ir::InstructionView::Binary(binary_op(op)->0, src1, src2, ValView::Var(dst)),
    );
    match op {
        BinOp::Add => {
            lemma_run_two(m, InstructionView::Mov(d, s1), InstructionView::Add(d, s2));
            let m1 = m.step(InstructionView::Mov(d, s1))->0;
            assert(m1.value(s2) == Some(b));
            let end = m1.step(InstructionView::Add(d, s2))->0;
            assert(end.names =~= m.names.insert(dst, apply_arithmetic(op, a, b)->0));
            end
        },
        BinOp::Subtract => {
            lemma_run_two(m, InstructionView::Mov(d, s1), InstructionView::Sub(d, s2));
            let m1 = m.step(InstructionView::Mov(d, s1))->0;
            assert(m1.value(s2) == Some(b));
            let end = m1.step(InstructionView::Sub(d, s2))->0;
            assert(end.names =~= m.names.insert(dst, apply_arithmetic(op, a, b)->0));
            end
        },
        BinOp::Multiply => {
            lemma_run_two(m, InstructionView::Mov(d, s1), InstructionView::Imul(d, s2));
            let m1 = m.step(InstructionView::Mov(d, s1))->0;
            assert(m1.value(s2) == Some(b));
            let end = m1.step(InstructionView::Imul(d, s2))->0;
            assert(end.names =~= m.names.insert(dst, apply_arithmetic(op, a, b)->0));
            end
        },
        _ => {
            let from = if op == BinOp::Divide {
                rax
            } else {
                rdx
            };
            lemma_run_four(
                m,
                InstructionView::Mov(rax, s1),
                InstructionView::Cqo,
                InstructionView::Idiv(s2),
                InstructionView::Mov(d, from),
            );
            let m1 = m.step(InstructionView::Mov(rax, s1))->0;
            assert(m1.regs[Reg::Rax] == a);
            let m2 = m1.step(InstructionView::Cqo)->0;
            assert(m2.regs[Reg::Rax] == a);
            assert(m2.regs[Reg::Rdx] == if a < 0 { -1int } else { 0int });
            assert(m2.value(s2) == Some(b));
            assert(m2.regs[Reg::Rdx] * 0x1_0000_0000_0000_0000 + crate::machine::unsigned64(a)
                == a);
            let m3 = m2.step(InstructionView::Idiv(s2))->0;
            assert(m3.names == m.names);
            let end = m3.step(InstructionView::Mov(d, from))->0;
            assert(end.names =~= m.names.insert(dst, apply_arithmetic(op, a, b)->0));
            end
        },
    }
}

/// The instructions selected for a unary operation put its value in the
/// destination, and change no other name, nothing in memory and no register.
pub proof fn lemma_select_unary(m: Machine, op: UnOp, src: ValView, dst: Seq<char>, a: int) -> (end:
    Machine)
    requires
        m.value(operand_of(src)) == Some(a),
        operand_of(src) != OperandView::Pseudo(dst),
        fits64(a),
    ensures
        m.run(select_one(ir::InstructionView::Unary(unary_op(op), src, ValView::Var(dst)))) == Some(
            end,
        ),
        end.names == m.names.insert(dst, apply_unary(op, a)),
        end.memory == m.memory,
        end.regs == m.regs,
{
    let s = operand_of(src);
    let d = OperandView::Pseudo(dst);
    match op {
        UnOp::Negation => {
            lemma_run_two(m, InstructionView::Mov(d, s), InstructionView::Neg(d));
            let m1 = m.step(InstructionView::Mov(d, s))->0;
            let end = m1.step(InstructionView::Neg(d))->0;
            assert(end.names =~= m.names.insert(dst, apply_unary(op, a)));
            end
        },
        UnOp::BitwiseComplement => {
            lemma_run_two(m, InstructionView::Mov(d, s), InstructionView::Not(d));
            let m1 = m.step(InstructionView::Mov(d, s))->0;
            let end = m1.step(InstructionView::Not(d))->0;
            assert(end.names =~= m.names.insert(dst, apply_unary(op, a)));
            end
        },
        UnOp::LogicalNegation => {
            match s {
                OperandView::Imm(value) => {
                    let only = InstructionView::Mov(
                        d,
                        OperandView::Imm(if value == 0 { 1i32 } else { 0i32 }),
                    );
                    crate::machine::lemma_run_one(m, only);
                    let end = m.step(only)->0;
                    end
                },
                _ => {
                    let zero = OperandView::Imm(0);
                    lemma_run_three(
                        m,
                        InstructionView::Cmp(s, zero),
                        InstructionView::Mov(d, zero),
                        InstructionView::Sete(d),
                    );
                    let m1 = m.step(InstructionView::Cmp(s, zero))->0;
                    assert(m1.zero == (a == 0));
                    let m2 = m1.step(InstructionView::Mov(d, zero))->0;
                    assert(m2.names[dst] == 0);
                    let end = m2.step(InstructionView::Sete(d))->0;
                    assert(end.names =~= m.names.insert(dst, apply_unary(op, a)));
                    end
                },
            }
        },
    }
}

/// What holds after the instructions selected for a lowered expression have run:
/// the operand of the expression has its value; the only names that have changed
/// are the temporaries of the expression; and memory and the registers other than
/// `rax` and `rdx` are as they were.
pub open spec fn computed(
    e: Expression,
    temps: nat,
    labels: nat,
    start: Machine,
    end: Machine,
) -> bool {
    let lowered = lower(e, temps, labels);
    &&& start.run(select_all(lowered.code)) == Some(end)
    &&& end.value(operand_of(lowered.value)) == eval(e)
    &&& kept_names(start, end, temps, lowered.temps)
    &&& kept_registers(start, end)
    &&& end.memory == start.memory
    &&& lowered.value matches ValView::Var(name) ==> temp_index(name) matches Some(k) && temps <= k
        < lowered.temps
}

/// The instructions selected for a lowered expression compute its value.
pub proof fn lemma_lowered_value(e: Expression, temps: nat, labels: nat, m: Machine) -> (end:
    Machine)
    requires
        is_plain(e),
        eval(e) is Some,
    ensures
        computed(e, temps, labels, m, end),
    decreases e,
{
    let lowered = lower(e, temps, labels);
    crate::ir_gen::lemma_lower_counts(e, temps, labels);
    match e {
        Expression::Constant(c) => m,
        Expression::UnaryOp((op, inner)) => {
            let operand = lower(*inner, temps, labels);
            crate::ir_gen::lemma_lower_counts(*inner, temps, labels);
            lemma_eval_fits(*inner);
            let m1 = lemma_lowered_value(*inner, temps, labels, m);
            let dst = temp_name(operand.temps);
            lemma_temp_index(operand.temps);
            let last = ir::InstructionView::Unary(unary_op(op), operand.value, ValView::Var(dst));
            let end = lemma_select_unary(m1, op, operand.value, dst, eval(*inner)->0);
            assert(select_all(lowered.code) == select_all(operand.code) + select_one(last)) by {
                assert(lowered.code.drop_last() =~= operand.code);
            }
            lemma_run_concat(m, select_all(operand.code), select_one(last));
            end
        },
        Expression::BinaryOp(op, left, right) => {
            let first = lower(*left, temps, labels);
            let second = lower(*right, first.temps, first.labels);
            crate::ir_gen::lemma_lower_counts(*left, temps, labels);
            crate::ir_gen::lemma_lower_counts(*right, first.temps, first.labels);
            lemma_eval_fits(*left);
            lemma_eval_fits(*right);
            let m1 = lemma_lowered_value(*left, temps, labels, m);
            let m2 = lemma_lowered_value(*right, first.temps, first.labels, m1);
            let dst = temp_name(second.temps);
            lemma_temp_index(second.temps);
            let a = eval(*left)->0;
            let b = eval(*right)->0;
            assert(m2.value(operand_of(first.value)) == Some(a));
            let last = ir::InstructionView::Binary(
                binary_op(op)->0,
                first.value,
                second.value,
                ValView::Var(dst),
            );
            let end = lemma_select_arithmetic(m2, op, first.value, second.value, dst, a, b);
            assert(select_all(lowered.code) == select_all(first.code) + select_all(second.code)
                + select_one(last)) by {
                assert(lowered.code.drop_last() =~= first.code + second.code);
                lemma_select_all_concat(first.code, second.code);
            }
            lemma_run_concat(m, select_all(first.code), select_all(second.code));
            lemma_run_concat(
                m,
                select_all(first.code) + select_all(second.code),
                select_one(last),
            );
            end
        },
    }
}

} // verus!
