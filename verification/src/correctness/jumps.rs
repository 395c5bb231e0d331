//! The lowered instructions compute the value of the expression: a run of them
//! ends behind them, with the value in their operand.

use vstd::prelude::*;
use crate::ast::{BinOp, Expression};
use crate::ir::{InstructionView, ValView};
use crate::ir_gen::{
    binary_op, label_index, label_name, lemma_label_index, lemma_lower_counts, lemma_temp_index,
    logical_tail, logical_test, lower, temp_index, temp_name, unary_op,
};
use crate::ir_semantics::{
    label_position, lemma_run_more, source_operator, source_prefix, Progress, State,
};
use crate::semantics::{apply_binary, apply_unary, eval, truth};

verus! {

/// Whether the instructions `part` stand in `code` from the index `base` on.
pub open spec fn embedded(code: Seq<InstructionView>, base: int, part: Seq<InstructionView>) -> bool {
    &&& 0 <= base
    &&& base + part.len() <= code.len()
    &&& forall|i: int| 0 <= i < part.len() ==> code[base + i] == #[trigger] part[i]
}

/// Where instructions stand in a code, their first and their last part stand
/// there too.
pub proof fn lemma_embedded_parts(
    code: Seq<InstructionView>,
    base: int,
    first: Seq<InstructionView>,
    second: Seq<InstructionView>,
)
    requires
        embedded(code, base, first + second),
    ensures
        embedded(code, base, first),
        embedded(code, base + first.len(), second),
{
    let whole = first + second;
    assert forall|i: int| 0 <= i < first.len() implies code[base + i] == #[trigger] first[i] by {
        assert(whole[i] == first[i]);
    }
    assert forall|i: int| 0 <= i < second.len() implies code[base + first.len() + i]
        == #[trigger] second[i] by {
        assert(whole[first.len() + i] == second[i]);
    }
}

/// Whether no two labels of the instructions have the same name.
pub open spec fn labels_distinct(code: Seq<InstructionView>) -> bool {
    forall|i: int, j: int|
        0 <= i < code.len() && 0 <= j < code.len() && i != j && #[trigger] code[i] is Label
            && #[trigger] code[j] is Label ==> code[i] != code[j]
}

/// Whether each label of the instructions has a number from `low` up to `high`,
/// which is left out.
pub open spec fn labels_numbered(code: Seq<InstructionView>, low: nat, high: nat) -> bool {
    forall|i: int|
        0 <= i < code.len() ==> (#[trigger] code[i] matches InstructionView::Label(name)
            ==> label_index(name) matches Some(k) && low <= k < high)
}

/// Where no two labels have the same name, a jump goes to the label of its name.
pub proof fn lemma_label_position(code: Seq<InstructionView>, label: Seq<char>, at: int)
    requires
        labels_distinct(code),
        0 <= at < code.len(),
        code[at] == InstructionView::Label(label),
    ensures
        label_position(code, label) == Some(at),
{
    let found = choose|i: int| 0 <= i < code.len() && code[i] == InstructionView::Label(label);
    if found != at {
        assert(code[found] is Label && code[at] is Label);
    }
}

/// Instructions whose labels are numbered in two ranges that do not meet have
/// distinct labels where each of the two has.
pub proof fn lemma_labels_concat(
    a: Seq<InstructionView>,
    b: Seq<InstructionView>,
    low: nat,
    middle: nat,
    high: nat,
)
    requires
        labels_distinct(a),
        labels_distinct(b),
        labels_numbered(a, low, middle),
        labels_numbered(b, middle, high),
        low <= middle <= high,
    ensures
        labels_distinct(a + b),
        labels_numbered(a + b, low, high),
{
    let whole = a + b;
    assert forall|i: int| 0 <= i < whole.len() implies (#[trigger] whole[i]
        matches InstructionView::Label(name) ==> label_index(name) matches Some(k) && low <= k
        < high) by {
        if i < a.len() {
            assert(whole[i] == a[i]);
        } else {
            assert(whole[i] == b[i - a.len()]);
        }
    }
    assert forall|i: int, j: int|
        0 <= i < whole.len() && 0 <= j < whole.len() && i != j && #[trigger] whole[i] is Label
            && #[trigger] whole[j] is Label implies whole[i] != whole[j] by {
        if i < a.len() {
            assert(whole[i] == a[i]);
        } else {
            assert(whole[i] == b[i - a.len()]);
        }
        if j < a.len() {
            assert(whole[j] == a[j]);
        } else {
            assert(whole[j] == b[j - a.len()]);
        }
    }
}

/// Instructions without labels have distinct labels, numbered in any range.
pub proof fn lemma_no_labels(code: Seq<InstructionView>, low: nat, high: nat)
    requires
        forall|i: int| 0 <= i < code.len() ==> !(#[trigger] code[i] is Label),
    ensures
        labels_distinct(code),
        labels_numbered(code, low, high),
{
}

/// Labels that are numbered in a range are numbered in a wider range.
pub proof fn lemma_labels_wider(
    code: Seq<InstructionView>,
    low: nat,
    high: nat,
    lower_still: nat,
    higher: nat,
)
    requires
        labels_numbered(code, low, high),
        lower_still <= low,
        high <= higher,
    ensures
        labels_numbered(code, lower_still, higher),
{
}

/// The labels of a lowered expression are distinct, and numbered with the
/// numbers that the expression takes.
pub proof fn lemma_lowered_labels(e: Expression, temps: nat, labels: nat)
    ensures
        labels_distinct(lower(e, temps, labels).code),
        labels_numbered(lower(e, temps, labels).code, labels, lower(e, temps, labels).labels),
    decreases e,
{
    let lowered = lower(e, temps, labels);
    lemma_lower_counts(e, temps, labels);
    match e {
        Expression::Constant(_) => {},
        Expression::UnaryOp((op, inner)) => {
            let operand = lower(*inner, temps, labels);
            lemma_lowered_labels(*inner, temps, labels);
            let last = seq![lowered.code.last()];
            lemma_no_labels(last, operand.labels, operand.labels);
            lemma_labels_concat(operand.code, last, labels, operand.labels, operand.labels);
            assert(lowered.code =~= operand.code + last);
        },
        Expression::BinaryOp(op, left, right) => {
            if binary_op(op) is Some {
                let first = lower(*left, temps, labels);
                let second = lower(*right, first.temps, first.labels);
                lemma_lower_counts(*left, temps, labels);
                lemma_lower_counts(*right, first.temps, first.labels);
                lemma_lowered_labels(*left, temps, labels);
                lemma_lowered_labels(*right, first.temps, first.labels);
                lemma_labels_concat(first.code, second.code, labels, first.labels, second.labels);
                let last = seq![lowered.code.last()];
                lemma_no_labels(last, second.labels, second.labels);
                lemma_labels_concat(
                    first.code + second.code,
                    last,
                    labels,
                    second.labels,
                    second.labels,
                );
                assert(lowered.code =~= first.code + second.code + last);
            } else {
                let is_and = op == BinOp::LogicalAnd;
                let first = lower(*left, temps + 1, labels + 2);
                let second = lower(*right, first.temps, first.labels);
                lemma_lower_counts(*left, temps + 1, labels + 2);
                lemma_lower_counts(*right, first.temps, first.labels);
                lemma_lowered_labels(*left, temps + 1, labels + 2);
                lemma_lowered_labels(*right, first.temps, first.labels);
                let dst = ValView::Var(temp_name(temps));
                let decided = label_name(if is_and { "and_false"@ } else { "or_true"@ }, labels);
                let end = label_name(if is_and { "and_end"@ } else { "or_end"@ }, labels + 1);
                let test = seq![logical_test(is_and, first.value, decided)];
                let tail = logical_tail(is_and, second.value, dst, decided, end);
                lemma_label_index(if is_and { "and_false"@ } else { "or_true"@ }, labels);
                lemma_label_index(if is_and { "and_end"@ } else { "or_end"@ }, labels + 1);
                // The tail has the two labels of the operator, with the first two numbers.
                assert(labels_numbered(tail, labels, labels + 2));
                assert(labels_distinct(tail)) by {
                    assert forall|i: int, j: int|
                        0 <= i < tail.len() && 0 <= j < tail.len() && i != j
                            && #[trigger] tail[i] is Label && #[trigger] tail[j] is Label implies tail[i]
                        != tail[j] by {
                        assert(i == 3 || i == 5);
                        assert(j == 3 || j == 5);
                    }
                }
                lemma_no_labels(test, first.labels, first.labels);
                lemma_labels_concat(first.code, test, labels + 2, first.labels, first.labels);
                lemma_labels_concat(
                    first.code + test,
                    second.code,
                    labels + 2,
                    first.labels,
                    second.labels,
                );
                let body = first.code + test + second.code;
                lemma_labels_concat(tail, body, labels, labels + 2, second.labels);
                // The tail stands behind the operands, not before them.
                let whole = body + tail;
                assert(lowered.code =~= whole);
                assert(labels_numbered(whole, labels, second.labels)) by {
                    assert forall|i: int| 0 <= i < whole.len() implies (#[trigger] whole[i]
                        matches InstructionView::Label(name) ==> label_index(name) matches Some(k)
                        && labels <= k < second.labels) by {
                        if i < body.len() {
                            assert(whole[i] == body[i]);
                            assert((tail + body)[tail.len() + i] == body[i]);
                        } else {
                            assert(whole[i] == tail[i - body.len()]);
                            assert((tail + body)[i - body.len()] == tail[i - body.len()]);
                        }
                    }
                }
                assert(labels_distinct(whole)) by {
                    assert forall|i: int, j: int|
                        0 <= i < whole.len() && 0 <= j < whole.len() && i != j
                            && #[trigger] whole[i] is Label && #[trigger] whole[j] is Label implies whole[i]
                        != whole[j] by {
                        let turned = tail + body;
                        let i2 = if i < body.len() {
                            tail.len() + i
                        } else {
                            i - body.len()
                        };
                        let j2 = if j < body.len() {
                            tail.len() + j
                        } else {
                            j - body.len()
                        };
                        assert(turned[i2] == whole[i]);
                        assert(turned[j2] == whole[j]);
                        assert(i2 != j2);
                    }
                }
            }
        },
    }
}

/// Whether every variable has in `after` the value that it has in `before`, but
/// for the temporaries with the numbers from `low` up to `high`, which is left
/// out.
pub open spec fn kept_vars(before: State, after: State, low: nat, high: nat) -> bool {
    forall|name: Seq<char>|
        (temp_index(name) matches Some(k) && low <= k < high) || #[trigger] after.vars[name]
            == before.vars[name]
}

/// One step is a run of one step.
pub proof fn lemma_one_step(code: Seq<InstructionView>, start: State, next: State)
    requires
        start.step(code) == Progress::Running(next),
    ensures
        start.run(code, 1) == Progress::Running(next),
{
    assert(next.run(code, 0) == Progress::Running(next));
}

/// A run to a state and a run from it make one run.
pub proof fn lemma_then(
    code: Seq<InstructionView>,
    start: State,
    first: nat,
    middle: State,
    more: nat,
    end: State,
)
    requires
        start.run(code, first) == Progress::Running(middle),
        middle.run(code, more) == Progress::Running(end),
    ensures
        start.run(code, first + more) == Progress::Running(end),
{
    lemma_run_more(code, start, first, more);
}

/// A run and one more step make one run.
pub proof fn lemma_then_step(
    code: Seq<InstructionView>,
    start: State,
    first: nat,
    middle: State,
    end: State,
)
    requires
        start.run(code, first) == Progress::Running(middle),
        middle.step(code) == Progress::Running(end),
    ensures
        start.run(code, first + 1) == Progress::Running(end),
{
    lemma_one_step(code, middle, end);
    lemma_then(code, start, first, middle, 1, end);
}

/// From the label that the tests of a logical operator jump to, the run gives
/// the destination the value that the test has decided, and ends behind the
/// instructions of the operator.
pub proof fn lemma_decided_runs(
    code: Seq<InstructionView>,
    at: int,
    is_and: bool,
    second: ValView,
    dst: Seq<char>,
    decided: Seq<char>,
    end: Seq<char>,
    start: State,
) -> (result: (nat, State))
    requires
        embedded(code, at, logical_tail(is_and, second, ValView::Var(dst), decided, end)),
        start.pc == at + 3,
    ensures
        start.run(code, result.0) == Progress::Running(result.1),
        result.1.pc == at + 6,
        result.1.vars == start.vars.insert(dst, truth(!is_and)),
{
    let tail = logical_tail(is_and, second, ValView::Var(dst), decided, end);
    assert(code[at + 3] == tail[3]);
    assert(code[at + 4] == tail[4]);
    assert(code[at + 5] == tail[5]);
    let a = State { pc: at + 4, ..start };
    let b = State { pc: at + 5, vars: start.vars.insert(dst, truth(!is_and)) };
    let c = State { pc: at + 6, ..b };
    lemma_one_step(code, start, a);
    lemma_then_step(code, start, 1, a, b);
    lemma_then_step(code, start, 2, b, c);
    (3, c)
}

/// The instructions behind the operands of a logical operator give the
/// destination 1 where the second operand is not zero and 0 where it is, and the
/// run ends behind them.
pub proof fn lemma_tail_runs(
    code: Seq<InstructionView>,
    at: int,
    is_and: bool,
    second: ValView,
    dst: Seq<char>,
    decided: Seq<char>,
    end: Seq<char>,
    start: State,
) -> (result: (nat, State))
    requires
        embedded(code, at, logical_tail(is_and, second, ValView::Var(dst), decided, end)),
        labels_distinct(code),
        start.pc == at,
    ensures
        start.run(code, result.0) == Progress::Running(result.1),
        result.1.pc == at + 6,
        result.1.vars == start.vars.insert(dst, truth(start.value(second) != 0)),
{
    let tail = logical_tail(is_and, second, ValView::Var(dst), decided, end);
    assert(code[at + 0] == tail[0]);
    assert(code[at + 1] == tail[1]);
    assert(code[at + 2] == tail[2]);
    assert(code[at + 3] == tail[3]);
    assert(code[at + 5] == tail[5]);
    lemma_label_position(code, decided, at + 3);
    lemma_label_position(code, end, at + 5);
    let jumps = if is_and {
        start.value(second) == 0
    } else {
        start.value(second) != 0
    };
    if jumps {
        let landed = State { pc: at + 3, ..start };
        lemma_one_step(code, start, landed);
        let (steps, last) = lemma_decided_runs(code, at, is_and, second, dst, decided, end, landed);
        lemma_then(code, start, 1, landed, steps, last);
        ((1 + steps) as nat, last)
    } else {
        let a = State { pc: at + 1, ..start };
        let b = State { pc: at + 2, vars: start.vars.insert(dst, truth(is_and)) };
        let c = State { pc: at + 5, ..b };
        let d = State { pc: at + 6, ..b };
        lemma_one_step(code, start, a);
        lemma_then_step(code, start, 1, a, b);
        lemma_then_step(code, start, 2, b, c);
        lemma_then_step(code, start, 3, c, d);
        (4, d)
    }
}

/// What holds after a run of the instructions of a lowered expression: the run
/// is behind them; the operand of the expression has its value; and the only
/// variables that have changed are the temporaries of the expression.
pub open spec fn evaluated(
    code: Seq<InstructionView>,
    base: int,
    e: Expression,
    temps: nat,
    labels: nat,
    start: State,
    steps: nat,
    end: State,
) -> bool {
    let lowered = lower(e, temps, labels);
    &&& start.run(code, steps) == Progress::Running(end)
    &&& end.pc == base + lowered.code.len()
    &&& Some(end.value(lowered.value)) == eval(e)
    &&& kept_vars(start, end, temps, lowered.temps)
    &&& lowered.value matches ValView::Var(name) ==> temp_index(name) matches Some(k) && temps <= k
        < lowered.temps
}

/// A run of the instructions of a lowered expression computes its value.
///
/// The instructions may stand anywhere in a code whose labels are distinct.
pub proof fn lemma_lowered_runs(
    code: Seq<InstructionView>,
    base: int,
    e: Expression,
    temps: nat,
    labels: nat,
    start: State,
) -> (result: (nat, State))
    requires
        embedded(code, base, lower(e, temps, labels).code),
        labels_distinct(code),
        eval(e) is Some,
        start.pc == base,
    ensures
        evaluated(code, base, e, temps, labels, start, result.0, result.1),
    decreases e, 1nat,
{
    match e {
        Expression::Constant(_) => (0, start),
        Expression::UnaryOp(_) => lemma_unary_runs(code, base, e, temps, labels, start),
        Expression::BinaryOp(op, _, _) => {
            if binary_op(op) is Some {
                lemma_binary_runs(code, base, e, temps, labels, start)
            } else {
                lemma_logical_runs(code, base, e, temps, labels, start)
            }
        },
    }
}

/// A run of the instructions of a lowered prefix operator computes its value.
proof fn lemma_unary_runs(
    code: Seq<InstructionView>,
    base: int,
    e: Expression,
    temps: nat,
    labels: nat,
    start: State,
) -> (result: (nat, State))
    requires
        e is UnaryOp,
        embedded(code, base, lower(e, temps, labels).code),
        labels_distinct(code),
        eval(e) is Some,
        start.pc == base,
    ensures
        evaluated(code, base, e, temps, labels, start, result.0, result.1),
    decreases e, 0nat,
{
    let lowered = lower(e, temps, labels);
    lemma_lower_counts(e, temps, labels);
    let (op, inner) = e->UnaryOp_0;
    let operand = lower(*inner, temps, labels);
    lemma_lower_counts(*inner, temps, labels);
    let dst = temp_name(operand.temps);
    lemma_temp_index(operand.temps);
    let last = InstructionView::Unary(unary_op(op), operand.value, ValView::Var(dst));
    assert(lowered.code =~= operand.code + seq![last]);
    lemma_embedded_parts(code, base, operand.code, seq![last]);
    let (steps, middle) = lemma_lowered_runs(code, base, *inner, temps, labels, start);
    assert(code[middle.pc + 0] == seq![last][0]);
    assert(source_prefix(unary_op(op)) == op);
    let end = State {
        pc: middle.pc + 1,
        vars: middle.vars.insert(dst, apply_unary(op, middle.value(operand.value))),
    };
    lemma_then_step(code, start, steps, middle, end);
    ((steps + 1) as nat, end)
}

/// A run of the instructions of a lowered infix operator other than `&&` and
/// `||` computes its value.
proof fn lemma_binary_runs(
    code: Seq<InstructionView>,
    base: int,
    e: Expression,
    temps: nat,
    labels: nat,
    start: State,
) -> (result: (nat, State))
    requires
        e matches Expression::BinaryOp(op, _, _) && binary_op(op) is Some,
        embedded(code, base, lower(e, temps, labels).code),
        labels_distinct(code),
        eval(e) is Some,
        start.pc == base,
    ensures
        evaluated(code, base, e, temps, labels, start, result.0, result.1),
    decreases e, 0nat,
{
    let lowered = lower(e, temps, labels);
    lemma_lower_counts(e, temps, labels);
    let op = e->BinaryOp_0;
    let left = e->BinaryOp_1;
    let right = e->BinaryOp_2;
    let first = lower(*left, temps, labels);
    let second = lower(*right, first.temps, first.labels);
    lemma_lower_counts(*left, temps, labels);
    lemma_lower_counts(*right, first.temps, first.labels);
    let dst = temp_name(second.temps);
    lemma_temp_index(second.temps);
    let last = InstructionView::Binary(
        binary_op(op)->0,
        first.value,
        second.value,
        ValView::Var(dst),
    );
    assert(lowered.code =~= (first.code + second.code) + seq![last]);
    lemma_embedded_parts(code, base, first.code + second.code, seq![last]);
    lemma_embedded_parts(code, base, first.code, second.code);
    let (steps1, s1) = lemma_lowered_runs(code, base, *left, temps, labels, start);
    let (steps2, s2) = lemma_lowered_runs(
        code,
        base + first.code.len(),
        *right,
        first.temps,
        first.labels,
        s1,
    );
    lemma_then(code, start, steps1, s1, steps2, s2);
    assert(code[s2.pc + 0] == seq![last][0]);
    assert(source_operator(binary_op(op)->0) == op);
    let a = eval(*left)->0;
    let b = eval(*right)->0;
    assert(s2.value(first.value) == a);
    let end = State { pc: s2.pc + 1, vars: s2.vars.insert(dst, apply_binary(op, a, b)->0) };
    lemma_then_step(code, start, steps1 + steps2, s2, end);
    ((steps1 + steps2 + 1) as nat, end)
}

/// A run of the instructions of a lowered `&&` or `||` computes its value.
proof fn lemma_logical_runs(
    code: Seq<InstructionView>,
    base: int,
    e: Expression,
    temps: nat,
    labels: nat,
    start: State,
) -> (result: (nat, State))
    requires
        e matches Expression::BinaryOp(op, _, _) && binary_op(op) is None,
        embedded(code, base, lower(e, temps, labels).code),
        labels_distinct(code),
        eval(e) is Some,
        start.pc == base,
    ensures
        evaluated(code, base, e, temps, labels, start, result.0, result.1),
    decreases e, 0nat,
{
    let lowered = lower(e, temps, labels);
    lemma_lower_counts(e, temps, labels);
    let op = e->BinaryOp_0;
    let left = e->BinaryOp_1;
    let right = e->BinaryOp_2;
    let is_and = op == BinOp::LogicalAnd;
    let first = lower(*left, temps + 1, labels + 2);
    let second = lower(*right, first.temps, first.labels);
    lemma_lower_counts(*left, temps + 1, labels + 2);
    lemma_lower_counts(*right, first.temps, first.labels);
    let dst = temp_name(temps);
    lemma_temp_index(temps);
    let decided = label_name(if is_and { "and_false"@ } else { "or_true"@ }, labels);
    let end = label_name(if is_and { "and_end"@ } else { "or_end"@ }, labels + 1);
    let test = logical_test(is_and, first.value, decided);
    let tail = logical_tail(is_and, second.value, ValView::Var(dst), decided, end);
    assert(lowered.code =~= ((first.code + seq![test]) + second.code) + tail);
    lemma_embedded_parts(code, base, (first.code + seq![test]) + second.code, tail);
    lemma_embedded_parts(code, base, first.code + seq![test], second.code);
    lemma_embedded_parts(code, base, first.code, seq![test]);
    let at_test = base + first.code.len();
    let at_second = at_test + 1;
    let at_tail = at_second + second.code.len();
    let (steps1, s1) = lemma_lowered_runs(code, base, *left, temps + 1, labels + 2, start);
    let a = eval(*left)->0;
    assert(code[at_test + 0] == seq![test][0]);
    assert(code[at_tail + 3] == tail[3]);
    lemma_label_position(code, decided, at_tail + 3);
    let jumps = if is_and {
        a == 0
    } else {
        a != 0
    };
    if jumps {
        let landed = State { pc: at_tail + 3, ..s1 };
        lemma_then_step(code, start, steps1, s1, landed);
        let (steps3, last) = lemma_decided_runs(
            code,
            at_tail,
            is_and,
            second.value,
            dst,
            decided,
            end,
            landed,
        );
        lemma_then(code, start, steps1 + 1, landed, steps3, last);
        ((steps1 + 1 + steps3) as nat, last)
    } else {
        let s2 = State { pc: at_second, ..s1 };
        lemma_then_step(code, start, steps1, s1, s2);
        let (steps2, s3) = lemma_lowered_runs(
            code,
            at_second,
            *right,
            first.temps,
            first.labels,
            s2,
        );
        lemma_then(code, start, steps1 + 1, s2, steps2, s3);
        let (steps3, last) = lemma_tail_runs(
            code,
            at_tail,
            is_and,
            second.value,
            dst,
            decided,
            end,
            s3,
        );
        lemma_then(code, start, steps1 + 1 + steps2, s3, steps3, last);
        ((steps1 + 1 + steps2 + steps3) as nat, last)
    }
}

/// A run of a lowered program returns the value of the expression.
///
/// Take a program whose expression has a value. Then the run of the lowered
/// instructions from the first of them, whatever the variables hold, ends with a
/// `Return` of that value, after the number of steps that is given back. So the
/// value of `&&` and of `||` is 1 or 0, and the right operand is not evaluated
/// where the left one decides.
pub proof fn theorem_lowered_program_returns_value(
    program: crate::ast::ProgramView,
    vars: Map<Seq<char>, int>,
) -> (steps: nat)
    requires
        eval(program.function.body.expression()) is Some,
    ensures
        (State { pc: 0, vars }).run(
            crate::ir_gen::lower_program(program).function.instructions,
            steps,
        ) == Progress::Returned(eval(program.function.body.expression())->0),
{
    let e = program.function.body.expression();
    let lowered = lower(e, 0, 0);
    let code = crate::ir_gen::lower_program(program).function.instructions;
    let start = State { pc: 0, vars };
    let last = InstructionView::Return(lowered.value);
    assert(code =~= lowered.code + seq![last]);
    lemma_lowered_labels(e, 0, 0);
    lemma_no_labels(seq![last], lowered.labels, lowered.labels);
    lemma_lower_counts(e, 0, 0);
    lemma_labels_concat(lowered.code, seq![last], 0, lowered.labels, lowered.labels);
    lemma_embedded_parts(code, 0, lowered.code, seq![last]);
    let (steps, end) = lemma_lowered_runs(code, 0, e, 0, 0, start);
    assert(code[end.pc + 0] == seq![last][0]);
    assert(end.step(code) == Progress::Returned(eval(e)->0));
    assert(end.run(code, 1) == Progress::Returned(eval(e)->0));
    lemma_run_more(code, start, steps, 1);
    (steps + 1) as nat
}

} // verus!
