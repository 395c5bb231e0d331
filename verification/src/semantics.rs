//! What expressions mean: the value of an expression in 64-bit arithmetic.

use vstd::arithmetic::power2::pow2;
use vstd::prelude::*;
use crate::ast::{BinOp, Expression, UnOp};
use crate::machine::{fits64, trunc_div, trunc_rem, wrap64};

verus! {

/// The value of a prefix operator applied to `a`: the negative of `a`, the
/// complement of its bits, or 1 for zero and 0 for everything else.
pub open spec fn apply_unary(op: UnOp, a: int) -> int {
    match op {
        UnOp::Negation => wrap64(-a),
        UnOp::BitwiseComplement => -a - 1,
        UnOp::LogicalNegation => if a == 0 {
            1
        } else {
            0
        },
    }
}

/// Whether an operator is one of `+ - * / %`.
pub open spec fn is_arithmetic(op: BinOp) -> bool {
    op == BinOp::Add || op == BinOp::Subtract || op == BinOp::Multiply || op == BinOp::Divide || op
        == BinOp::Remainder
}

/// The value of an arithmetic operator applied to `a` and `b`.
///
/// Sums, differences and products are taken in 64 bits. The quotient is rounded
/// towards zero, and the remainder has the sign of `a`. There is no value where
/// `b` is zero, or where the quotient is not a 64-bit integer: there the
/// processor traps on the division, for the quotient and for the remainder.
pub open spec fn apply_arithmetic(op: BinOp, a: int, b: int) -> Option<int>
    recommends
        is_arithmetic(op),
{
    match op {
        BinOp::Add => Some(wrap64(a + b)),
        BinOp::Subtract => Some(wrap64(a - b)),
        BinOp::Multiply => Some(wrap64(a * b)),
        BinOp::Divide => if b != 0 && fits64(trunc_div(a, b)) {
            Some(trunc_div(a, b))
        } else {
            None
        },
        BinOp::Remainder => if b != 0 && fits64(trunc_div(a, b)) {
            Some(trunc_rem(a, b))
        } else {
            None
        },
        _ => None,
    }
}

/// 1 for a truth, 0 for a falsehood.
pub open spec fn truth(b: bool) -> int {
    if b {
        1
    } else {
        0
    }
}

/// The value of an infix operator other than `&&` and `||` applied to `a` and
/// `b`.
///
/// The arithmetic operators are as [`apply_arithmetic`] has them. The operators
/// on bits work on the 64 bits of their operands. A shift has a value where its
/// count is at least 0 and less than 64; a shift to the right keeps the sign. A
/// comparison is 1 where it holds and 0 where not.
pub open spec fn apply_binary(op: BinOp, a: int, b: int) -> Option<int> {
    match op {
        BinOp::Add | BinOp::Subtract | BinOp::Multiply | BinOp::Divide | BinOp::Remainder =>
            apply_arithmetic(op, a, b),
        BinOp::BitwiseAnd => Some(((a as i64) & (b as i64)) as int),
        BinOp::BitwiseOr => Some(((a as i64) | (b as i64)) as int),
        BinOp::BitwiseXor => Some(((a as i64) ^ (b as i64)) as int),
        BinOp::LeftShift => if 0 <= b < 64 {
            Some(wrap64(a * pow2(b as nat)))
        } else {
            None
        },
        BinOp::RightShift => if 0 <= b < 64 {
            Some(a / (pow2(b as nat) as int))
        } else {
            None
        },
        BinOp::Equal => Some(truth(a == b)),
        BinOp::NotEqual => Some(truth(a != b)),
        BinOp::LessThan => Some(truth(a < b)),
        BinOp::LessThanEqual => Some(truth(a <= b)),
        BinOp::GreaterThan => Some(truth(a > b)),
        BinOp::GreaterThanEqual => Some(truth(a >= b)),
        BinOp::LogicalAnd | BinOp::LogicalOr => None,
    }
}

/// Whether an expression is built from literals, prefix operators and the
/// operators `+ - * / %` alone.
pub open spec fn is_plain(e: Expression) -> bool
    decreases e,
{
    match e {
        Expression::Constant(_) => true,
        Expression::UnaryOp((_, inner)) => is_plain(*inner),
        Expression::BinaryOp(op, left, right) => is_arithmetic(op) && is_plain(*left) && is_plain(
            *right,
        ),
    }
}

/// The value of an expression, or `None` where a division or a shift that is
/// evaluated has none.
///
/// The left operand of an operator is evaluated before the right one. The right
/// operand of `&&` is evaluated only where the left one is not zero, that of
/// `||` only where the left one is zero; the value of both operators is 1 or 0.
pub open spec fn eval(e: Expression) -> Option<int>
    decreases e,
{
    match e {
        Expression::Constant(c) => Some(c as int),
        Expression::UnaryOp((op, inner)) => match eval(*inner) {
            Some(a) => Some(apply_unary(op, a)),
            None => None,
        },
        Expression::BinaryOp(op, left, right) => match eval(*left) {
            Some(a) => if op == BinOp::LogicalAnd && a == 0 {
                Some(0)
            } else if op == BinOp::LogicalOr && a != 0 {
                Some(1)
            } else {
                match eval(*right) {
                    Some(b) => if op == BinOp::LogicalAnd || op == BinOp::LogicalOr {
                        Some(truth(b != 0))
                    } else {
                        apply_binary(op, a, b)
                    },
                    None => None,
                }
            },
            None => None,
        },
    }
}

/// The value of an expression in the integers, without a bound on their size:
/// `None` where the expression divides by zero.
pub open spec fn eval_exact(e: Expression) -> Option<int>
    recommends
        is_plain(e),
    decreases e,
{
    match e {
        Expression::Constant(c) => Some(c as int),
        Expression::UnaryOp((op, inner)) => match eval_exact(*inner) {
            Some(a) => Some(
                match op {
                    UnOp::Negation => -a,
                    UnOp::BitwiseComplement => -a - 1,
                    UnOp::LogicalNegation => if a == 0 {
                        1
                    } else {
                        0
                    },
                },
            ),
            None => None,
        },
        Expression::BinaryOp(op, left, right) => match eval_exact(*left) {
            Some(a) => match eval_exact(*right) {
                Some(b) => match op {
                    BinOp::Add => Some(a + b),
                    BinOp::Subtract => Some(a - b),
                    BinOp::Multiply => Some(a * b),
                    BinOp::Divide => if b != 0 {
                        Some(trunc_div(a, b))
                    } else {
                        None
                    },
                    BinOp::Remainder => if b != 0 {
                        Some(trunc_rem(a, b))
                    } else {
                        None
                    },
                    _ => None,
                },
                None => None,
            },
            None => None,
        },
    }
}

/// Whether the exact value of every part of an expression exists and is a 64-bit
/// integer, and so is the quotient where the expression takes a remainder.
pub open spec fn stays_in_range(e: Expression) -> bool
    decreases e,
{
    &&& eval_exact(e) matches Some(v) && fits64(v)
    &&& match e {
        Expression::Constant(_) => true,
        Expression::UnaryOp((_, inner)) => stays_in_range(*inner),
        Expression::BinaryOp(op, left, right) => {
            &&& stays_in_range(*left)
            &&& stays_in_range(*right)
            &&& op == BinOp::Remainder ==> fits64(
                trunc_div(eval_exact(*left)->Some_0, eval_exact(*right)->Some_0),
            )
        },
    }
}

/// The value of a plain expression is a 64-bit integer.
pub proof fn lemma_eval_fits(e: Expression)
    requires
        is_plain(e),
    ensures
        eval(e) matches Some(v) ==> fits64(v),
    decreases e,
{
    match e {
        Expression::Constant(_) => {},
        Expression::UnaryOp((op, inner)) => {
            lemma_eval_fits(*inner);
        },
        Expression::BinaryOp(op, left, right) => {
            lemma_eval_fits(*left);
            lemma_eval_fits(*right);
            if let Some(a) = eval(*left) {
                if let Some(b) = eval(*right) {
                    if op == BinOp::Remainder && b != 0 {
                        lemma_trunc_rem_bound(a, b);
                    }
                }
            }
        },
    }
}

/// The remainder is smaller in magnitude than the divisor, and has the sign of
/// the dividend.
pub proof fn lemma_trunc_rem_bound(a: int, b: int)
    requires
        b != 0,
    ensures
        a >= 0 ==> 0 <= trunc_rem(a, b) <= a,
        a <= 0 ==> a <= trunc_rem(a, b) <= 0,
        b > 0 ==> -b < trunc_rem(a, b) < b,
        b < 0 ==> b < trunc_rem(a, b) < -b,
{
    if a >= 0 {
        if b > 0 {
            lemma_mod_bound(a, b);
        } else {
            lemma_mod_bound(a, -b);
        }
    } else {
        if b > 0 {
            lemma_mod_bound(-a, b);
        } else {
            lemma_mod_bound(-a, -b);
        }
    }
}

/// A remainder by a positive number is smaller than it and no larger than the
/// dividend.
proof fn lemma_mod_bound(a: int, b: int)
    requires
        a >= 0,
        b > 0,
    ensures
        0 <= a % b < b,
        a % b <= a,
{
    vstd::arithmetic::div_mod::lemma_mod_bound(a, b);
    vstd::arithmetic::div_mod::lemma_fundamental_div_mod(a, b);
    vstd::arithmetic::div_mod::lemma_div_pos_is_pos(a, b);
    assert(b * (a / b) >= 0) by (nonlinear_arith)
        requires
            b > 0,
            a / b >= 0,
    ;
}

/// Where the exact value of every part of an expression is a 64-bit integer, the
/// value of the expression in 64 bits is its exact value.
pub proof fn lemma_eval_exact(e: Expression)
    requires
        is_plain(e),
        stays_in_range(e),
    ensures
        eval(e) == eval_exact(e),
    decreases e,
{
    match e {
        Expression::Constant(_) => {},
        Expression::UnaryOp((_, inner)) => {
            lemma_eval_exact(*inner);
        },
        Expression::BinaryOp(_, left, right) => {
            lemma_eval_exact(*left);
            lemma_eval_exact(*right);
        },
    }
}

} // verus!
