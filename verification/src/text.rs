//! Decimal rendering of integers, as the generated names and the assembly text
//! need it.

use vstd::prelude::*;
use vstd::string::*;

verus! {

/// The character for a single decimal digit.
pub open spec fn digit_char(d: int) -> char {
    if d == 0 {
        '0'
    } else if d == 1 {
        '1'
    } else if d == 2 {
        '2'
    } else if d == 3 {
        '3'
    } else if d == 4 {
        '4'
    } else if d == 5 {
        '5'
    } else if d == 6 {
        '6'
    } else if d == 7 {
        '7'
    } else if d == 8 {
        '8'
    } else {
        '9'
    }
}

/// The decimal digits of a natural number, most significant first, without
/// leading zeros.
pub open spec fn digits(n: nat) -> Seq<char>
    decreases n,
{
    if n < 10 {
        seq![digit_char(n as int)]
    } else {
        digits(n / 10).push(digit_char((n % 10) as int))
    }
}

/// The decimal text of an integer: a minus sign in front of a negative number.
pub open spec fn decimal(n: int) -> Seq<char> {
    if n < 0 {
        seq!['-'] + digits((-n) as nat)
    } else {
        digits(n as nat)
    }
}

/// Every number has at least one digit.
pub proof fn lemma_digits_nonempty(n: nat)
    ensures
        digits(n).len() >= 1,
    decreases n,
{
    if n >= 10 {
        lemma_digits_nonempty(n / 10);
    }
}

/// No digit of a number is a minus sign, a dot or a letter: each lies in `'0'..='9'`.
pub proof fn lemma_digits_are_digits(n: nat, i: int)
    requires
        0 <= i < digits(n).len(),
    ensures
        '0' <= digits(n)[i] <= '9',
    decreases n,
{
    if n >= 10 {
        if i < digits(n / 10).len() {
            lemma_digits_are_digits(n / 10, i);
        }
    }
}

/// Different numbers have different digits.
pub proof fn lemma_digits_injective(a: nat, b: nat)
    requires
        digits(a) == digits(b),
    ensures
        a == b,
    decreases a,
{
    lemma_digits_nonempty(a / 10);
    lemma_digits_nonempty(b / 10);
    if a < 10 {
        if b >= 10 {
            assert(digits(b).len() >= 2);
        } else {
            assert(digits(a)[0] == digit_char(a as int));
            assert(digits(b)[0] == digit_char(b as int));
        }
    } else {
        if b < 10 {
            assert(digits(a).len() >= 2);
        } else {
            let da = digits(a / 10);
            let db = digits(b / 10);
            assert(digits(a).drop_last() =~= da);
            assert(digits(b).drop_last() =~= db);
            assert(digits(a).last() == digit_char((a % 10) as int));
            assert(digits(b).last() == digit_char((b % 10) as int));
            assert(da == db);
            lemma_digits_injective(a / 10, b / 10);
            assert(digit_char((a % 10) as int) == digit_char((b % 10) as int));
            assert(a % 10 == b % 10);
        }
    }
}

/// Appends the text for one decimal digit.
fn push_digit(out: &mut String, d: u64)
    requires
        d < 10,
    ensures
        final(out)@ == old(out)@.push(digit_char(d as int)),
{
    proof {
        reveal_strlit("0");
        reveal_strlit("1");
        reveal_strlit("2");
        reveal_strlit("3");
        reveal_strlit("4");
        reveal_strlit("5");
        reveal_strlit("6");
        reveal_strlit("7");
        reveal_strlit("8");
        reveal_strlit("9");
    }
    let text = if d == 0 {
        "0"
    } else if d == 1 {
        "1"
    } else if d == 2 {
        "2"
    } else if d == 3 {
        "3"
    } else if d == 4 {
        "4"
    } else if d == 5 {
        "5"
    } else if d == 6 {
        "6"
    } else if d == 7 {
        "7"
    } else if d == 8 {
        "8"
    } else {
        "9"
    };
    assert(text@ =~= seq![digit_char(d as int)]);
    out.append(text);
    assert(out@ =~= old(out)@.push(digit_char(d as int)));
}

/// Appends the decimal digits of `n`.
pub fn push_digits(out: &mut String, n: u64)
    ensures
        final(out)@ == old(out)@ + digits(n as nat),
    decreases n,
{
    if n >= 10 {
        push_digits(out, n / 10);
    }
    push_digit(out, n % 10);
    assert(out@ =~= old(out)@ + digits(n as nat));
}

/// Appends the decimal text of `n`.
pub fn push_decimal(out: &mut String, n: i32)
    ensures
        final(out)@ == old(out)@ + decimal(n as int),
{
    if n < 0 {
        proof {
            reveal_strlit("-");
        }
        out.append("-");
        let magnitude: u64 = (-(n as i64)) as u64;
        push_digits(out, magnitude);
        assert(out@ =~= old(out)@ + decimal(n as int));
    } else {
        push_digits(out, n as u64);
    }
}

} // verus!
