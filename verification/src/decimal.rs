//! Decimal notation of natural numbers, written digit by digit.

use vstd::prelude::*;

verus! {

/// The character of one decimal digit.
pub open spec fn digit_char(d: int) -> char {
    if d == 0 {
        '0'
    } else if d == 1 {
        '1'
    } else if d == 2 {
        '2'
    } else if d == 3 {
        '3'
    } else if d == 4 {
        '4'
    } else if d == 5 {
        '5'
    } else if d == 6 {
        '6'
    } else if d == 7 {
        '7'
    } else if d == 8 {
        '8'
    } else {
        '9'
    }
}

/// A number in decimal notation without leading zeros; zero is "0".
pub open spec fn decimal(n: nat) -> Seq<char>
    decreases n,
{
    if n < 10 {
        seq![digit_char(n as int)]
    } else {
        decimal(n / 10).push(digit_char((n % 10) as int))
    }
}

/// The last `width` decimal digits of a number, with leading zeros where the
/// number is shorter.
pub open spec fn padded(n: nat, width: nat) -> Seq<char>
    decreases width,
{
    if width == 0 {
        Seq::empty()
    } else {
        padded(n / 10, (width - 1) as nat).push(digit_char((n % 10) as int))
    }
}

/// The fractional part `frac / 10^width` in its shortest notation: a point and
/// the digits up to the last one that is not zero, or nothing at all where the
/// fraction is zero.
pub open spec fn compact_fraction(frac: nat, width: nat) -> Seq<char>
    decreases width,
{
    if width == 0 || frac == 0 {
        Seq::empty()
    } else if frac % 10 == 0 {
        compact_fraction(frac / 10, (width - 1) as nat)
    } else {
        seq!['.'] + padded(frac, width)
    }
}

/// `value / unit` rounded to the nearest integer, a tie going to the even
/// neighbour.
pub open spec fn round_half_even(value: nat, unit: nat) -> nat {
    let quotient = value / unit;
    let rest = value % unit;
    if 2 * rest > unit || (2 * rest == unit && quotient % 2 == 1) {
        quotient + 1
    } else {
        quotient
    }
}

/// A number of hundredths as text with two decimals.
pub open spec fn two_decimals(hundredths: nat) -> Seq<char> {
    decimal(hundredths / 100) + seq!['.'] + padded(hundredths % 100, 2)
}

/// A number of tenths as text with one decimal.
pub open spec fn one_decimal(tenths: nat) -> Seq<char> {
    decimal(tenths / 10) + seq!['.'] + padded(tenths % 10, 1)
}

/// The text of one digit.
pub fn digit_str(d: u64) -> (text: &'static str)
    requires
        d < 10,
    ensures
        text@ == seq![digit_char(d as int)],
{
    proof {
        reveal_strlit("0");
        reveal_strlit("1");
        reveal_strlit("2");
        reveal_strlit("3");
        reveal_strlit("4");
        reveal_strlit("5");
        reveal_strlit("6");
        reveal_strlit("7");
        reveal_strlit("8");
        reveal_strlit("9");
    }
    let text: &'static str = if d == 0 {
        "0"
    } else if d == 1 {
        "1"
    } else if d == 2 {
        "2"
    } else if d == 3 {
        "3"
    } else if d == 4 {
        "4"
    } else if d == 5 {
        "5"
    } else if d == 6 {
        "6"
    } else if d == 7 {
        "7"
    } else if d == 8 {
        "8"
    } else {
        "9"
    };
    assert(text@ =~= seq![digit_char(d as int)]);
    text
}

/// Appends a number in decimal notation.
pub fn push_decimal(out: &mut String, n: u64)
    ensures
        final(out)@ == old(out)@ + decimal(n as nat),
    decreases n,
{
    if n >= 10 {
        push_decimal(out, n / 10);
    }
    out.append(digit_str(n % 10));
    assert(out@ =~= old(out)@ + decimal(n as nat));
}

/// Appends the last `width` digits of a number, zeros included.
pub fn push_padded(out: &mut String, n: u64, width: u32)
    ensures
        final(out)@ == old(out)@ + padded(n as nat, width as nat),
    decreases width,
{
    if width > 0 {
        push_padded(out, n / 10, width - 1);
        out.append(digit_str(n % 10));
    }
    assert(out@ =~= old(out)@ + padded(n as nat, width as nat));
}

/// Appends a fraction of `width` digits in its shortest notation.
pub fn push_compact_fraction(out: &mut String, frac: u64, width: u32)
    ensures
        final(out)@ == old(out)@ + compact_fraction(frac as nat, width as nat),
    decreases width,
{
    if width == 0 || frac == 0 {
        assert(out@ =~= old(out)@ + compact_fraction(frac as nat, width as nat));
    } else if frac % 10 == 0 {
        push_compact_fraction(out, frac / 10, width - 1);
    } else {
        proof {
            reveal_strlit(".");
        }
        out.append(".");
        push_padded(out, frac, width);
        assert(out@ =~= old(out)@ + compact_fraction(frac as nat, width as nat));
    }
}

/// Divides and rounds to the nearest integer, a tie going to the even
/// neighbour.
pub fn div_round_half_even(value: u64, unit: u64) -> (rounded: u64)
    requires
        unit > 0,
    ensures
        rounded == round_half_even(value as nat, unit as nat),
{
    let quotient: u64 = value / unit;
    let rest: u64 = value % unit;
    let short: u64 = unit - rest;
    if rest > short || (rest == short && quotient % 2 == 1) {
        assert(quotient < u64::MAX) by (nonlinear_arith)
            requires
                quotient == value / unit,
                rest == value % unit,
                rest >= unit - rest,
                unit > 0,
                value <= u64::MAX,
        ;
        quotient + 1
    } else {
        quotient
    }
}

/// Appends a number of hundredths as text with two decimals.
pub fn push_two_decimals(out: &mut String, hundredths: u64)
    ensures
        final(out)@ == old(out)@ + two_decimals(hundredths as nat),
{
    proof {
        reveal_strlit(".");
    }
    push_decimal(out, hundredths / 100);
    out.append(".");
    push_padded(out, hundredths % 100, 2);
    assert(out@ =~= old(out)@ + two_decimals(hundredths as nat));
}

/// Appends a number of tenths as text with one decimal.
pub fn push_one_decimal(out: &mut String, tenths: u64)
    ensures
        final(out)@ == old(out)@ + one_decimal(tenths as nat),
{
    proof {
        reveal_strlit(".");
    }
    push_decimal(out, tenths / 10);
    out.append(".");
    push_padded(out, tenths % 10, 1);
    assert(out@ =~= old(out)@ + one_decimal(tenths as nat));
}

} // verus!
