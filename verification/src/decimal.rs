//! Decimal rendering of integers, as `{}` formats them.
use vstd::prelude::*;

verus! {

/// The ASCII digit for `d` (a value below ten).
pub open spec fn digit_char(d: nat) -> char {
    if d == 0 {
        '0'
    } else if d == 1 {
        '1'
    } else if d == 2 {
        '2'
    } else if d == 3 {
        '3'
    } else if d == 4 {
        '4'
    } else if d == 5 {
        '5'
    } else if d == 6 {
        '6'
    } else if d == 7 {
        '7'
    } else if d == 8 {
        '8'
    } else {
        '9'
    }
}

/// The decimal digits of `n`, most significant first, without leading zeros.
pub open spec fn decimal_seq(n: nat) -> Seq<char>
    decreases n,
{
    if n < 10 {
        seq![digit_char(n)]
    } else {
        decimal_seq(n / 10).push(digit_char(n % 10))
    }
}

/// The decimal rendering of a signed integer: a minus sign before the digits
/// of its magnitude when it is negative.
pub open spec fn int_decimal(i: int) -> Seq<char> {
    if i < 0 {
        seq!['-'] + decimal_seq((-i) as nat)
    } else {
        decimal_seq(i as nat)
    }
}

fn digit_string(d: u128) -> (s: String)
    requires
        d < 10,
    ensures
        s@ == seq![digit_char(d as nat)],
{
    if d == 0 {
        proof { reveal_strlit("0"); }
        String::from_str("0")
    } else if d == 1 {
        proof { reveal_strlit("1"); }
        String::from_str("1")
    } else if d == 2 {
        proof { reveal_strlit("2"); }
        String::from_str("2")
    } else if d == 3 {
        proof { reveal_strlit("3"); }
        String::from_str("3")
    } else if d == 4 {
        proof { reveal_strlit("4"); }
        String::from_str("4")
    } else if d == 5 {
        proof { reveal_strlit("5"); }
        String::from_str("5")
    } else if d == 6 {
        proof { reveal_strlit("6"); }
        String::from_str("6")
    } else if d == 7 {
        proof { reveal_strlit("7"); }
        String::from_str("7")
    } else if d == 8 {
        proof { reveal_strlit("8"); }
        String::from_str("8")
    } else {
        proof { reveal_strlit("9"); }
        String::from_str("9")
    }
}

/// Renders an unsigned integer in decimal.
pub fn decimal_u128(n: u128) -> (s: String)
    ensures
        s@ == decimal_seq(n as nat),
    decreases n,
{
    if n < 10 {
        digit_string(n)
    } else {
        let mut s = decimal_u128(n / 10);
        let d = digit_string(n % 10);
        s.append(d.as_str());
        s
    }
}

/// Renders a signed integer in decimal.
pub fn decimal_i128(v: i128) -> (s: String)
    ensures
        s@ == int_decimal(v as int),
{
    if v < 0 {
        let magnitude: u128 = (-(v + 1)) as u128 + 1;
        proof { reveal_strlit("-"); }
        let mut s = String::from_str("-");
        let digits = decimal_u128(magnitude);
        s.append(digits.as_str());
        s
    } else {
        decimal_u128(v as u128)
    }
}

} // verus!
