//! Building text: numbers in decimal, and strings one character at a time.

use vstd::arithmetic::div_mod::lemma_div_denominator;
use vstd::prelude::*;

verus! {

/// `String::push`: the string with `c` appended.
#[verifier::external_body]
pub(crate) fn push_char(text: &mut String, c: char)
    ensures
        final(text)@ == old(text)@.push(c),
{
    text.push(c)
}

/// The character that writes a digit.
pub open spec fn digit_char(digit: nat) -> char {
    if digit == 0 {
        '0'
    } else if digit == 1 {
        '1'
    } else if digit == 2 {
        '2'
    } else if digit == 3 {
        '3'
    } else if digit == 4 {
        '4'
    } else if digit == 5 {
        '5'
    } else if digit == 6 {
        '6'
    } else if digit == 7 {
        '7'
    } else if digit == 8 {
        '8'
    } else {
        '9'
    }
}

/// A number in decimal, without leading zeros; zero is `0`.
pub open spec fn decimal_digits(n: nat) -> Seq<char>
    decreases n,
{
    if n < 10 {
        seq![digit_char(n)]
    } else {
        decimal_digits(n / 10).push(digit_char(n % 10))
    }
}

/// Whether `p` is a power of ten.
pub open spec fn is_power_of_ten(p: nat) -> bool
    decreases p,
{
    p == 1 || (p >= 10 && p % 10 == 0 && is_power_of_ten(p / 10))
}

fn digit_of(digit: u128) -> (c: char)
    requires
        digit < 10,
    ensures
        c == digit_char(digit as nat),
{
    if digit == 0 {
        '0'
    } else if digit == 1 {
        '1'
    } else if digit == 2 {
        '2'
    } else if digit == 3 {
        '3'
    } else if digit == 4 {
        '4'
    } else if digit == 5 {
        '5'
    } else if digit == 6 {
        '6'
    } else if digit == 7 {
        '7'
    } else if digit == 8 {
        '8'
    } else {
        '9'
    }
}

/// Appends a number in decimal to a string.
pub fn push_decimal(text: &mut String, n: u128)
    ensures
        final(text)@ == old(text)@ + decimal_digits(n as nat),
{
    let ghost before = text@;
    let mut power: u128 = 1;
    while n / power >= 10
        invariant
            1 <= power <= n || (power == 1 && n == 0),
            is_power_of_ten(power as nat),
        decreases n / power,
    {
        proof {
            let whole = n as int;
            let unit = power as int;
            lemma_div_denominator(whole, unit, 10);
            assert((whole / unit) / 10 == whole / (unit * 10));
            assert(unit * 10 <= whole) by (nonlinear_arith)
                requires
                    whole / unit >= 10,
                    unit >= 1,
                    whole >= 0,
            ;
            assert(whole / (unit * 10) < whole / unit);
        }
        power = power * 10;
    }
    push_char(text, digit_of(n / power));
    assert(text@ =~= before + decimal_digits((n / power) as nat));
    while power > 1
        invariant
            1 <= power <= n || power == 1,
            is_power_of_ten(power as nat),
            text@ == before + decimal_digits((n / power) as nat),
        decreases power,
    {
        let ghost higher = power;
        power = power / 10;
        let digit = (n / power) % 10;
        proof {
            let whole = n as int;
            let unit = power as int;
            assert(unit * 10 == higher);
            lemma_div_denominator(whole, unit, 10);
            assert((whole / unit) / 10 == whole / (higher as int));
            assert(whole / (higher as int) >= 1) by (nonlinear_arith)
                requires
                    1 < higher <= whole,
            ;
            assert(whole / unit >= 10);
        }
        push_char(text, digit_of(digit));
        assert(text@ =~= before + decimal_digits((n / power) as nat));
    }
    assert(n / 1 == n);
}

/// A number in decimal.
pub fn decimal(n: u128) -> (text: String)
    ensures
        text@ == decimal_digits(n as nat),
{
    let mut text = String::new();
    push_decimal(&mut text, n);
    assert(Seq::<char>::empty() + decimal_digits(n as nat) =~= decimal_digits(n as nat));
    text
}

} // verus!
