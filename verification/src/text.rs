//! Numbers as text: decimal numerals, fixed-point figures and rounded quotients,
//! appended to a string character by character.

use vstd::prelude::*;
use vstd::arithmetic::div_mod::{lemma_fundamental_div_mod, lemma_mod_pos_bound};

verus! {

/// `String::push` appends the given character to the end of the string.
pub assume_specification[ String::push ](s: &mut String, ch: char)
    ensures
        final(s)@ == old(s)@.push(ch),
;

/// `String::push_str` appends the given string slice to the end of the string.
pub assume_specification[ String::push_str ](s: &mut String, string: &str)
    ensures
        final(s)@ == old(s)@ + string@,
;

/// The character of a decimal digit; `'0'` for anything past nine.
pub open spec fn digit_char(d: nat) -> char {
    if d == 1 {
        '1'
    } else if d == 2 {
        '2'
    } else if d == 3 {
        '3'
    } else if d == 4 {
        '4'
    } else if d == 5 {
        '5'
    } else if d == 6 {
        '6'
    } else if d == 7 {
        '7'
    } else if d == 8 {
        '8'
    } else if d == 9 {
        '9'
    } else {
        '0'
    }
}

/// The decimal numeral of `n`, most significant digit first, without leading zeros.
pub open spec fn decimal_digits(n: nat) -> Seq<char>
    decreases n,
{
    if n < 10 {
        seq![digit_char(n)]
    } else {
        decimal_digits(n / 10).push(digit_char(n % 10))
    }
}

/// The quotient `num / den` rounded to the nearest integer, a tie going to the even neighbour.
pub open spec fn round_half_even(num: nat, den: nat) -> nat
    recommends
        den > 0,
{
    let q = num / den;
    let r = num % den;
    if 2 * r > den || (2 * r == den && q % 2 == 1) {
        q + 1
    } else {
        q
    }
}

/// A count of hundredths written with two decimals.
pub open spec fn two_decimals_text(hundredths: nat) -> Seq<char> {
    decimal_digits(hundredths / 100) + seq![
        '.',
        digit_char((hundredths / 10) % 10),
        digit_char(hundredths % 10),
    ]
}

/// The character of one decimal digit.
pub fn digit_to_char(d: u8) -> (c: char)
    requires
        d < 10,
    ensures
        c == digit_char(d as nat),
{
    if d == 1 {
        '1'
    } else if d == 2 {
        '2'
    } else if d == 3 {
        '3'
    } else if d == 4 {
        '4'
    } else if d == 5 {
        '5'
    } else if d == 6 {
        '6'
    } else if d == 7 {
        '7'
    } else if d == 8 {
        '8'
    } else if d == 9 {
        '9'
    } else {
        '0'
    }
}

/// Appends the decimal numeral of `n` to `out`.
pub fn push_decimal(out: &mut String, n: u128)
    ensures
        final(out)@ == old(out)@ + decimal_digits(n as nat),
    decreases n,
{
    if n >= 10 {
        push_decimal(out, n / 10);
    }
    out.push(digit_to_char((n % 10) as u8));
}

/// Appends a count of hundredths, written with two decimals, to `out`.
pub fn push_two_decimals(out: &mut String, hundredths: u128)
    ensures
        final(out)@ == old(out)@ + two_decimals_text(hundredths as nat),
{
    push_decimal(out, hundredths / 100);
    out.push('.');
    out.push(digit_to_char(((hundredths / 10) % 10) as u8));
    out.push(digit_to_char((hundredths % 10) as u8));
    proof {
        assert(out@ =~= old(out)@ + two_decimals_text(hundredths as nat));
    }
}

/// The quotient `num / den` rounded to the nearest integer, a tie going to the even neighbour.
pub fn divide_rounded(num: u128, den: u128) -> (quotient: u128)
    requires
        den > 0,
    ensures
        quotient as nat == round_half_even(num as nat, den as nat),
{
    let below: u128 = num / den;
    let left: u128 = num % den;
    proof {
        lemma_fundamental_div_mod(num as int, den as int);
        lemma_mod_pos_bound(num as int, den as int);
        if left > 0 {
            assert(below < u128::MAX) by (nonlinear_arith)
                requires
                    num as int == den as int * (below as int) + left as int,
                    0 < left < den,
                    num <= u128::MAX,
                    0 <= below,
            ;
        }
    }
    if left > den - left || (left == den - left && below % 2 == 1) {
        below + 1
    } else {
        below
    }
}

} // verus!
