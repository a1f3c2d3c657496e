use vstd::prelude::*;
use vstd::string::*;

verus! {

/// The character of the decimal digit `d`.
pub open spec fn digit_char(d: nat) -> char {
    if d == 0 {
        '0'
    } else if d == 1 {
        '1'
    } else if d == 2 {
        '2'
    } else if d == 3 {
        '3'
    } else if d == 4 {
        '4'
    } else if d == 5 {
        '5'
    } else if d == 6 {
        '6'
    } else if d == 7 {
        '7'
    } else if d == 8 {
        '8'
    } else {
        '9'
    }
}

/// `n` written in decimal, without leading zeros.
pub open spec fn decimal(n: nat) -> Seq<char>
    decreases n,
{
    if n < 10 {
        seq![digit_char(n)]
    } else {
        decimal(n / 10) + seq![digit_char(n % 10)]
    }
}

/// The text of one decimal digit.
fn digit_text(d: u64) -> (r: &'static str)
    requires
        d < 10,
    ensures
        r@ == seq![digit_char(d as nat)],
{
    if d == 0 {
        proof { reveal_strlit("0"); }
        "0"
    } else if d == 1 {
        proof { reveal_strlit("1"); }
        "1"
    } else if d == 2 {
        proof { reveal_strlit("2"); }
        "2"
    } else if d == 3 {
        proof { reveal_strlit("3"); }
        "3"
    } else if d == 4 {
        proof { reveal_strlit("4"); }
        "4"
    } else if d == 5 {
        proof { reveal_strlit("5"); }
        "5"
    } else if d == 6 {
        proof { reveal_strlit("6"); }
        "6"
    } else if d == 7 {
        proof { reveal_strlit("7"); }
        "7"
    } else if d == 8 {
        proof { reveal_strlit("8"); }
        "8"
    } else {
        proof { reveal_strlit("9"); }
        "9"
    }
}

/// `n` written in decimal.
pub fn decimal_string(n: u64) -> (r: String)
    ensures
        r@ == decimal(n as nat),
    decreases n,
{
    if n < 10 {
        String::from_str(digit_text(n))
    } else {
        let mut s = decimal_string(n / 10);
        s.append(digit_text(n % 10));
        s
    }
}

/// `numerator / denominator` rounded to the nearest whole number, a tie going
/// to the even neighbour.
pub open spec fn round_half_even(numerator: nat, denominator: nat) -> nat
    recommends
        denominator > 0,
{
    let q = numerator / denominator;
    let rem = numerator % denominator;
    if 2 * rem > denominator || (2 * rem == denominator && q % 2 == 1) {
        q + 1
    } else {
        q
    }
}

/// `numerator / denominator` rounded to the nearest whole number, a tie going
/// to the even neighbour.
pub fn rounded_quotient(numerator: u64, denominator: u64) -> (r: u64)
    requires
        denominator > 0,
    ensures
        r == round_half_even(numerator as nat, denominator as nat),
{
    let q = numerator / denominator;
    let rem = numerator % denominator;
    let twice: u128 = 2 * (rem as u128);
    if twice > denominator as u128 || (twice == denominator as u128 && q % 2 == 1) {
        assert(q < u64::MAX) by (nonlinear_arith)
            requires
                q == numerator / denominator,
                denominator > 1,
        ;
        q + 1
    } else {
        q
    }
}

} // verus!
