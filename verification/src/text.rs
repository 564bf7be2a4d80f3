//! Decimal text for error messages.
use vstd::prelude::*;

verus! {

pub open spec fn digit_char(d: nat) -> char {
    if d == 0 { '0' } else if d == 1 { '1' } else if d == 2 { '2' } else if d == 3 { '3' }
    else if d == 4 { '4' } else if d == 5 { '5' } else if d == 6 { '6' } else if d == 7 { '7' }
    else if d == 8 { '8' } else { '9' }
}

/// Decimal digits of `n`, most significant first, without leading zeros.
pub open spec fn spec_decimal(n: nat) -> Seq<char>
    decreases n,
{
    if n < 10 {
        seq![digit_char(n)]
    } else {
        spec_decimal(n / 10) + seq![digit_char(n % 10)]
    }
}

fn digit_str(d: u128) -> (res: &'static str)
    requires
        d < 10,
    ensures
        res@ == seq![digit_char(d as nat)],
{
    proof {
        reveal_strlit("0");
        reveal_strlit("1");
        reveal_strlit("2");
        reveal_strlit("3");
        reveal_strlit("4");
        reveal_strlit("5");
        reveal_strlit("6");
        reveal_strlit("7");
        reveal_strlit("8");
        reveal_strlit("9");
    }
    let s = if d == 0 { "0" } else if d == 1 { "1" } else if d == 2 { "2" } else if d == 3 { "3" }
        else if d == 4 { "4" } else if d == 5 { "5" } else if d == 6 { "6" } else if d == 7 { "7" }
        else if d == 8 { "8" } else { "9" };
    assert(s@ =~= seq![digit_char(d as nat)]);
    s
}

/// `n` written in decimal.
pub fn decimal(n: u128) -> (res: String)
    ensures
        res@ == spec_decimal(n as nat),
    decreases n,
{
    if n < 10 {
        String::from_str(digit_str(n))
    } else {
        let high = decimal(n / 10);
        high.concat(digit_str(n % 10))
    }
}

/// Signed decimal: a minus sign before the digits of a negative value.
pub open spec fn spec_signed_decimal(n: int) -> Seq<char> {
    if n < 0 {
        seq!['-'] + spec_decimal((-n) as nat)
    } else {
        spec_decimal(n as nat)
    }
}

/// `n` written in decimal, with a leading `-` when negative.
pub fn signed_decimal(n: i64) -> (res: String)
    ensures
        res@ == spec_signed_decimal(n as int),
{
    if n < 0 {
        let magnitude: u128 = if n == i64::MIN { 9_223_372_036_854_775_808u128 } else { (-n) as u128 };
        proof {
            reveal_strlit("-");
        }
        String::from_str("-").concat(decimal(magnitude).as_str())
    } else {
        decimal(n as u128)
    }
}

pub open spec fn hex_digit_char(d: nat) -> char {
    if d < 10 { digit_char(d) } else if d == 10 { 'a' } else if d == 11 { 'b' } else if d == 12 { 'c' }
    else if d == 13 { 'd' } else if d == 14 { 'e' } else { 'f' }
}

/// The lowest `count` hexadecimal digits of `n`, most significant first,
/// zero-padded.
pub open spec fn spec_hex_digits(n: nat, count: nat) -> Seq<char>
    decreases count,
{
    if count == 0 {
        Seq::empty()
    } else {
        spec_hex_digits(n / 16, (count - 1) as nat) + seq![hex_digit_char(n % 16)]
    }
}

fn hex_digit_str(d: u32) -> (res: &'static str)
    requires
        d < 16,
    ensures
        res@ == seq![hex_digit_char(d as nat)],
{
    if d < 10 {
        return digit_str(d as u128);
    }
    proof {
        reveal_strlit("a");
        reveal_strlit("b");
        reveal_strlit("c");
        reveal_strlit("d");
        reveal_strlit("e");
        reveal_strlit("f");
    }
    let s = if d == 10 { "a" } else if d == 11 { "b" } else if d == 12 { "c" }
        else if d == 13 { "d" } else if d == 14 { "e" } else { "f" };
    assert(s@ =~= seq![hex_digit_char(d as nat)]);
    s
}

/// The lowest `count` hexadecimal digits of `n`, zero-padded.
pub fn hex_digits(n: u32, count: u32) -> (res: String)
    ensures
        res@ == spec_hex_digits(n as nat, count as nat),
    decreases count,
{
    if count == 0 {
        proof {
            reveal_strlit("");
        }
        let s = String::from_str("");
        assert(s@ =~= spec_hex_digits(n as nat, 0));
        s
    } else {
        let high = hex_digits(n / 16, count - 1);
        high.concat(hex_digit_str(n % 16))
    }
}

} // verus!
