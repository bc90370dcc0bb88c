use vstd::prelude::*;
use vstd::string::*;

verus! {

/// The character that writes the decimal digit `d`.
pub open spec fn digit_char(d: nat) -> char {
    if d == 0 {
        '0'
    } else if d == 1 {
        '1'
    } else if d == 2 {
        '2'
    } else if d == 3 {
        '3'
    } else if d == 4 {
        '4'
    } else if d == 5 {
        '5'
    } else if d == 6 {
        '6'
    } else if d == 7 {
        '7'
    } else if d == 8 {
        '8'
    } else {
        '9'
    }
}

/// The decimal representation of `n`, most significant digit first, without leading zeros.
pub open spec fn decimal(n: nat) -> Seq<char>
    decreases n,
{
    if n < 10 {
        seq![digit_char(n)]
    } else {
        decimal(n / 10).push(digit_char(n % 10))
    }
}

/// The decimal representation of a signed integer: a minus sign before the magnitude.
pub open spec fn signed_decimal(n: int) -> Seq<char> {
    if n < 0 {
        seq!['-'] + decimal((-n) as nat)
    } else {
        decimal(n as nat)
    }
}

fn digit_str(d: u64) -> (r: &'static str)
    requires
        d < 10,
    ensures
        r@ == seq![digit_char(d as nat)],
{
    if d == 0 {
        proof { reveal_strlit("0"); }
        "0"
    } else if d == 1 {
        proof { reveal_strlit("1"); }
        "1"
    } else if d == 2 {
        proof { reveal_strlit("2"); }
        "2"
    } else if d == 3 {
        proof { reveal_strlit("3"); }
        "3"
    } else if d == 4 {
        proof { reveal_strlit("4"); }
        "4"
    } else if d == 5 {
        proof { reveal_strlit("5"); }
        "5"
    } else if d == 6 {
        proof { reveal_strlit("6"); }
        "6"
    } else if d == 7 {
        proof { reveal_strlit("7"); }
        "7"
    } else if d == 8 {
        proof { reveal_strlit("8"); }
        "8"
    } else {
        proof { reveal_strlit("9"); }
        "9"
    }
}

/// Writes `n` in decimal.
pub fn decimal_string(n: u64) -> (r: String)
    ensures
        r@ == decimal(n as nat),
    decreases n,
{
    if n < 10 {
        String::from_str(digit_str(n))
    } else {
        let mut s = decimal_string(n / 10);
        s.append(digit_str(n % 10));
        s
    }
}

/// Writes `n` in decimal, with a leading minus sign when it is negative.
pub fn signed_decimal_string(n: i64) -> (r: String)
    requires
        n > i64::MIN,
    ensures
        r@ == signed_decimal(n as int),
{
    if n < 0 {
        proof { reveal_strlit("-"); }
        let mut s = String::from_str("-");
        let mag = decimal_string((-n) as u64);
        s.append(mag.as_str());
        s
    } else {
        decimal_string(n as u64)
    }
}

/// `prefix`, then `n` in decimal, then `suffix`.
pub fn around(prefix: &str, n: u64, suffix: &str) -> (r: String)
    ensures
        r@ == prefix@ + decimal(n as nat) + suffix@,
{
    let mut s = String::from_str(prefix);
    let num = decimal_string(n);
    s.append(num.as_str());
    s.append(suffix);
    s
}

/// `prefix`, then `n` in decimal.
pub fn unsigned_after(prefix: &str, n: u64) -> (r: String)
    ensures
        r@ == prefix@ + decimal(n as nat),
{
    let mut s = String::from_str(prefix);
    let num = decimal_string(n);
    s.append(num.as_str());
    s
}

/// `prefix`, then the signed `n` in decimal.
pub fn signed_after(prefix: &str, n: i32) -> (r: String)
    ensures
        r@ == prefix@ + signed_decimal(n as int),
{
    let mut s = String::from_str(prefix);
    let num = signed_decimal_string(n as i64);
    s.append(num.as_str());
    s
}

} // verus!
