//! Small text helpers: decimal rendering, tuple member names, literal comparison.

use vstd::prelude::*;
use vstd::string::StringExecFns;

verus! {

pub open spec fn digit_char(d: int) -> char {
    seq!['0', '1', '2', '3', '4', '5', '6', '7', '8', '9'][d]
}

/// The decimal digits of `n`, most significant first.
pub open spec fn decimal(n: nat) -> Seq<char>
    decreases n,
{
    if n < 10 {
        seq![digit_char(n as int)]
    } else {
        decimal(n / 10).push(digit_char((n % 10) as int))
    }
}

/// The name of the `i`-th member of a tuple rewritten as an object: `val<i>`.
pub open spec fn val_key(i: nat) -> Seq<char> {
    seq!['v', 'a', 'l'] + decimal(i)
}

/// Whether `k` begins with `val`.
pub open spec fn starts_with_val(k: Seq<char>) -> bool {
    k.len() >= 3 && k[0] == 'v' && k[1] == 'a' && k[2] == 'l'
}

fn digit_text(d: usize) -> (r: &'static str)
    requires
        d < 10,
    ensures
        r@ == seq![digit_char(d as int)],
{
    proof {
        reveal_strlit("0");
        reveal_strlit("1");
        reveal_strlit("2");
        reveal_strlit("3");
        reveal_strlit("4");
        reveal_strlit("5");
        reveal_strlit("6");
        reveal_strlit("7");
        reveal_strlit("8");
        reveal_strlit("9");
    }
    let r = if d == 0 {
        "0"
    } else if d == 1 {
        "1"
    } else if d == 2 {
        "2"
    } else if d == 3 {
        "3"
    } else if d == 4 {
        "4"
    } else if d == 5 {
        "5"
    } else if d == 6 {
        "6"
    } else if d == 7 {
        "7"
    } else if d == 8 {
        "8"
    } else {
        "9"
    };
    assert(r@ =~= seq![digit_char(d as int)]);
    r
}

/// The decimal rendering of `n`.
pub fn decimal_text(n: usize) -> (r: String)
    ensures
        r@ == decimal(n as nat),
    decreases n,
{
    if n < 10 {
        String::from_str(digit_text(n))
    } else {
        let head = decimal_text(n / 10);
        head.concat(digit_text(n % 10))
    }
}

/// The decimal rendering of `n`, for any 128-bit unsigned value.
pub fn decimal_text_wide(n: u128) -> (r: String)
    ensures
        r@ == decimal(n as nat),
    decreases n,
{
    if n < 10 {
        String::from_str(digit_text(n as usize))
    } else {
        let head = decimal_text_wide(n / 10);
        head.concat(digit_text((n % 10) as usize))
    }
}

/// The tuple member name `val<i>`.
pub fn val_key_text(i: usize) -> (r: String)
    ensures
        r@ == val_key(i as nat),
{
    proof {
        reveal_strlit("val");
    }
    let prefix = String::from_str("val");
    let digits = decimal_text(i);
    let r = prefix.concat(digits.as_str());
    assert(r@ =~= val_key(i as nat));
    r
}

/// Whether `k` begins with `val`.
pub fn has_val_prefix(k: &String) -> (r: bool)
    ensures
        r == starts_with_val(k@),
{
    let s = k.as_str();
    if s.unicode_len() < 3 {
        return false;
    }
    s.get_char(0) == 'v' && s.get_char(1) == 'a' && s.get_char(2) == 'l'
}

/// Whether `s` reads exactly `lit`.
pub fn text_is(s: &String, lit: &str) -> (r: bool)
    ensures
        r == (s@ == lit@),
{
    *s == lit.to_owned()
}

} // verus!
