//! Numbers as decimal digits.

use crate::parser::{decimal_value, is_digit};
use vstd::prelude::*;
use vstd::string::*;

verus! {

/// The character of a decimal digit.
pub open spec fn digit_char(d: nat) -> char {
    if d == 0 {
        '0'
    } else if d == 1 {
        '1'
    } else if d == 2 {
        '2'
    } else if d == 3 {
        '3'
    } else if d == 4 {
        '4'
    } else if d == 5 {
        '5'
    } else if d == 6 {
        '6'
    } else if d == 7 {
        '7'
    } else if d == 8 {
        '8'
    } else {
        '9'
    }
}

/// The decimal digits of `n`, without leading zeros.
pub open spec fn decimal(n: nat) -> Seq<char>
    decreases n,
{
    if n < 10 {
        seq![digit_char(n)]
    } else {
        decimal(n / 10).push(digit_char(n % 10))
    }
}

/// The digits of a number spell that number.
pub proof fn lemma_decimal_value(n: nat)
    ensures
        decimal_value(decimal(n), 0, decimal(n).len()) == n,
        decimal(n).len() > 0,
        forall|i: int| 0 <= i < decimal(n).len() ==> is_digit(#[trigger] decimal(n)[i]),
    decreases n,
{
    let s = decimal(n);
    if n < 10 {
        assert(decimal_value(s, 0, 0) == 0);
        assert(decimal_value(s, 0, 1) == decimal_value(s, 0, 0) * 10 + (s[0] as nat - '0' as nat));
    } else {
        let front = decimal(n / 10);
        lemma_decimal_value(n / 10);
        lemma_decimal_value_prefix(front, s, front.len());
    }
}

/// The value of some digits does not depend on what follows them.
pub proof fn lemma_decimal_value_prefix(s1: Seq<char>, s2: Seq<char>, len: nat)
    requires
        len <= s1.len(),
        len <= s2.len(),
        forall|i: int| 0 <= i < len ==> s1[i] == s2[i],
    ensures
        decimal_value(s1, 0, len) == decimal_value(s2, 0, len),
    decreases len,
{
    if len > 0 {
        lemma_decimal_value_prefix(s1, s2, (len - 1) as nat);
    }
}

fn digit_str(d: usize) -> (s: &'static str)
    requires
        d < 10,
    ensures
        s@ == seq![digit_char(d as nat)],
{
    proof {
        reveal_strlit("0");
        reveal_strlit("1");
        reveal_strlit("2");
        reveal_strlit("3");
        reveal_strlit("4");
        reveal_strlit("5");
        reveal_strlit("6");
        reveal_strlit("7");
        reveal_strlit("8");
        reveal_strlit("9");
    }
    let s = if d == 0 {
        "0"
    } else if d == 1 {
        "1"
    } else if d == 2 {
        "2"
    } else if d == 3 {
        "3"
    } else if d == 4 {
        "4"
    } else if d == 5 {
        "5"
    } else if d == 6 {
        "6"
    } else if d == 7 {
        "7"
    } else if d == 8 {
        "8"
    } else {
        "9"
    };
    assert(s@ =~= seq![digit_char(d as nat)]);
    s
}

/// Appends the decimal digits of `n`.
pub fn push_decimal(out: &mut String, n: usize)
    ensures
        final(out)@ == old(out)@ + decimal(n as nat),
    decreases n,
{
    if n >= 10 {
        push_decimal(out, n / 10);
    }
    let ghost before = out@;
    out.append(digit_str(n % 10));
    assert(out@ =~= old(out)@ + decimal(n as nat));
}

} // verus!
