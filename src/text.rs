//! Decimal digits as text.
use vstd::prelude::*;

verus! {

/// The character of a decimal digit.
pub open spec fn digit_char(d: nat) -> char {
    if d == 0 {
        '0'
    } else if d == 1 {
        '1'
    } else if d == 2 {
        '2'
    } else if d == 3 {
        '3'
    } else if d == 4 {
        '4'
    } else if d == 5 {
        '5'
    } else if d == 6 {
        '6'
    } else if d == 7 {
        '7'
    } else if d == 8 {
        '8'
    } else {
        '9'
    }
}

/// The decimal digits of `n`, zero-padded on the left to at least `width` digits
/// (`n` itself always takes at least one digit).
pub open spec fn decimal_padded(n: nat, width: nat) -> Seq<char>
    decreases n + width,
{
    if n < 10 && width <= 1 {
        seq![digit_char(n)]
    } else {
        let rest: nat = if width == 0 { 0 } else { (width - 1) as nat };
        decimal_padded(n / 10, rest).push(digit_char(n % 10))
    }
}

/// The plain decimal representation of `n`.
pub open spec fn decimal(n: nat) -> Seq<char> {
    decimal_padded(n, 1)
}

fn digit_str(d: u64) -> (r: &'static str)
    requires
        d < 10,
    ensures
        r@ == seq![digit_char(d as nat)],
{
    proof {
        reveal_strlit("0");
        reveal_strlit("1");
        reveal_strlit("2");
        reveal_strlit("3");
        reveal_strlit("4");
        reveal_strlit("5");
        reveal_strlit("6");
        reveal_strlit("7");
        reveal_strlit("8");
        reveal_strlit("9");
    }
    let r = if d == 0 {
        "0"
    } else if d == 1 {
        "1"
    } else if d == 2 {
        "2"
    } else if d == 3 {
        "3"
    } else if d == 4 {
        "4"
    } else if d == 5 {
        "5"
    } else if d == 6 {
        "6"
    } else if d == 7 {
        "7"
    } else if d == 8 {
        "8"
    } else {
        "9"
    };
    assert(r@ =~= seq![digit_char(d as nat)]);
    r
}

/// Appends the digits of `n`, zero-padded to at least `width` digits.
pub fn push_decimal(out: &mut String, n: u64, width: u64)
    ensures
        final(out)@ == old(out)@ + decimal_padded(n as nat, width as nat),
    decreases n + width,
{
    if !(n < 10 && width <= 1) {
        let rest: u64 = if width == 0 { 0 } else { width - 1 };
        push_decimal(out, n / 10, rest);
    }
    out.append(digit_str(n % 10));
    proof {
        assert(out@ =~= old(out)@ + decimal_padded(n as nat, width as nat));
    }
}

} // verus!
