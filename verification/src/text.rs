//! Numbers as text.
use vstd::prelude::*;
use vstd::string::StringExecFns;

verus! {

/// The character for a decimal digit.
pub open spec fn digit(d: nat) -> char {
    (48 + d) as char
}

/// A number in decimal notation.
pub open spec fn digits(n: nat) -> Seq<char>
    decreases n,
{
    if n < 10 {
        seq![digit(n)]
    } else {
        digits(n / 10).push(digit(n % 10))
    }
}

/// A decimal digit as text.
fn digit_text(d: u64) -> (s: &'static str)
    requires
        d < 10,
    ensures
        s@ == seq![digit(d as nat)],
{
    proof {
        reveal_strlit("0");
        reveal_strlit("1");
        reveal_strlit("2");
        reveal_strlit("3");
        reveal_strlit("4");
        reveal_strlit("5");
        reveal_strlit("6");
        reveal_strlit("7");
        reveal_strlit("8");
        reveal_strlit("9");
    }
    match d {
        0 => "0",
        1 => "1",
        2 => "2",
        3 => "3",
        4 => "4",
        5 => "5",
        6 => "6",
        7 => "7",
        8 => "8",
        _ => "9",
    }
}

/// A number in decimal notation.
pub fn decimal(n: u64) -> (s: String)
    ensures
        s@ == digits(n as nat),
    decreases n,
{
    if n < 10 {
        digit_text(n).to_owned()
    } else {
        let front = decimal(n / 10);
        front.concat(digit_text(n % 10))
    }
}

} // verus!
