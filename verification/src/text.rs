//! Pieces of message text.
use vstd::prelude::*;
use vstd::string::{StrSliceExecFns, StringExecFns};

verus! {

/// The character of a decimal digit.
pub open spec fn digit(d: nat) -> char {
    "0123456789"@[d as int]
}

/// A number in decimal notation.
pub open spec fn decimal(n: nat) -> Seq<char>
    decreases n,
{
    if n < 10 {
        seq![digit(n)]
    } else {
        decimal(n / 10).push(digit(n % 10))
    }
}

/// Writes a number in decimal notation.
pub fn write_decimal(n: u64) -> (r: String)
    ensures
        r@ == decimal(n as nat),
    decreases n,
{
    proof {
        reveal_strlit("0123456789");
    }
    let d: usize = (n % 10) as usize;
    let last = "0123456789".substring_char(d, d + 1);
    assert(last@ =~= seq![digit(d as nat)]);
    if n < 10 {
        String::from_str(last)
    } else {
        let mut r = write_decimal(n / 10);
        r.append(last);
        assert(r@ =~= decimal(n as nat));
        r
    }
}

/// Two texts, one after the other.
pub fn join(head: &str, tail: &str) -> (r: String)
    ensures
        r@ == head@ + tail@,
{
    let mut r = String::from_str(head);
    r.append(tail);
    r
}

} // verus!
