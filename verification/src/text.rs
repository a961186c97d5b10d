//! Text, and numbers as text.

use vstd::prelude::*;
use vstd::string::{StrSliceExecFns, StringExecFns};

verus! {

/// Whether two texts are the same.
pub fn text_is(s: &str, t: &str) -> (r: bool)
    ensures
        r == (s@ == t@),
{
    String::from_str(s) == String::from_str(t)
}

/// The decimal digits of a number.
pub open spec fn decimal(n: nat) -> Seq<char>
    decreases n,
{
    if n < 10 {
        seq![(n + 48) as char]
    } else {
        decimal(n / 10).push((n % 10 + 48) as char)
    }
}

fn digit_text(d: u64) -> (r: &'static str)
    requires
        d < 10,
    ensures
        r@ == seq![(d + 48) as char],
{
    proof {
        reveal_strlit("0");
        reveal_strlit("1");
        reveal_strlit("2");
        reveal_strlit("3");
        reveal_strlit("4");
        reveal_strlit("5");
        reveal_strlit("6");
        reveal_strlit("7");
        reveal_strlit("8");
        reveal_strlit("9");
    }
    match d {
        0 => "0",
        1 => "1",
        2 => "2",
        3 => "3",
        4 => "4",
        5 => "5",
        6 => "6",
        7 => "7",
        8 => "8",
        _ => "9",
    }
}

/// The text with the digits of a number behind it.
pub fn append_decimal(text: String, n: u64) -> (r: String)
    ensures
        r@ == text@ + decimal(n as nat),
    decreases n,
{
    if n < 10 {
        text.concat(digit_text(n))
    } else {
        let ghost before = text@;
        let r = append_decimal(text, n / 10).concat(digit_text(n % 10));
        proof {
            assert(r@ =~= before + decimal(n as nat));
        }
        r
    }
}

/// The digits of a number are those of no other.
pub proof fn decimal_is_injective(a: nat, b: nat)
    requires
        decimal(a) == decimal(b),
    ensures
        a == b,
    decreases a,
{
    let da = decimal(a);
    let db = decimal(b);
    decimal_is_not_empty(a / 10);
    decimal_is_not_empty(b / 10);
    assert(a < 10 ==> da.len() == 1);
    assert(b < 10 ==> db.len() == 1);
    assert(a >= 10 ==> da.len() == decimal(a / 10).len() + 1);
    assert(b >= 10 ==> db.len() == decimal(b / 10).len() + 1);
    assert(da.last() == (a % 10 + 48) as char);
    assert(db.last() == (b % 10 + 48) as char);
    assert(a % 10 == b % 10);
    if a >= 10 && b >= 10 {
        assert(da.drop_last() =~= decimal(a / 10));
        assert(db.drop_last() =~= decimal(b / 10));
        decimal_is_injective(a / 10, b / 10);
    }
}

proof fn decimal_is_not_empty(n: nat)
    ensures
        decimal(n).len() > 0,
    decreases n,
{
    if n >= 10 {
        decimal_is_not_empty(n / 10);
    }
}

} // verus!
