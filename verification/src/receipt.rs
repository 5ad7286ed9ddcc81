//! Receipt tokens: the call-sequence marker rendered in decimal, a colon,
//! then the record's tag.

use vstd::prelude::*;
use vstd::string::StringExecFns;

verus! {

/// The decimal digit character for a value below ten.
pub open spec fn digit_char(d: int) -> char {
    if d == 0 {
        '0'
    } else if d == 1 {
        '1'
    } else if d == 2 {
        '2'
    } else if d == 3 {
        '3'
    } else if d == 4 {
        '4'
    } else if d == 5 {
        '5'
    } else if d == 6 {
        '6'
    } else if d == 7 {
        '7'
    } else if d == 8 {
        '8'
    } else {
        '9'
    }
}

/// The decimal rendering of a non-negative integer, most significant
/// digit first, without leading zeros (a lone zero for zero itself).
pub open spec fn dec_seq(n: int) -> Seq<char>
    decreases n,
{
    if n < 10 {
        seq![digit_char(n)]
    } else {
        dec_seq(n / 10).push(digit_char(n % 10))
    }
}

/// A receipt token: the marker in decimal, a colon, the tag.
pub open spec fn receipt_seq(height: int, tag: Seq<char>) -> Seq<char> {
    dec_seq(height) + seq![':'] + tag
}

/// The string slice holding one decimal digit.
fn digit_str(d: u64) -> (r: &'static str)
    requires
        d < 10,
    ensures
        r@ == seq![digit_char(d as int)],
{
    proof {
        reveal_strlit("0");
        reveal_strlit("1");
        reveal_strlit("2");
        reveal_strlit("3");
        reveal_strlit("4");
        reveal_strlit("5");
        reveal_strlit("6");
        reveal_strlit("7");
        reveal_strlit("8");
        reveal_strlit("9");
    }
    match d {
        0 => "0",
        1 => "1",
        2 => "2",
        3 => "3",
        4 => "4",
        5 => "5",
        6 => "6",
        7 => "7",
        8 => "8",
        _ => "9",
    }
}

/// Appends the decimal rendering of `n` to `out`.
fn push_dec(n: u64, out: &mut String)
    ensures
        final(out)@ == old(out)@ + dec_seq(n as int),
    decreases n,
{
    if n >= 10 {
        push_dec(n / 10, out);
    }
    let d = digit_str(n % 10);
    out.append(d);
    proof {
        if n >= 10 {
            assert(dec_seq(n as int) == dec_seq(n as int / 10).push(digit_char(n as int % 10)));
            assert(n as int / 10 == (n / 10) as int);
            assert(final(out)@ =~= old(out)@ + dec_seq(n as int));
        } else {
            assert(final(out)@ =~= old(out)@ + dec_seq(n as int));
        }
    }
}

/// Builds the receipt for one accepted record.
pub fn make_receipt(block_height: u64, tag: &String) -> (r: String)
    ensures
        r@ == receipt_seq(block_height as int, tag@),
{
    let mut r = String::new();
    push_dec(block_height, &mut r);
    r.append(":");
    r.append(tag.as_str());
    proof {
        reveal_strlit(":");
        assert(r@ =~= receipt_seq(block_height as int, tag@));
    }
    r
}

} // verus!
