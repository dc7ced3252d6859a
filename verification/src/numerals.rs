//! Decimal numerals as they appear in the generated C text: ordinals in
//! symbol names and file paths, and byte counts in size constants and macros.

use vstd::prelude::*;
use vstd::string::*;

verus! {

/// The decimal digit `n` as a character, for `n` below ten.
pub open spec fn dec_digit_char(n: nat) -> char
    recommends
        n < 10,
{
    if n == 0 {
        '0'
    } else if n == 1 {
        '1'
    } else if n == 2 {
        '2'
    } else if n == 3 {
        '3'
    } else if n == 4 {
        '4'
    } else if n == 5 {
        '5'
    } else if n == 6 {
        '6'
    } else if n == 7 {
        '7'
    } else if n == 8 {
        '8'
    } else {
        '9'
    }
}

/// The decimal numeral of `n`, most significant digit first, with no sign,
/// no leading zero (except for `n == 0` itself) and no separators.
pub open spec fn dec_of(n: nat) -> Seq<char>
    decreases n,
{
    if n < 10 {
        seq![dec_digit_char(n)]
    } else {
        dec_of(n / 10) + seq![dec_digit_char(n % 10)]
    }
}

fn dec_digit_str(d: u64) -> (r: &'static str)
    requires
        d < 10,
    ensures
        r@ == seq![dec_digit_char(d as nat)],
{
    let r: &'static str = match d {
        0 => "0",
        1 => "1",
        2 => "2",
        3 => "3",
        4 => "4",
        5 => "5",
        6 => "6",
        7 => "7",
        8 => "8",
        _ => "9",
    };
    proof {
        reveal_strlit("0");
        reveal_strlit("1");
        reveal_strlit("2");
        reveal_strlit("3");
        reveal_strlit("4");
        reveal_strlit("5");
        reveal_strlit("6");
        reveal_strlit("7");
        reveal_strlit("8");
        reveal_strlit("9");
        assert(r@ =~= seq![dec_digit_char(d as nat)]);
    }
    r
}

/// The decimal numeral of `x` as a string.
pub fn u64_to_string(x: u64) -> (r: String)
    ensures
        r@ == dec_of(x as nat),
    decreases x,
{
    if x < 10 {
        dec_digit_str(x).to_owned()
    } else {
        let mut r = u64_to_string(x / 10);
        r.append(dec_digit_str(x % 10));
        proof {
            assert(r@ =~= dec_of(x as nat));
        }
        r
    }
}

} // verus!
