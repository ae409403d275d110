//! Small shared utilities: fixed-point interpolation and readable
//! formatting of large counters.

use vstd::prelude::*;

pub mod color;
pub mod ray;
pub mod vector;

verus! {

use crate::FP_ONE;
use crate::num::tdiv;
use vstd::math::abs;

/// Linear interpolation on the fixed-point grid:
/// `(1 - t) * start + t * end`.
pub fn lerp(start: i64, end: i64, t: i64) -> (r: i64)
    requires
        0 <= t <= FP_ONE,
        abs(start as int) <= 0x40_0000_0000,
        abs(end as int) <= 0x40_0000_0000,
    ensures
        r == tdiv((FP_ONE - t) * start, FP_ONE as int) + tdiv(t * end, FP_ONE as int),
{
    crate::num::mul_fx(FP_ONE - t, start) + crate::num::mul_fx(t, end)
}

/// The decimal digit `d` as a character.
pub open spec fn dec_digit(d: int) -> char {
    if d == 0 {
        '0'
    } else if d == 1 {
        '1'
    } else if d == 2 {
        '2'
    } else if d == 3 {
        '3'
    } else if d == 4 {
        '4'
    } else if d == 5 {
        '5'
    } else if d == 6 {
        '6'
    } else if d == 7 {
        '7'
    } else if d == 8 {
        '8'
    } else {
        '9'
    }
}

/// Three decimal digits with leading zeros, for a group after a comma.
pub open spec fn group3(n: int) -> Seq<char> {
    seq![dec_digit(n / 100), dec_digit((n / 10) % 10), dec_digit(n % 10)]
}

/// The decimal digits of `n` with a comma before each group of three.
pub open spec fn pretty_spec(n: int) -> Seq<char>
    decreases n,
{
    if n < 10 {
        seq![dec_digit(n)]
    } else if n < 100 {
        seq![dec_digit(n / 10), dec_digit(n % 10)]
    } else if n < 1000 {
        group3(n)
    } else {
        pretty_spec(n / 1000) + seq![','] + group3(n % 1000)
    }
}

/// One decimal digit as a string slice.
fn digit_str(d: u128) -> (s: &'static str)
    requires
        d < 10,
    ensures
        s@ == seq![dec_digit(d as int)],
{
    proof {
        reveal_strlit("0");
        reveal_strlit("1");
        reveal_strlit("2");
        reveal_strlit("3");
        reveal_strlit("4");
        reveal_strlit("5");
        reveal_strlit("6");
        reveal_strlit("7");
        reveal_strlit("8");
        reveal_strlit("9");
    }
    let s: &'static str = if d == 0 {
        "0"
    } else if d == 1 {
        "1"
    } else if d == 2 {
        "2"
    } else if d == 3 {
        "3"
    } else if d == 4 {
        "4"
    } else if d == 5 {
        "5"
    } else if d == 6 {
        "6"
    } else if d == 7 {
        "7"
    } else if d == 8 {
        "8"
    } else {
        "9"
    };
    proof {
        assert(s@ =~= seq![dec_digit(d as int)]);
    }
    s
}

/// A counter with a comma between each group of three decimal digits.
pub fn pretty_print_int(i: u128) -> (s: String)
    ensures
        s@ == pretty_spec(i as int),
    decreases i,
{
    if i < 10 {
        let s = String::from_str(digit_str(i));
        proof {
            assert(s@ =~= pretty_spec(i as int));
        }
        s
    } else if i < 100 {
        let s = String::from_str(digit_str(i / 10)).concat(digit_str(i % 10));
        proof {
            assert(s@ =~= pretty_spec(i as int));
        }
        s
    } else if i < 1000 {
        let s = String::from_str(digit_str(i / 100)).concat(digit_str((i / 10) % 10)).concat(
            digit_str(i % 10),
        );
        proof {
            assert(s@ =~= pretty_spec(i as int));
        }
        s
    } else {
        proof {
            vstd::arithmetic::div_mod::lemma_div_decreases(i as int, 1000);
            reveal_strlit(",");
        }
        let upper = pretty_print_int(i / 1000);
        let low = i % 1000;
        let s = upper.concat(",").concat(digit_str(low / 100)).concat(
            digit_str((low / 10) % 10),
        ).concat(digit_str(low % 10));
        proof {
            assert(s@ =~= pretty_spec(i as int));
        }
        s
    }
}

} // verus!
