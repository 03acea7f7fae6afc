//! Decimal rendering of unsigned integers, used for output file names,
//! resolution labels and duration displays.

use vstd::prelude::*;

verus! {

/// The character for one decimal digit value.
pub open spec fn dec_digit(d: int) -> char {
    if d == 0 {
        '0'
    } else if d == 1 {
        '1'
    } else if d == 2 {
        '2'
    } else if d == 3 {
        '3'
    } else if d == 4 {
        '4'
    } else if d == 5 {
        '5'
    } else if d == 6 {
        '6'
    } else if d == 7 {
        '7'
    } else if d == 8 {
        '8'
    } else {
        '9'
    }
}

/// The usual decimal rendering of `n`, most significant digit first,
/// without leading zeros (a single `0` for zero).
pub open spec fn dec_rep(n: nat) -> Seq<char>
    decreases n,
{
    if n < 10 {
        seq![dec_digit(n as int)]
    } else {
        dec_rep(n / 10).push(dec_digit((n % 10) as int))
    }
}

/// `n` rendered with at least two digits: one leading zero is added
/// below ten, as a minute or second count is shown on a clock.
pub open spec fn dec_rep2(n: nat) -> Seq<char> {
    if n < 10 {
        seq!['0'] + dec_rep(n)
    } else {
        dec_rep(n)
    }
}

/// `n` rendered with at least three digits, zero-padded.
pub open spec fn dec_rep3(n: nat) -> Seq<char> {
    if n < 10 {
        seq!['0', '0'] + dec_rep(n)
    } else if n < 100 {
        seq!['0'] + dec_rep(n)
    } else {
        dec_rep(n)
    }
}

/// A one-character string for a digit value.
fn digit_str(d: u64) -> (r: &'static str)
    requires
        d < 10,
    ensures
        r@ == seq![dec_digit(d as int)],
{
    proof {
        reveal_strlit("0");
        reveal_strlit("1");
        reveal_strlit("2");
        reveal_strlit("3");
        reveal_strlit("4");
        reveal_strlit("5");
        reveal_strlit("6");
        reveal_strlit("7");
        reveal_strlit("8");
        reveal_strlit("9");
    }
    let r: &'static str = if d == 0 {
        "0"
    } else if d == 1 {
        "1"
    } else if d == 2 {
        "2"
    } else if d == 3 {
        "3"
    } else if d == 4 {
        "4"
    } else if d == 5 {
        "5"
    } else if d == 6 {
        "6"
    } else if d == 7 {
        "7"
    } else if d == 8 {
        "8"
    } else {
        "9"
    };
    proof {
        assert(r@ =~= seq![dec_digit(d as int)]);
    }
    r
}

/// Renders `n` in decimal, without leading zeros.
pub fn u64_string(n: u64) -> (r: String)
    ensures
        r@ == dec_rep(n as nat),
    decreases n,
{
    if n < 10 {
        let r = digit_str(n).to_owned();
        proof {
            assert(r@ =~= dec_rep(n as nat));
        }
        r
    } else {
        let prefix = u64_string(n / 10);
        let r = prefix.concat(digit_str(n % 10));
        proof {
            assert(r@ =~= dec_rep(n as nat));
        }
        r
    }
}

/// Renders `n` in decimal, zero-padded to at least two digits.
pub fn u64_string2(n: u64) -> (r: String)
    ensures
        r@ == dec_rep2(n as nat),
{
    if n < 10 {
        proof {
            reveal_strlit("0");
        }
        let r = "0".to_owned().concat(digit_str(n));
        proof {
            assert(r@ =~= dec_rep2(n as nat));
        }
        r
    } else {
        u64_string(n)
    }
}

/// Renders `n` in decimal, zero-padded to at least three digits.
pub fn u64_string3(n: u64) -> (r: String)
    ensures
        r@ == dec_rep3(n as nat),
{
    if n < 10 {
        proof {
            reveal_strlit("00");
        }
        let r = "00".to_owned().concat(digit_str(n));
        proof {
            assert(r@ =~= dec_rep3(n as nat));
        }
        r
    } else if n < 100 {
        proof {
            reveal_strlit("0");
        }
        let r = "0".to_owned().concat(u64_string(n).as_str());
        proof {
            assert(r@ =~= dec_rep3(n as nat));
        }
        r
    } else {
        u64_string(n)
    }
}

} // verus!
