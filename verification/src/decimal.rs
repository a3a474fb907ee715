//! Decimal rendering of byte counts.
//!
//! Sizes are shown either as a bare digit string or scaled by a unit, with a
//! two-digit fraction that truncates rather than rounds, so a value never
//! appears to reach the next unit boundary.

use vstd::prelude::*;

verus! {

/// The decimal digit character for `d` (meaningful for `0 <= d <= 9`).
pub open spec fn spec_digit(d: int) -> char {
    if d == 0 {
        '0'
    } else if d == 1 {
        '1'
    } else if d == 2 {
        '2'
    } else if d == 3 {
        '3'
    } else if d == 4 {
        '4'
    } else if d == 5 {
        '5'
    } else if d == 6 {
        '6'
    } else if d == 7 {
        '7'
    } else if d == 8 {
        '8'
    } else {
        '9'
    }
}

/// The decimal rendering of `n`, most significant digit first.
pub open spec fn spec_dec(n: int) -> Seq<char>
    decreases n,
{
    if n < 10 {
        seq![spec_digit(n)]
    } else {
        spec_dec(n / 10).push(spec_digit(n % 10))
    }
}

/// A two-digit, zero-padded rendering of `n` (meaningful for `0 <= n < 100`).
pub open spec fn spec_frac2(n: int) -> Seq<char> {
    seq![spec_digit(n / 10), spec_digit(n % 10)]
}

/// The rendering of `v` scaled down by `scale` and suffixed with `unit`:
/// the whole part alone when `scale` divides `v`, else the whole part
/// followed by exactly two fractional digits, truncated.
pub open spec fn spec_scaled(v: int, scale: int, unit: Seq<char>) -> Seq<char> {
    if v % scale == 0 {
        spec_dec(v / scale) + seq![' '] + unit
    } else {
        spec_dec(v / scale) + seq!['.'] + spec_frac2((v % scale) * 100 / scale) + seq![' '] + unit
    }
}

fn digit_str(d: u64) -> (r: &'static str)
    requires
        d < 10,
    ensures
        r@ == seq![spec_digit(d as int)],
{
    proof {
        reveal_strlit("0");
        reveal_strlit("1");
        reveal_strlit("2");
        reveal_strlit("3");
        reveal_strlit("4");
        reveal_strlit("5");
        reveal_strlit("6");
        reveal_strlit("7");
        reveal_strlit("8");
        reveal_strlit("9");
    }
    let r = if d == 0 {
        "0"
    } else if d == 1 {
        "1"
    } else if d == 2 {
        "2"
    } else if d == 3 {
        "3"
    } else if d == 4 {
        "4"
    } else if d == 5 {
        "5"
    } else if d == 6 {
        "6"
    } else if d == 7 {
        "7"
    } else if d == 8 {
        "8"
    } else {
        "9"
    };
    proof {
        assert(r@ =~= seq![spec_digit(d as int)]);
    }
    r
}

/// Renders `n` in decimal.
pub fn u64_to_string(n: u64) -> (r: String)
    ensures
        r@ == spec_dec(n as int),
    decreases n,
{
    if n < 10 {
        String::from_str(digit_str(n))
    } else {
        let mut s = u64_to_string(n / 10);
        s.append(digit_str(n % 10));
        proof {
            assert(s@ =~= spec_dec(n as int));
        }
        s
    }
}

/// Renders `v` scaled down by `scale` with the unit suffix, truncating the
/// fraction to two digits.
pub fn format_scaled(v: u64, scale: u64, unit: &str) -> (r: String)
    requires
        1 <= scale <= u64::MAX / 100,
    ensures
        r@ == spec_scaled(v as int, scale as int, unit@),
{
    proof {
        reveal_strlit(".");
        reveal_strlit(" ");
    }
    let whole = v / scale;
    let rem = v % scale;
    let mut s = u64_to_string(whole);
    if rem != 0 {
        let frac = rem * 100 / scale;
        proof {
            assert((rem as int) * 100 < (scale as int) * 100) by (nonlinear_arith)
                requires
                    (rem as int) < (scale as int),
            ;
            assert(frac < 100) by (nonlinear_arith)
                requires
                    frac as int == (rem as int) * 100 / (scale as int),
                    (rem as int) * 100 < (scale as int) * 100,
                    (scale as int) >= 1,
            ;
        }
        s.append(".");
        s.append(digit_str(frac / 10));
        s.append(digit_str(frac % 10));
    }
    s.append(" ");
    s.append(unit);
    proof {
        assert(s@ =~= spec_scaled(v as int, scale as int, unit@));
    }
    s
}

} // verus!
