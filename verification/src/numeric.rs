//! Fixed-point numerics. Metric values are integers counting thousandths of
//! a unit (milli-units): a latency of 30 ms is 30000, a download rate of
//! 250000000.0 bits/s is 250000000000. All arithmetic on them is exact.

use vstd::prelude::*;

use crate::text::{dec_digits, digit_char, pad_digits, push_digit, push_u64};
use vstd::arithmetic::div_mod::lemma_multiply_divide_lt;

verus! {

/// Milli-units per unit: the fixed-point scale.
pub const MILLI_PER_UNIT: u64 = 1000;

/// The largest representable metric value, in milli-units (`2^47 - 1`).
/// The bound keeps every intermediate statistic (sums and squared
/// deviations over up to `MAX_SAMPLES` values) inside 128-bit arithmetic.
pub const MAX_MILLI: u64 = 0x7FFF_FFFF_FFFF;

/// The largest supported number of samples in one statistics computation
/// (`2^32 - 1`).
pub const MAX_SAMPLES: usize = 0xFFFF_FFFF;

/// The integer square root: the largest `r` with `r * r <= n`.
///
/// This pins `r` uniquely; the result is exact for perfect squares.
pub fn isqrt(n: u128) -> (r: u64)
    requires
        n < 0x4000_0000_0000_0000_0000_0000_0000_0000,
    ensures
        (r as int) * (r as int) <= n < (r as int + 1) * (r as int + 1),
{
    let mut lo: u64 = 0;
    let mut hi: u64 = 0x8000_0000_0000_0000;
    proof {
        assert((hi as int) * (hi as int) == 0x4000_0000_0000_0000_0000_0000_0000_0000)
            by (nonlinear_arith)
            requires
                hi == 0x8000_0000_0000_0000u64,
        ;
    }
    while lo + 1 < hi
        invariant
            lo < hi <= 0x8000_0000_0000_0000,
            (lo as int) * (lo as int) <= n,
            n < (hi as int) * (hi as int),
        decreases hi - lo,
    {
        let mid: u64 = lo + (hi - lo) / 2;
        proof {
            assert((mid as int) * (mid as int) <= 0x4000_0000_0000_0000_0000_0000_0000_0000)
                by (nonlinear_arith)
                requires
                    0 <= mid <= 0x8000_0000_0000_0000u64,
            ;
        }
        if (mid as u128) * (mid as u128) <= n {
            lo = mid;
        } else {
            hi = mid;
        }
    }
    lo
}

/// Rounded division: `v / d`, rounded to the nearest integer with halves
/// rounded up.
pub open spec fn spec_div_round(v: int, d: int) -> int {
    (v + d / 2) / d
}

/// Applies a unit divisor to a milli-unit value: the value divided by `d`,
/// still in milli-units, rounded to the nearest thousandth (halves up).
/// A divisor of 1000000 turns milli-bits/s into milli-megabits/s.
pub fn apply_divisor(v: u64, d: u64) -> (r: u64)
    requires
        d >= 1,
    ensures
        r == spec_div_round(v as int, d as int),
        r <= v,
{
    let wide: u128 = (v as u128 + (d / 2) as u128) / (d as u128);
    proof {
        let vi = v as int;
        let di = d as int;
        assert(vi + di / 2 < (vi + 1) * di) by (nonlinear_arith)
            requires
                di >= 1,
                vi >= 0,
        ;
        lemma_multiply_divide_lt(vi + di / 2, di, vi + 1);
    }
    wide as u64
}

/// The decimal rendering of a milli-unit value, in the style of Rust's
/// floating-point `Display`: the integer part, then a fractional part only
/// when it is non-zero, with trailing zeros trimmed (`250`, `2.5`, `0.025`).
pub open spec fn spec_format_milli(v: int) -> Seq<char> {
    let ip = v / 1000;
    let f = v % 1000;
    if f == 0 {
        dec_digits(ip)
    } else if f % 10 != 0 {
        dec_digits(ip) + seq!['.'] + pad_digits(f, 3)
    } else if f % 100 != 0 {
        dec_digits(ip) + seq!['.'] + pad_digits(f / 10, 2)
    } else {
        dec_digits(ip) + seq!['.'] + pad_digits(f / 100, 1)
    }
}

/// Formats a milli-unit value as a decimal number, trimming the fractional
/// part entirely when it is zero.
pub fn format_milli(v: u64) -> (r: String)
    ensures
        r@ == spec_format_milli(v as int),
{
    proof {
        reveal_strlit(".");
    }
    let mut s = String::new();
    let ip = v / 1000;
    let f = v % 1000;
    push_u64(&mut s, ip);
    if f != 0 {
        s.append(".");
        if f % 10 != 0 {
            crate::text::push_u64_padded(&mut s, f, 3);
        } else if f % 100 != 0 {
            crate::text::push_u64_padded(&mut s, f / 10, 2);
        } else {
            crate::text::push_u64_padded(&mut s, f / 100, 1);
        }
    }
    proof {
        assert(s@ =~= spec_format_milli(v as int));
    }
    s
}

/// The decimal rendering of a milli-unit value in JSON-number style: as
/// [`spec_format_milli`], but a whole value keeps a trailing `.0`
/// (`250.0`, `2.5`), the way serialized floating-point numbers read.
pub open spec fn spec_format_milli_json(v: int) -> Seq<char> {
    if v % 1000 == 0 {
        dec_digits(v / 1000) + seq!['.', '0']
    } else {
        spec_format_milli(v)
    }
}

/// Formats a milli-unit value as a JSON number with at least one
/// fractional digit.
pub fn format_milli_json(v: u64) -> (r: String)
    ensures
        r@ == spec_format_milli_json(v as int),
{
    proof {
        reveal_strlit(".0");
    }
    if v % 1000 == 0 {
        let mut s = String::new();
        push_u64(&mut s, v / 1000);
        s.append(".0");
        proof {
            assert(s@ =~= spec_format_milli_json(v as int));
        }
        s
    } else {
        format_milli(v)
    }
}

} // verus!
