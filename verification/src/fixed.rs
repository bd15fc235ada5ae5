//! Exact fixed-point arithmetic in micro-units.
//!
//! Every quantity of the library (time, concentration, dose, any derived
//! parameter) is an `i128` holding the real value multiplied by `SCALE`.
//! All operations round toward zero and are specified exactly over `int`.

use vstd::prelude::*;
use vstd::arithmetic::div_mod::{
    lemma_div_is_ordered, lemma_div_pos_is_pos, lemma_fundamental_div_mod,
};

verus! {

/// Largest magnitude a stored value may take (10^12 real units).
pub const VAL_LIMIT: i128 = 1_000_000_000_000_000_000;

/// A value the arithmetic layer accepts: within +/- `VAL_LIMIT`.
pub open spec fn in_range(v: int) -> bool {
    -(VAL_LIMIT as int) <= v <= VAL_LIMIT as int
}

/// Division truncated toward zero, for a positive divisor.
pub open spec fn tdiv(a: int, b: int) -> int
    recommends
        b > 0,
{
    if a >= 0 {
        a / b
    } else {
        -((-a) / b)
    }
}

/// Division truncated toward zero, for any non-zero divisor.
pub open spec fn tdiv_any(a: int, b: int) -> int
    recommends
        b != 0,
{
    if b > 0 {
        tdiv(a, b)
    } else {
        -tdiv(a, -b)
    }
}

/// Truncating division shrinks magnitude: |a/b| <= |a| for b >= 1.
pub proof fn lemma_tdiv_bounds(a: int, b: int)
    requires
        b >= 1,
    ensures
        a >= 0 ==> 0 <= tdiv(a, b) <= a,
        a < 0 ==> a <= tdiv(a, b) <= 0,
{
    if a >= 0 {
        lemma_div_pos_is_pos(a, b);
        lemma_div_is_ordered_by_denominator_one(a, b);
    } else {
        lemma_div_pos_is_pos(-a, b);
        lemma_div_is_ordered_by_denominator_one(-a, b);
    }
}

/// For x >= 0 and b >= 1, x / b <= x.
proof fn lemma_div_is_ordered_by_denominator_one(x: int, b: int)
    requires
        x >= 0,
        b >= 1,
    ensures
        x / b <= x,
{
    lemma_fundamental_div_mod(x, b);
    lemma_div_pos_is_pos(x, b);
    assert(x == b * (x / b) + x % b);
    assert(b * (x / b) >= x / b) by (nonlinear_arith)
        requires
            b >= 1,
            x / b >= 0,
    ;
}

/// Truncating division is monotone in the dividend (positive divisor).
pub proof fn lemma_tdiv_ordered(a1: int, a2: int, b: int)
    requires
        b >= 1,
        a1 <= a2,
    ensures
        tdiv(a1, b) <= tdiv(a2, b),
{
    if a1 >= 0 {
        lemma_div_is_ordered(a1, a2, b);
    } else if a2 < 0 {
        lemma_div_is_ordered(-a2, -a1, b);
    } else {
        lemma_div_pos_is_pos(-a1, b);
        lemma_div_pos_is_pos(a2, b);
    }
}

/// If the exact quotient difference is at least one, the truncated quotients
/// differ (used for strict monotonicity arguments).
pub proof fn lemma_tdiv_strict(a: int, b1: int, b2: int)
    requires
        a >= 0,
        1 <= b1 < b2,
        b1 * b2 <= a,
    ensures
        tdiv(a, b1) > tdiv(a, b2),
{
    lemma_fundamental_div_mod(a, b1);
    lemma_fundamental_div_mod(a, b2);
    let q1 = a / b1;
    let q2 = a / b2;
    lemma_div_pos_is_pos(a, b1);
    lemma_div_pos_is_pos(a, b2);
    assert(q1 > q2) by (nonlinear_arith)
        requires
            1 <= b1 < b2,
            b1 * b2 <= a,
            q1 >= 0,
            q2 >= 0,
            a == b1 * q1 + a % b1,
            a == b2 * q2 + a % b2,
            0 <= a % b1 < b1,
            0 <= a % b2 < b2,
    ;
}

/// Unsigned division on u128, exactly `a / b`.
fn udiv(a: u128, b: u128) -> (r: u128)
    requires
        b > 0,
    ensures
        r == a as int / b as int,
{
    a / b
}

/// Division of an `i128` by a positive `i128`, truncated toward zero.
pub fn div_trunc(a: i128, b: i128) -> (r: i128)
    requires
        b > 0,
        a > i128::MIN,
    ensures
        r == tdiv(a as int, b as int),
{
    if a >= 0 {
        let q = udiv(a as u128, b as u128);
        proof {
            lemma_tdiv_bounds(a as int, b as int);
        }
        q as i128
    } else {
        let q = udiv((-a) as u128, b as u128);
        proof {
            lemma_tdiv_bounds(-(a as int), b as int);
        }
        -(q as i128)
    }
}

/// Division of an `i128` by any non-zero `i128`, truncated toward zero.
pub fn div_trunc_any(a: i128, b: i128) -> (r: i128)
    requires
        b != 0,
        a > i128::MIN,
        b > i128::MIN,
    ensures
        r == tdiv_any(a as int, b as int),
{
    if b > 0 {
        div_trunc(a, b)
    } else {
        proof {
            lemma_tdiv_bounds(a as int, -(b as int));
            lemma_tdiv_bounds(-(a as int), -(b as int));
        }
        -(div_trunc(a, -b))
    }
}

/// Clamp a value into the representable range.
pub fn clamp_range(v: i128) -> (r: i128)
    ensures
        r == clamp_spec(v as int),
        in_range(r as int),
{
    if v > VAL_LIMIT {
        VAL_LIMIT
    } else if v < -VAL_LIMIT {
        -VAL_LIMIT
    } else {
        v
    }
}

/// The clamp used when a computation leaves the representable range.
pub open spec fn clamp_spec(v: int) -> int {
    if v > VAL_LIMIT as int {
        VAL_LIMIT as int
    } else if v < -(VAL_LIMIT as int) {
        -(VAL_LIMIT as int)
    } else {
        v
    }
}

/// Checked addition of two in-range values.
pub fn add_val(a: i128, b: i128) -> (r: Option<i128>)
    requires
        in_range(a as int),
        in_range(b as int),
    ensures
        match r {
            Some(v) => v == a + b && in_range(v as int),
            None => !in_range(a + b),
        },
{
    let s = a + b;
    if -VAL_LIMIT <= s && s <= VAL_LIMIT {
        Some(s)
    } else {
        None
    }
}

/// Fixed-point product of two in-range values: (a * b) / SCALE, truncated.
pub fn mul_val(a: i128, b: i128) -> (r: Option<i128>)
    requires
        in_range(a as int),
        in_range(b as int),
    ensures
        match r {
            Some(v) => v == tdiv(a * b, crate::SCALE as int) && in_range(v as int),
            None => !in_range(tdiv(a * b, crate::SCALE as int)),
        },
{
    proof {
        assert(-(VAL_LIMIT as int) * (VAL_LIMIT as int) <= a * b <= (VAL_LIMIT as int) * (
        VAL_LIMIT as int)) by (nonlinear_arith)
            requires
                in_range(a as int),
                in_range(b as int),
        ;
    }
    let p = a * b;
    let q = div_trunc(p, crate::SCALE);
    proof {
        lemma_tdiv_bounds(p as int, crate::SCALE as int);
    }
    if -VAL_LIMIT <= q && q <= VAL_LIMIT {
        Some(q)
    } else {
        None
    }
}

/// Fixed-point quotient of two in-range values: (a * SCALE) / b, truncated.
pub fn div_val(a: i128, b: i128) -> (r: Option<i128>)
    requires
        in_range(a as int),
        in_range(b as int),
        b != 0,
    ensures
        match r {
            Some(v) => v == tdiv_any(a * crate::SCALE, b as int) && in_range(v as int),
            None => !in_range(tdiv_any(a * crate::SCALE, b as int)),
        },
{
    proof {
        assert(-(VAL_LIMIT as int) * (crate::SCALE as int) <= a * crate::SCALE <= (
        VAL_LIMIT as int) * (crate::SCALE as int)) by (nonlinear_arith)
            requires
                in_range(a as int),
        ;
    }
    let p = a * crate::SCALE;
    let q = div_trunc_any(p, b);
    proof {
        if b > 0 {
            lemma_tdiv_bounds(p as int, b as int);
        } else {
            lemma_tdiv_bounds(p as int, -(b as int));
        }
    }
    if -VAL_LIMIT <= q && q <= VAL_LIMIT {
        Some(q)
    } else {
        None
    }
}

/// The floor square root, as a specification value.
pub open spec fn sqrt_floor(x: int) -> int {
    choose|r: int| r >= 0 && #[trigger] (r * r) <= x && (r + 1) * (r + 1) > x
}

/// Two floor square roots of the same value coincide.
pub proof fn lemma_sqrt_floor_unique(x: int, r: int)
    requires
        r >= 0,
        r * r <= x,
        (r + 1) * (r + 1) > x,
    ensures
        r == sqrt_floor(x),
{
    let w = choose|w: int| w >= 0 && #[trigger] (w * w) <= x && (w + 1) * (w + 1) > x;
    assert(w >= 0 && w * w <= x && (w + 1) * (w + 1) > x);
    assert(r == w) by (nonlinear_arith)
        requires
            r >= 0,
            w >= 0,
            r * r <= x,
            (r + 1) * (r + 1) > x,
            w * w <= x,
            (w + 1) * (w + 1) > x,
    ;
}

/// Integer square root: the greatest r with r * r <= x.
pub fn isqrt(x: i128) -> (r: i128)
    requires
        x >= 0,
    ensures
        r >= 0,
        r * r <= x,
        (r + 1) * (r + 1) > x,
        r == sqrt_floor(x as int),
{
    let xu = x as u128;
    let mut lo: u128 = 0;
    let mut hi: u128 = 0x1_0000_0000_0000_0000;
    proof {
        assert((hi as int) * (hi as int) > xu as int) by (nonlinear_arith)
            requires
                hi == 0x1_0000_0000_0000_0000u128,
                xu as int <= i128::MAX as int,
        ;
    }
    while lo + 1 < hi
        invariant
            lo < hi,
            hi <= 0x1_0000_0000_0000_0000u128,
            (lo as int) * (lo as int) <= xu as int,
            (hi as int) * (hi as int) > xu as int,
        decreases hi - lo,
    {
        let mid = lo + (hi - lo) / 2;
        proof {
            assert((mid as int) * (mid as int) < 0x1_0000_0000_0000_0000_0000_0000_0000_0000int)
                by (nonlinear_arith)
                requires
                    mid < 0x1_0000_0000_0000_0000u128,
            ;
        }
        let sq = mid * mid;
        if sq <= xu {
            lo = mid;
        } else {
            hi = mid;
        }
    }
    proof {
        assert((lo as int) * (lo as int) <= x as int);
        assert(((lo as int) + 1) * ((lo as int) + 1) > x as int);
        lemma_sqrt_floor_unique(x as int, lo as int);
    }
    lo as i128
}

} // verus!
