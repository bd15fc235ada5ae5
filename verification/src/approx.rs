//! Closed-form approximations used for p-values: an error-function
//! polynomial, the standard normal CDF, a tanh-based t CDF for small
//! degrees of freedom, and the two-tailed p-value. All are deliberately
//! rough approximations, evaluated deterministically in fixed point and
//! guaranteed to stay inside their probability ranges.

use vstd::prelude::*;
use crate::fixed::{clamp_range, div_trunc, div_trunc_any, in_range, isqrt, lemma_tdiv_bounds, tdiv, VAL_LIMIT};
use crate::math::exp_sat;
use crate::SCALE;

verus! {

/// sqrt(2) in micro-units.
pub const SQRT2_FIXED: i128 = 1_414_214;

/// The error function, by the Abramowitz-Stegun style polynomial in
/// 1 / (1 + p * x), always within [-SCALE, SCALE].
pub fn erf_fixed(x: i128) -> (r: i128)
    requires
        in_range(x as int),
    ensures
        -(SCALE as int) <= r <= SCALE as int,
{
    let sign_neg = x < 0;
    let mut a = if x < 0 {
        -x
    } else {
        x
    };
    if a > 8 * SCALE {
        a = 8 * SCALE;
    }
    proof {
        assert(0 <= 327_591i128 * a <= 327_591int * 8 * SCALE as int) by (nonlinear_arith)
            requires
                0 <= a <= 8 * SCALE,
        ;
        lemma_tdiv_bounds(327_591i128 * a as int, SCALE as int);
    }
    let px = div_trunc(327_591 * a, SCALE);
    proof {
        lemma_tdiv_bounds(SCALE as int * SCALE as int, (SCALE + px) as int);
    }
    let t = div_trunc(SCALE * SCALE, SCALE + px);
    // Horner evaluation of the five-term polynomial in t.
    let c5: i128 = 1_061_405;
    let c4: i128 = -1_453_152;
    let c3: i128 = 1_421_414;
    let c2: i128 = -284_497;
    let c1: i128 = 254_830;
    let h1 = scaled_mul_add(c5, t, c4);
    let h2 = scaled_mul_add(h1, t, c3);
    let h3 = scaled_mul_add(h2, t, c2);
    let h4 = scaled_mul_add(h3, t, c1);
    let poly = scaled_mul_add(h4, t, 0);
    proof {
        assert(0 <= a * a <= 64 * SCALE as int * SCALE as int) by (nonlinear_arith)
            requires
                0 <= a <= 8 * SCALE,
        ;
        lemma_tdiv_bounds((a * a) as int, SCALE as int);
    }
    let x2 = div_trunc(a * a, SCALE);
    let e = exp_sat(if x2 > VAL_LIMIT {
        VAL_LIMIT
    } else {
        -x2
    });
    let damp = scaled_mul_add(poly, e, 0);
    let mut y = SCALE - damp;
    if y > SCALE {
        y = SCALE;
    }
    if y < 0 {
        y = 0;
    }
    if sign_neg {
        -y
    } else {
        y
    }
}

/// (a * b) / SCALE + c, clamped into the representable range.
fn scaled_mul_add(a: i128, b: i128, c: i128) -> (r: i128)
    requires
        in_range(a as int),
        in_range(b as int),
        in_range(c as int),
    ensures
        in_range(r as int),
{
    match crate::fixed::mul_val(a, b) {
        Some(p) => clamp_range(p + c),
        None => clamp_range(c),
    }
}

/// The standard normal CDF through the error function, within [0, SCALE].
pub fn standard_normal_cdf(z: i128) -> (r: i128)
    requires
        in_range(z as int),
    ensures
        0 <= r <= SCALE as int,
{
    proof {
        assert(-(VAL_LIMIT as int) * (SCALE as int) <= z * SCALE as int <= (VAL_LIMIT as int) * (
        SCALE as int)) by (nonlinear_arith)
            requires
                in_range(z as int),
        ;
        lemma_tdiv_bounds((z * SCALE) as int, SQRT2_FIXED as int);
    }
    let arg = clamp_range(div_trunc_any(z * SCALE, SQRT2_FIXED));
    let e = erf_fixed(arg);
    let mut r = (SCALE + e) / 2;
    proof {
        lemma_tdiv_bounds((SCALE + e) as int, 2);
    }
    if r < 0 {
        r = 0;
    }
    if r > SCALE {
        r = SCALE;
    }
    r
}

/// tanh through the saturating exponential, within [-SCALE, SCALE].
pub fn tanh_fixed(x: i128) -> (r: i128)
    requires
        in_range(x as int),
    ensures
        -(SCALE as int) <= r <= SCALE as int,
{
    let two_x = clamp_range(if x > VAL_LIMIT / 2 {
        VAL_LIMIT
    } else if x < -(VAL_LIMIT / 2) {
        -VAL_LIMIT
    } else {
        2 * x
    });
    let e = exp_sat(two_x);
    proof {
        assert(-(VAL_LIMIT as int) * (SCALE as int) <= (e - SCALE) * SCALE as int <= 2 * (
        VAL_LIMIT as int) * (SCALE as int)) by (nonlinear_arith)
            requires
                0 <= e <= VAL_LIMIT,
        ;
        lemma_tdiv_bounds(((e - SCALE) * SCALE) as int, (e + SCALE) as int);
    }
    let mut r = div_trunc((e - SCALE) * SCALE, e + SCALE);
    if r > SCALE {
        r = SCALE;
    }
    if r < -SCALE {
        r = -SCALE;
    }
    r
}

/// The t-distribution CDF approximation: normal beyond 30 degrees of
/// freedom, a tanh form below, within [0, SCALE].
pub fn t_cdf_fixed(t: i128, df: i128) -> (r: i128)
    requires
        in_range(t as int),
        in_range(df as int),
    ensures
        0 <= r <= SCALE as int,
{
    if df <= 0 {
        return SCALE / 2;
    }
    if df > 30 * SCALE {
        return standard_normal_cdf(t);
    }
    let tc = if t > 100 * SCALE {
        100 * SCALE
    } else if t < -100 * SCALE {
        -100 * SCALE
    } else {
        t
    };
    proof {
        assert(0 <= tc * tc <= 10_000 * SCALE as int * SCALE as int) by (nonlinear_arith)
            requires
                -100 * SCALE <= tc <= 100 * SCALE,
        ;
        lemma_tdiv_bounds((tc * tc) as int, SCALE as int);
    }
    let t2 = div_trunc(tc * tc, SCALE);
    proof {
        assert(0 <= t2 * SCALE <= 10_000 * SCALE as int * SCALE as int * SCALE as int)
            by (nonlinear_arith)
            requires
                0 <= t2 <= 10_000 * SCALE,
        ;
        lemma_tdiv_bounds((t2 * SCALE) as int, df as int);
    }
    let w = SCALE + clamp_range(div_trunc(t2 * SCALE, df));
    proof {
        assert(0 <= w * SCALE) by (nonlinear_arith)
            requires
                w >= 1,
        ;
        assert(w * SCALE <= 2 * (VAL_LIMIT as int) * (SCALE as int)) by (nonlinear_arith)
            requires
                1 <= w <= 2 * VAL_LIMIT,
        ;
    }
    let root = isqrt(w * SCALE);
    let denom = if root < 1 {
        1
    } else {
        root
    };
    proof {
        assert(-100 * SCALE as int * SCALE as int <= tc * SCALE <= 100 * SCALE as int
            * SCALE as int) by (nonlinear_arith)
            requires
                -100 * SCALE <= tc <= 100 * SCALE,
        ;
        lemma_tdiv_bounds((tc * SCALE) as int, denom as int);
    }
    let x = clamp_range(div_trunc(tc * SCALE, denom));
    let th = tanh_fixed(x);
    let mut r = SCALE / 2 + th / 2;
    if r < 0 {
        r = 0;
    }
    if r > SCALE {
        r = SCALE;
    }
    r
}

/// Two-tailed p-value from a non-negative statistic, within [0, SCALE].
pub fn two_tailed_p(t_abs: i128, df: i128) -> (r: i128)
    requires
        0 <= t_abs,
        in_range(t_abs as int),
        in_range(df as int),
    ensures
        0 <= r <= SCALE as int,
{
    let c = t_cdf_fixed(t_abs, df);
    let mut p = 2 * (SCALE - c);
    if p < 0 {
        p = 0;
    }
    if p > SCALE {
        p = SCALE;
    }
    p
}

} // verus!
