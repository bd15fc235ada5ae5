//! Deterministic fixed-point logarithm and exponential.
//!
//! Both functions are the library's own definitions: the executable code
//! computes exactly the value of the mirror `spec` function, so every
//! consumer contract can speak of the result precisely. The approximations
//! normalise by powers of two and evaluate a short series.

use vstd::prelude::*;
use vstd::arithmetic::div_mod::{lemma_div_is_ordered, lemma_div_is_ordered_by_denominator, lemma_div_pos_is_pos};
use vstd::arithmetic::power2::{lemma2_to64, lemma_pow2_pos, lemma_pow2_strictly_increases, lemma_pow2_unfold, pow2};
use crate::fixed::{div_trunc, lemma_tdiv_bounds, lemma_tdiv_ordered, tdiv, VAL_LIMIT};
use crate::SCALE;

verus! {

/// ln(2) in micro-units.
pub const LN2_FIXED: i128 = 693_147;

/// Magnitude bound on every value `ln_fixed` returns.
pub const LN_ABS_BOUND: i128 = 100_000_000;

/// Beyond this argument magnitude, `exp_sat` is saturated: exp of 28 real
/// units already exceeds the representable value range.
pub const EXP_SAT_CUTOFF: i128 = 28_000_000;

/// Double x until it reaches `SCALE`, counting the doublings (negatively).
pub open spec fn norm_up(x: int) -> (int, int)
    decreases
            if 1 <= x < SCALE as int {
                SCALE as int - x
            } else {
                0
            },
{
    if x < 1 {
        (SCALE as int, 0)
    } else if x >= SCALE as int {
        (x, 0)
    } else {
        let r = norm_up(2 * x);
        (r.0, r.1 - 1)
    }
}

/// Halve x until it drops below `2 * SCALE`, counting the halvings.
pub open spec fn norm_down(x: int) -> (int, int)
    decreases
            if x >= 0 {
                x
            } else {
                0
            },
{
    if x < 2 * SCALE as int {
        (x, 0)
    } else {
        let r = norm_down(x / 2);
        (r.0, r.1 + 1)
    }
}

/// The atanh-form series for ln(m / SCALE), SCALE <= m < 2 * SCALE.
pub open spec fn ln_series(m: int) -> int {
    let z = tdiv((m - SCALE as int) * SCALE as int, m + SCALE as int);
    let z2 = tdiv(z * z, SCALE as int);
    let z3 = tdiv(z2 * z, SCALE as int);
    let z5 = tdiv(z3 * z2, SCALE as int);
    let z7 = tdiv(z5 * z2, SCALE as int);
    2 * (z + tdiv(z3, 3) + tdiv(z5, 5) + tdiv(z7, 7))
}

/// The library's fixed-point natural logarithm of x micro-units (ln of the
/// real value x / SCALE), for 1 <= x.
pub open spec fn ln_fixed_spec(x: int) -> int {
    let up = norm_up(x);
    let down = norm_down(up.0);
    ln_series(down.0) + (up.1 + down.1) * LN2_FIXED as int
}

/// Bounds of the five chained series variables, and the value of the series.
proof fn lemma_series_vars(m: int, z: int, z2: int, z3: int, z5: int, z7: int)
    requires
        SCALE as int <= m < 2 * SCALE as int,
        z == tdiv((m - SCALE as int) * SCALE as int, m + SCALE as int),
        z2 == tdiv(z * z, SCALE as int),
        z3 == tdiv(z2 * z, SCALE as int),
        z5 == tdiv(z3 * z2, SCALE as int),
        z7 == tdiv(z5 * z2, SCALE as int),
    ensures
        0 <= z <= SCALE as int,
        0 <= z2 <= SCALE as int,
        0 <= z3 <= SCALE as int,
        0 <= z5 <= SCALE as int,
        0 <= z7 <= SCALE as int,
        ln_series(m) == 2 * (z + tdiv(z3, 3) + tdiv(z5, 5) + tdiv(z7, 7)),
{
    let s = SCALE as int;
    assert(0 <= (m - s) * s <= s * s) by (nonlinear_arith)
        requires
            s <= m < 2 * s,
            s == SCALE as int,
    ;
    lemma_tdiv_bounds((m - s) * s, m + s);
    lemma_tdiv_ordered((m - s) * s, s * s, m + s);
    lemma_div_is_ordered_by_denominator(s * s, s, m + s);
    assert(s * s / s == s) by (nonlinear_arith)
        requires
            s == SCALE as int,
    ;
    assert(0 <= z * z <= s * s) by (nonlinear_arith)
        requires
            0 <= z <= s,
    ;
    lemma_tdiv_bounds(z * z, s);
    lemma_div_is_ordered(z * z, s * s, s);
    assert(0 <= z2 * z <= s * s) by (nonlinear_arith)
        requires
            0 <= z2 <= s,
            0 <= z <= s,
    ;
    lemma_tdiv_bounds(z2 * z, s);
    lemma_div_is_ordered(z2 * z, s * s, s);
    assert(0 <= z3 * z2 <= s * s) by (nonlinear_arith)
        requires
            0 <= z3 <= s,
            0 <= z2 <= s,
    ;
    lemma_tdiv_bounds(z3 * z2, s);
    lemma_div_is_ordered(z3 * z2, s * s, s);
    assert(0 <= z5 * z2 <= s * s) by (nonlinear_arith)
        requires
            0 <= z5 <= s,
            0 <= z2 <= s,
    ;
    lemma_tdiv_bounds(z5 * z2, s);
    lemma_div_is_ordered(z5 * z2, s * s, s);
}

/// Fixed-point natural logarithm: exactly `ln_fixed_spec`.
pub fn ln_fixed(x: i128) -> (r: i128)
    requires
        1 <= x <= VAL_LIMIT,
    ensures
        r == ln_fixed_spec(x as int),
        -(LN_ABS_BOUND as int) <= r <= LN_ABS_BOUND as int,
{
    let mut m: i128 = x;
    let mut k: i128 = 0;
    proof {
        lemma2_to64();
    }
    while m < SCALE
        invariant
            1 <= m <= VAL_LIMIT,
            -21 <= k <= 0,
            pow2((-k) as nat) <= 2 * m,
            norm_up(x as int).0 == norm_up(m as int).0,
            norm_up(x as int).1 == norm_up(m as int).1 + k,
        decreases 2 * SCALE - m,
    {
        proof {
            lemma2_to64();
            assert(k >= -20) by {
                lemma2_to64();
                if k <= -21 {
                    if -k > 21 {
                        lemma_pow2_strictly_increases(21, (-k) as nat);
                    }
                    assert(pow2((-k) as nat) >= pow2(21));
                    assert(false);
                }
            }
            lemma_pow2_unfold((-(k - 1)) as nat);
        }
        m = m * 2;
        k = k - 1;
    }
    proof {
        assert(norm_up(m as int) == (m as int, 0int));
        if x >= SCALE {
            assert(norm_up(x as int) == (x as int, 0int));
        }
        assert(m as int == norm_up(x as int).0);
        assert(k == norm_up(x as int).1);
    }
    let ghost m_up: int = m as int;
    let ghost k_up: int = k as int;
    proof {
        lemma2_to64();
        assert(pow2(0) * (m as int) == m as int) by (nonlinear_arith)
            requires
                pow2(0) == 1,
        ;
    }
    while m >= 2 * SCALE
        invariant
            SCALE <= m,
            m as int <= m_up,
            m_up <= VAL_LIMIT as int,
            k_up <= k,
            k - k_up <= 41,
            pow2((k - k_up) as nat) * (m as int) <= m_up,
            norm_down(m_up).0 == norm_down(m as int).0,
            norm_down(m_up).1 + k_up == norm_down(m as int).1 + k,
            -21 <= k_up <= 0,
        decreases m,
    {
        proof {
            lemma_div_pos_is_pos(m as int, 2);
            assert((m as int) / 2 >= SCALE as int) by (nonlinear_arith)
                requires
                    m as int >= 2 * SCALE as int,
            ;
            assert(norm_down(m as int).1 == norm_down((m as int) / 2).1 + 1);
            lemma_pow2_unfold((k + 1 - k_up) as nat);
            lemma_pow2_pos((k - k_up) as nat);
            assert(pow2((k + 1 - k_up) as nat) * ((m as int) / 2) <= m_up) by (nonlinear_arith)
                requires
                    pow2((k + 1 - k_up) as nat) == 2 * pow2((k - k_up) as nat),
                    pow2((k - k_up) as nat) * (m as int) <= m_up,
                    pow2((k - k_up) as nat) >= 1,
                    2 * ((m as int) / 2) <= m as int,
                    m as int >= 0,
            ;
            assert(k - k_up <= 40) by {
                lemma2_to64();
                vstd::arithmetic::power2::lemma_pow2_adds(32, 9);
                if k - k_up >= 41 {
                    lemma_pow2_strictly_increases(40, (k - k_up) as nat);
                    assert(pow2((k - k_up) as nat) >= pow2(41));
                    assert(pow2(41) == 0x20000000000);
                    assert(pow2((k - k_up) as nat) * (m as int) >= pow2(41) * (m as int))
                        by (nonlinear_arith)
                        requires
                            pow2((k - k_up) as nat) >= pow2(41),
                            m as int >= 1,
                    ;
                    assert(0x20000000000 * (m as int) > VAL_LIMIT as int) by (nonlinear_arith)
                        requires
                            m as int >= SCALE as int,
                            SCALE == 1_000_000i128,
                    ;
                    assert(false);
                }
            }
        }
        m = m / 2;
        k = k + 1;
    }
    proof {
        assert(norm_down(m as int) == (m as int, 0int));
        assert(m as int == norm_down(m_up).0);
        assert(k == norm_down(m_up).1 + k_up);
    }
    let s128: i128 = SCALE;
    let z = div_trunc((m - s128) * s128, m + s128);
    proof {
        assert(0 <= (m - s128) as int * (s128 as int) <= (s128 as int) * (s128 as int))
            by (nonlinear_arith)
            requires
                s128 == SCALE,
                s128 <= m,
                (m as int) < 2 * (s128 as int),
        ;
        lemma_tdiv_bounds((m - s128) as int * (s128 as int), (m + s128) as int);
        lemma_tdiv_ordered(
            (m - s128) as int * (s128 as int),
            (s128 as int) * (s128 as int),
            (m + s128) as int,
        );
        lemma_div_is_ordered_by_denominator(
            (s128 as int) * (s128 as int),
            s128 as int,
            (m + s128) as int,
        );
        assert((s128 as int) * (s128 as int) / (s128 as int) == s128 as int) by (nonlinear_arith)
            requires
                s128 == 1_000_000i128,
        ;
        assert(0 <= z <= s128);
        assert((z as int) * (z as int) <= (s128 as int) * (s128 as int)) by (nonlinear_arith)
            requires
                0 <= z <= s128,
        ;
    }
    let z2 = div_trunc(z * z, s128);
    proof {
        lemma_tdiv_bounds((z * z) as int, s128 as int);
        lemma_div_is_ordered((z * z) as int, (s128 as int) * (s128 as int), s128 as int);
        assert(0 <= z2 <= s128);
        assert((z2 as int) * (z as int) <= (s128 as int) * (s128 as int)) by (nonlinear_arith)
            requires
                0 <= z2 <= s128,
                0 <= z <= s128,
        ;
    }
    let z3 = div_trunc(z2 * z, s128);
    proof {
        lemma_tdiv_bounds((z2 * z) as int, s128 as int);
        lemma_div_is_ordered((z2 * z) as int, (s128 as int) * (s128 as int), s128 as int);
        assert(0 <= z3 <= s128);
        assert((z3 as int) * (z2 as int) <= (s128 as int) * (s128 as int)) by (nonlinear_arith)
            requires
                0 <= z3 <= s128,
                0 <= z2 <= s128,
        ;
    }
    let z5 = div_trunc(z3 * z2, s128);
    proof {
        lemma_tdiv_bounds((z3 * z2) as int, s128 as int);
        lemma_div_is_ordered((z3 * z2) as int, (s128 as int) * (s128 as int), s128 as int);
        assert(0 <= z5 <= s128);
        assert((z5 as int) * (z2 as int) <= (s128 as int) * (s128 as int)) by (nonlinear_arith)
            requires
                0 <= z5 <= s128,
                0 <= z2 <= s128,
        ;
    }
    let z7 = div_trunc(z5 * z2, s128);
    proof {
        lemma_tdiv_bounds((z5 * z2) as int, s128 as int);
        lemma_div_is_ordered((z5 * z2) as int, (s128 as int) * (s128 as int), s128 as int);
        assert(0 <= z7 <= s128);
        lemma_tdiv_bounds(z3 as int, 3);
        lemma_tdiv_bounds(z5 as int, 5);
        lemma_tdiv_bounds(z7 as int, 7);
    }
    let series = 2 * (z + div_trunc(z3, 3) + div_trunc(z5, 5) + div_trunc(z7, 7));
    proof {
        lemma_series_vars(m as int, z as int, z2 as int, z3 as int, z5 as int, z7 as int);
        assert(series as int == ln_series(m as int));
    }
    series + k * LN2_FIXED
}

/// Repeated doubling: v * 2^e.
pub open spec fn shift_up(v: int, e: int) -> int
    decreases
            if e >= 0 {
                e
            } else {
                0
            },
{
    if e <= 0 {
        v
    } else {
        2 * shift_up(v, e - 1)
    }
}

/// The Taylor part of exp on [0, ln 2): all seven chained terms.
pub open spec fn exp_series(r: int) -> int {
    let s = SCALE as int;
    let t1 = r;
    let t2 = tdiv(t1 * r, 2 * s);
    let t3 = tdiv(t2 * r, 3 * s);
    let t4 = tdiv(t3 * r, 4 * s);
    let t5 = tdiv(t4 * r, 5 * s);
    let t6 = tdiv(t5 * r, 6 * s);
    let t7 = tdiv(t6 * r, 7 * s);
    s + t1 + t2 + t3 + t4 + t5 + t6 + t7
}

/// exp of a non-negative fixed-point argument, before saturation.
pub open spec fn exp_pos_spec(y: int) -> int {
    let k = y / LN2_FIXED as int;
    let rem = y - k * LN2_FIXED as int;
    shift_up(exp_series(rem), k)
}

/// Saturating fixed-point exponential: exact below the saturation argument,
/// clamped to [0, VAL_LIMIT] everywhere.
pub open spec fn exp_sat_spec(y: int) -> int {
    if y > EXP_SAT_CUTOFF as int {
        VAL_LIMIT as int
    } else if y >= 0 {
        crate::fixed::clamp_spec(exp_pos_spec(y))
    } else if y < -(EXP_SAT_CUTOFF as int) {
        0
    } else {
        let d = exp_pos_spec(-y);
        tdiv(SCALE as int * SCALE as int, d)
    }
}

/// Bounds of the series: SCALE <= exp_series(r) <= 8 * SCALE for r in
/// [0, LN2), from the per-term bounds.
proof fn lemma_exp_series_bounds(r: int)
    requires
        0 <= r < LN2_FIXED as int,
    ensures
        SCALE as int <= exp_series(r) <= 8 * SCALE as int,
{
    let s = SCALE as int;
    let t1 = r;
    let t2 = tdiv(t1 * r, 2 * s);
    let t3 = tdiv(t2 * r, 3 * s);
    let t4 = tdiv(t3 * r, 4 * s);
    let t5 = tdiv(t4 * r, 5 * s);
    let t6 = tdiv(t5 * r, 6 * s);
    let t7 = tdiv(t6 * r, 7 * s);
    lemma_exp_terms(r, t1, t2, t3, t4, t5, t6, t7);
}

/// Saturating fixed-point exponential: exactly `exp_sat_spec`, always within
/// [0, VAL_LIMIT].
pub fn exp_sat(y: i128) -> (r: i128)
    requires
        -(VAL_LIMIT as int) <= y <= VAL_LIMIT as int,
    ensures
        r == exp_sat_spec(y as int),
        0 <= r <= VAL_LIMIT,
{
    if y > EXP_SAT_CUTOFF {
        return VAL_LIMIT;
    }
    if y < -EXP_SAT_CUTOFF {
        return 0;
    }
    if y >= 0 {
        let p = exp_pos(y);
        crate::fixed::clamp_range(p)
    } else {
        let d = exp_pos(-y);
        proof {
            lemma_tdiv_bounds(SCALE as int * SCALE as int, d as int);
        }
        let q = div_trunc(SCALE * SCALE, d);
        proof {
            lemma_tdiv_ordered(
                SCALE as int * SCALE as int,
                SCALE as int * SCALE as int,
                d as int,
            );
        }
        q
    }
}

/// exp of a non-negative argument: exactly `exp_pos_spec`.
fn exp_pos(y: i128) -> (r: i128)
    requires
        0 <= y <= EXP_SAT_CUTOFF,
    ensures
        r == exp_pos_spec(y as int),
        1 <= r,
{
    let k = y / LN2_FIXED;
    let rem = y - k * LN2_FIXED;
    proof {
        assert(k == (y as int) / (LN2_FIXED as int) && 0 <= k <= 40 && 0 <= (y as int) - k * (
        LN2_FIXED as int) < LN2_FIXED as int) by (nonlinear_arith)
            requires
                0 <= y <= 28_000_000,
                k == y / LN2_FIXED,
                LN2_FIXED == 693_147i128,
        ;
        lemma_exp_series_bounds(rem as int);
    }
    let s = SCALE;
    let t1 = rem;
    let t2 = div_trunc(t1 * rem, 2 * s);
    let t3 = div_trunc(t2 * rem, 3 * s);
    let t4 = div_trunc(t3 * rem, 4 * s);
    let t5 = div_trunc(t4 * rem, 5 * s);
    let t6 = div_trunc(t5 * rem, 6 * s);
    let t7 = div_trunc(t6 * rem, 7 * s);
    proof {
        lemma_exp_terms(rem as int, t1 as int, t2 as int, t3 as int, t4 as int, t5 as int,
            t6 as int, t7 as int);
    }
    let base = s + t1 + t2 + t3 + t4 + t5 + t6 + t7;
    let mut acc: i128 = base;
    let mut i: i128 = 0;
    proof {
        assert(shift_up(base as int, 0) == base as int);
        lemma_shift_up_bound(0);
        lemma_shift_up_mono(base as int, 8 * SCALE as int, 0);
    }
    while i < k
        invariant
            0 <= i <= k,
            k <= 40,
            SCALE as int <= acc as int,
            acc as int == shift_up(base as int, i as int),
            SCALE as int <= base as int <= 8 * SCALE as int,
            acc as int <= shift_up(8 * SCALE as int, i as int),
            shift_up(8 * SCALE as int, i as int) <= shift_up(8 * SCALE as int, 41),
            shift_up(8 * SCALE as int, 41) < 0x2_0000_0000_0000_0000i128,
        decreases k - i,
    {
        proof {
            lemma_shift_up_bound(i as int + 1);
            lemma_shift_up_mono(base as int, 8 * SCALE as int, i as int + 1);
        }
        acc = acc * 2;
        i = i + 1;
    }
    acc
}

/// The chained Taylor terms stay within [0, SCALE].
proof fn lemma_exp_terms(r: int, t1: int, t2: int, t3: int, t4: int, t5: int, t6: int, t7: int)
    requires
        0 <= r < LN2_FIXED as int,
        t1 == r,
        t2 == tdiv(t1 * r, 2 * SCALE as int),
        t3 == tdiv(t2 * r, 3 * SCALE as int),
        t4 == tdiv(t3 * r, 4 * SCALE as int),
        t5 == tdiv(t4 * r, 5 * SCALE as int),
        t6 == tdiv(t5 * r, 6 * SCALE as int),
        t7 == tdiv(t6 * r, 7 * SCALE as int),
    ensures
        0 <= t2 <= SCALE as int,
        0 <= t3 <= SCALE as int,
        0 <= t4 <= SCALE as int,
        0 <= t5 <= SCALE as int,
        0 <= t6 <= SCALE as int,
        0 <= t7 <= SCALE as int,
        exp_series(r) == SCALE as int + t1 + t2 + t3 + t4 + t5 + t6 + t7,
{
    let s = SCALE as int;
    assert(0 <= t1 * r <= s * s) by (nonlinear_arith)
        requires
            0 <= t1 <= s,
            0 <= r <= s,
            s == SCALE as int,
    ;
    lemma_tdiv_bounds(t1 * r, 2 * s);
    lemma_div_is_ordered(t1 * r, s * s, 2 * s);
    assert(s * s / (2 * s) <= s) by (nonlinear_arith)
        requires
            s == SCALE as int,
    ;
    assert(0 <= t2 * r <= s * s) by (nonlinear_arith)
        requires
            0 <= t2 <= s,
            0 <= r <= s,
    ;
    lemma_tdiv_bounds(t2 * r, 3 * s);
    lemma_div_is_ordered(t2 * r, s * s, 3 * s);
    assert(s * s / (3 * s) <= s) by (nonlinear_arith)
        requires
            s == SCALE as int,
    ;
    assert(0 <= t3 * r <= s * s) by (nonlinear_arith)
        requires
            0 <= t3 <= s,
            0 <= r <= s,
    ;
    lemma_tdiv_bounds(t3 * r, 4 * s);
    lemma_div_is_ordered(t3 * r, s * s, 4 * s);
    assert(s * s / (4 * s) <= s) by (nonlinear_arith)
        requires
            s == SCALE as int,
    ;
    assert(0 <= t4 * r <= s * s) by (nonlinear_arith)
        requires
            0 <= t4 <= s,
            0 <= r <= s,
    ;
    lemma_tdiv_bounds(t4 * r, 5 * s);
    lemma_div_is_ordered(t4 * r, s * s, 5 * s);
    assert(s * s / (5 * s) <= s) by (nonlinear_arith)
        requires
            s == SCALE as int,
    ;
    assert(0 <= t5 * r <= s * s) by (nonlinear_arith)
        requires
            0 <= t5 <= s,
            0 <= r <= s,
    ;
    lemma_tdiv_bounds(t5 * r, 6 * s);
    lemma_div_is_ordered(t5 * r, s * s, 6 * s);
    assert(s * s / (6 * s) <= s) by (nonlinear_arith)
        requires
            s == SCALE as int,
    ;
    assert(0 <= t6 * r <= s * s) by (nonlinear_arith)
        requires
            0 <= t6 <= s,
            0 <= r <= s,
    ;
    lemma_tdiv_bounds(t6 * r, 7 * s);
    lemma_div_is_ordered(t6 * r, s * s, 7 * s);
    assert(s * s / (7 * s) <= s) by (nonlinear_arith)
        requires
            s == SCALE as int,
    ;
}

/// shift_up(8 * SCALE, e) stays far below the i128 range for e <= 146.
proof fn lemma_shift_up_bound(e: int)
    requires
        0 <= e <= 41,
    ensures
        shift_up(8 * SCALE as int, e) <= shift_up(8 * SCALE as int, 41),
        shift_up(8 * SCALE as int, 41) < 0x2_0000_0000_0000_0000int,
    decreases 41 - e,
{
    if e < 41 {
        lemma_shift_up_bound(e + 1);
        lemma_shift_up_ge(8 * SCALE as int, e);
    }
    lemma_shift_up_value();
}

/// shift_up grows with its exponent for non-negative v.
proof fn lemma_shift_up_ge(v: int, e: int)
    requires
        0 <= v,
        0 <= e,
    ensures
        shift_up(v, e) <= shift_up(v, e + 1),
        0 <= shift_up(v, e),
    decreases e,
{
    if e > 0 {
        lemma_shift_up_ge(v, e - 1);
    }
}

/// shift_up is multiplication by a power of two.
proof fn lemma_shift_up_pow2(v: int, e: int)
    requires
        0 <= e,
    ensures
        shift_up(v, e) == v * pow2(e as nat),
    decreases e,
{
    if e == 0 {
        assert(pow2(0) == 1) by {
            lemma2_to64();
        }
    } else {
        lemma_shift_up_pow2(v, e - 1);
        lemma_pow2_unfold(e as nat);
        assert(v * (2 * pow2((e - 1) as nat)) == 2 * (v * pow2((e - 1) as nat)))
            by (nonlinear_arith);
    }
}

/// The concrete ceiling the doubling loop needs: 8 * SCALE * 2^41 fits.
proof fn lemma_shift_up_value()
    ensures
        shift_up(8 * SCALE as int, 41) < 0x2_0000_0000_0000_0000int,
{
    lemma_shift_up_pow2(8 * SCALE as int, 41);
    vstd::arithmetic::power2::lemma_pow2_adds(32, 9);
    lemma2_to64();
    assert(pow2(41) == 0x20000000000);
    assert((8 * SCALE as int) * pow2(41) < 0x2_0000_0000_0000_0000int) by (nonlinear_arith)
        requires
            pow2(41) == 0x20000000000,
            SCALE == 1_000_000i128,
    ;
}

/// shift_up is monotone in its base.
proof fn lemma_shift_up_mono(a: int, b: int, e: int)
    requires
        0 <= a <= b,
        0 <= e,
    ensures
        shift_up(a, e) <= shift_up(b, e),
    decreases e,
{
    if e > 0 {
        lemma_shift_up_mono(a, b, e - 1);
    }
}

} // verus!
