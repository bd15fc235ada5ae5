//! Descriptive statistics of a parameter across subjects: arithmetic
//! mean / standard deviation / CV%, quantiles, and geometric statistics
//! that exist exactly when every contributing value is strictly positive.

use vstd::prelude::*;
use crate::fixed::{clamp_range, clamp_spec, div_trunc, div_trunc_any, in_range, isqrt, lemma_tdiv_bounds, tdiv, tdiv_any, VAL_LIMIT};
use crate::math::{exp_sat, ln_fixed, LN_ABS_BOUND};
use crate::models::{ParameterStats, MAX_SUBJECTS};
use crate::sorting::{sort_values, sorted_vals};
use crate::SCALE;

verus! {

/// Sum of a value sequence.
pub open spec fn sum_vals(s: Seq<i128>) -> int
    decreases s.len(),
{
    if s.len() == 0 {
        0
    } else {
        sum_vals(s.drop_last()) + s.last()
    }
}

/// Every value strictly positive.
pub open spec fn all_positive(s: Seq<i128>) -> bool {
    forall|i: int| 0 <= i < s.len() ==> #[trigger] s[i] > 0
}

/// The arithmetic mean of the values, truncated.
pub open spec fn mean_spec(s: Seq<i128>) -> int {
    if s.len() == 0 {
        0
    } else {
        tdiv_any(sum_vals(s), s.len() as int)
    }
}

/// Sum of the scaled squared deviations from a center.
pub open spec fn sq_dev_sum(s: Seq<i128>, c: int) -> int
    decreases s.len(),
{
    if s.len() == 0 {
        0
    } else {
        sq_dev_sum(s.drop_last(), c) + tdiv((s.last() - c) * (s.last() - c), SCALE as int)
    }
}

/// The clamped sample standard deviation around a center: the floor square
/// root of the clamped sample variance, rescaled; zero below two values.
pub open spec fn std_spec(s: Seq<i128>, c: int) -> int {
    if s.len() < 2 {
        0
    } else {
        let var = clamp_spec(tdiv(sq_dev_sum(s, c), s.len() - 1));
        clamp_spec(
            crate::fixed::sqrt_floor(
                (if var < 0 {
                    0
                } else {
                    var
                }) * SCALE as int,
            ),
        )
    }
}

/// The natural logarithms of a value list (zero for values below one).
pub open spec fn ln_list(s: Seq<i128>) -> Seq<i128> {
    Seq::new(
        s.len(),
        |i: int|
            if s[i] >= 1 {
                crate::math::ln_fixed_spec(s[i] as int) as i128
            } else {
                0
            },
    )
}

/// The geometric mean the analysis reports: the saturating exponential of
/// the clamped mean of the logarithms.
pub open spec fn geo_mean_spec(s: Seq<i128>) -> int {
    crate::math::exp_sat_spec(clamp_spec(mean_spec(ln_list(s))))
}

/// The geometric CV% the analysis reports, from the log-space standard
/// deviation.
pub open spec fn geo_cv_spec(s: Seq<i128>) -> int {
    let lns = ln_list(s);
    let ln_mean = clamp_spec(mean_spec(lns));
    let ln_std = std_spec(lns, ln_mean);
    let s2 = clamp_spec(tdiv(ln_std * ln_std, SCALE as int));
    let e = crate::math::exp_sat_spec(s2);
    let spread = if e > SCALE as int {
        e - SCALE as int
    } else {
        0
    };
    clamp_spec(crate::fixed::sqrt_floor(spread * SCALE as int) * 100)
}

/// What the statistics bundle promises about its source values.
pub open spec fn stats_ok(vals: Seq<i128>, r: ParameterStats) -> bool {
    &&& r.n == vals.len()
    &&& r.mean == r.arithmetic_mean
    &&& r.std_dev == r.arithmetic_std
    &&& r.cv_percent == r.arithmetic_cv_percent
    &&& vals.len() > 0 ==> r.arithmetic_mean == clamp_spec(mean_spec(vals))
    &&& vals.len() > 0 ==> r.arithmetic_std == std_spec(vals, clamp_spec(mean_spec(vals)))
    &&& vals.len() > 0 ==> r.arithmetic_cv_percent == (if clamp_spec(mean_spec(vals)) != 0 {
        clamp_spec(
            tdiv_any(
                std_spec(vals, clamp_spec(mean_spec(vals))) * (100 * SCALE as int),
                clamp_spec(mean_spec(vals)),
            ),
        )
    } else {
        0
    })
    &&& (r.geometric_mean is Some ==> r.geometric_mean->0 == geo_mean_spec(vals))
    &&& (r.geometric_cv_percent is Some ==> r.geometric_cv_percent->0 == geo_cv_spec(vals))
    &&& r.arithmetic_std >= 0
    &&& (r.geometric_mean is Some <==> (vals.len() > 0 && all_positive(vals)))
    &&& (r.geometric_cv_percent is Some <==> (vals.len() > 0 && all_positive(vals)))
    &&& (exists|s: Seq<i128>|
        #![trigger sorted_vals(s)]
        {
            &&& sorted_vals(s)
            &&& s.to_multiset() == vals.to_multiset()
            &&& s.len() == vals.len()
            &&& vals.len() > 0 ==> {
                &&& r.min == s[0]
                &&& r.max == s[s.len() - 1]
                &&& (r.median as int) == (if vals.len() % 2 == 0 {
                    tdiv_any(
                        (s[(vals.len() as int) / 2 - 1] as int) + (s[(vals.len() as int) / 2] as int),
                        2int,
                    )
                } else {
                    s[(vals.len() as int) / 2] as int
                })
                &&& r.q25 == s[(vals.len() as int) / 4]
                &&& r.q75 == s[(3 * (vals.len() as int)) / 4]
            }
        })
}

/// Descriptive statistics of a list of values.
pub fn calculate_parameter_stats(values: &Vec<i128>) -> (r: ParameterStats)
    requires
        values@.len() <= MAX_SUBJECTS as int,
        forall|i: int| 0 <= i < values@.len() ==> in_range(#[trigger] values@[i] as int),
    ensures
        stats_ok(values@, r),
{
    let n = values.len();
    if n == 0 {
        let empty = ParameterStats {
            n: 0,
            mean: 0,
            arithmetic_mean: 0,
            arithmetic_std: 0,
            arithmetic_cv_percent: 0,
            std_dev: 0,
            cv_percent: 0,
            median: 0,
            q25: 0,
            q75: 0,
            min: 0,
            max: 0,
            geometric_mean: None,
            geometric_cv_percent: None,
        };
        proof {
            let w = Seq::<i128>::empty();
            assert(values@ =~= w);
            assert(sorted_vals(w) && w.len() == values@.len());
        }
        return empty;
    }
    let total = sum_in_range(values);
    proof {
        lemma_tdiv_bounds(total as int, n as int);
        lemma_tdiv_bounds(-(total as int), n as int);
    }
    let mean = clamp_range(div_trunc_any(total, n as i128));
    let std_val = std_dev_of(values, mean);
    let cv = if mean != 0 {
        proof {
            assert(-(VAL_LIMIT as int) * (100 * SCALE as int) <= std_val * (100 * SCALE as int)
                <= (VAL_LIMIT as int) * (100 * SCALE as int)) by (nonlinear_arith)
                requires
                    in_range(std_val as int),
            ;
            if mean as int >= 1 {
                lemma_tdiv_bounds(std_val * (100 * SCALE as int), mean as int);
                lemma_tdiv_bounds(-(std_val * (100 * SCALE as int)), mean as int);
            } else {
                lemma_tdiv_bounds(std_val * (100 * SCALE as int), -(mean as int));
                lemma_tdiv_bounds(-(std_val * (100 * SCALE as int)), -(mean as int));
            }
        }
        clamp_range(div_trunc_any(std_val * (100 * SCALE), mean))
    } else {
        0
    };
    let sorted = sort_values(values);
    proof {
        lemma_sorted_in_limits(sorted@, values@);
    }
    let median: i128 = if n % 2 == 0 {
        div_trunc_any(sorted[n / 2 - 1] + sorted[n / 2], 2)
    } else {
        sorted[n / 2]
    };
    let q25 = sorted[n / 4];
    let q75 = sorted[(3 * n) / 4];
    let minimum = sorted[0];
    let maximum = sorted[n - 1];
    let mut positive = true;
    let mut i: usize = 0;
    while i < values.len()
        invariant
            0 <= i <= values@.len(),
            positive == (forall|k: int| 0 <= k < i ==> #[trigger] values@[k] > 0),
        decreases values@.len() - i,
    {
        if values[i] <= 0 {
            positive = false;
        }
        i = i + 1;
    }
    let (geometric_mean, geometric_cv_percent) = if positive {
        let (gm, gcv) = geometric_stats(values);
        (Some(gm), Some(gcv))
    } else {
        (None, None)
    };
    ParameterStats {
        n,
        mean,
        arithmetic_mean: mean,
        arithmetic_std: std_val,
        arithmetic_cv_percent: cv,
        std_dev: std_val,
        cv_percent: cv,
        median,
        q25,
        q75,
        min: minimum,
        max: maximum,
        geometric_mean,
        geometric_cv_percent,
    }
}

/// A sorted permutation of in-range values is itself in range (weak form:
/// used only to keep the median's sum inside i128).
proof fn lemma_sorted_in_limits(s: Seq<i128>, vals: Seq<i128>)
    requires
        s.to_multiset() == vals.to_multiset(),
        forall|i: int| 0 <= i < vals.len() ==> in_range(#[trigger] vals[i] as int),
    ensures
        forall|i: int| 0 <= i < s.len() ==> in_range(#[trigger] s[i] as int),
{
    assert forall|i: int| 0 <= i < s.len() implies in_range(#[trigger] s[i] as int) by {
        vstd::seq_lib::to_multiset_contains(s, s[i]);
        vstd::seq_lib::to_multiset_contains(vals, s[i]);
        assert(s.contains(s[i]));
        assert(vals.contains(s[i]));
        let j = choose|j: int| 0 <= j < vals.len() && vals[j] == s[i];
        assert(in_range(vals[j] as int));
    }
}

/// The sum of at most MAX_SUBJECTS in-range values.
fn sum_in_range(values: &Vec<i128>) -> (r: i128)
    requires
        values@.len() <= MAX_SUBJECTS as int,
        forall|i: int| 0 <= i < values@.len() ==> in_range(#[trigger] values@[i] as int),
    ensures
        r == sum_vals(values@),
        -(MAX_SUBJECTS as int) * (VAL_LIMIT as int) <= r <= (MAX_SUBJECTS as int) * (
        VAL_LIMIT as int),
{
    let mut acc: i128 = 0;
    let mut i: usize = 0;
    proof {
        assert(values@.take(0) =~= Seq::<i128>::empty());
    }
    while i < values.len()
        invariant
            0 <= i <= values@.len(),
            values@.len() <= MAX_SUBJECTS as int,
            forall|k: int| 0 <= k < values@.len() ==> in_range(#[trigger] values@[k] as int),
            acc == sum_vals(values@.take(i as int)),
            -(i as int) * (VAL_LIMIT as int) <= acc <= (i as int) * (VAL_LIMIT as int),
        decreases values@.len() - i,
    {
        proof {
            assert(values@.take(i as int + 1).drop_last() =~= values@.take(i as int));
            assert((i as int) * (VAL_LIMIT as int) + VAL_LIMIT as int == (i as int + 1) * (
            VAL_LIMIT as int)) by (nonlinear_arith);
            assert((i as int + 1) * (VAL_LIMIT as int) <= (MAX_SUBJECTS as int) * (
            VAL_LIMIT as int)) by (nonlinear_arith)
                requires
                    i as int + 1 <= MAX_SUBJECTS as int,
            ;
        }
        acc = acc + values[i];
        i = i + 1;
    }
    proof {
        assert(values@.take(values@.len() as int) =~= values@);
        assert((values@.len() as int) * (VAL_LIMIT as int) <= (MAX_SUBJECTS as int) * (
        VAL_LIMIT as int)) by (nonlinear_arith)
            requires
                values@.len() as int <= MAX_SUBJECTS as int,
        ;
    }
    acc
}

/// Sample standard deviation around a given center, clamped into range:
/// exactly `std_spec`. Zero when fewer than two values exist.
fn std_dev_of(values: &Vec<i128>, center: i128) -> (r: i128)
    requires
        values@.len() <= MAX_SUBJECTS as int,
        forall|i: int| 0 <= i < values@.len() ==> in_range(#[trigger] values@[i] as int),
        in_range(center as int),
    ensures
        0 <= r,
        in_range(r as int),
        r == std_spec(values@, center as int),
{
    let n = values.len();
    if n < 2 {
        return 0;
    }
    let ss = sq_dev_total(values, center);
    proof {
        assert((values@.len() as int) * 4_000_000_000_000_000_000_000_000_000_000int <= (
        MAX_SUBJECTS as int) * 4_000_000_000_000_000_000_000_000_000_000int) by (nonlinear_arith)
            requires
                values@.len() as int <= MAX_SUBJECTS as int,
        ;
        lemma_tdiv_bounds(ss as int, n as int - 1);
    }
    let var = clamp_range(div_trunc(ss, (n - 1) as i128));
    proof {
        assert(0 <= var * SCALE <= (VAL_LIMIT as int) * (SCALE as int)) by (nonlinear_arith)
            requires
                0 <= var <= VAL_LIMIT,
        ;
    }
    let s = isqrt(var * SCALE);
    proof {
        lemma_isqrt_le(s as int, (var * SCALE) as int);
    }
    clamp_range(s)
}


/// Sum the scaled squared deviations from a center (the shared loop of the
/// standard deviation and the sample variance).
fn sq_dev_total(values: &Vec<i128>, center: i128) -> (r: i128)
    requires
        values@.len() <= MAX_SUBJECTS as int,
        forall|i: int| 0 <= i < values@.len() ==> in_range(#[trigger] values@[i] as int),
        in_range(center as int),
    ensures
        r == sq_dev_sum(values@, center as int),
        0 <= r <= (values@.len() as int) * 4_000_000_000_000_000_000_000_000_000_000int,
{
    let mut ss: i128 = 0;
    let mut i: usize = 0;
    proof {
        assert(values@.take(0) =~= Seq::<i128>::empty());
    }
    while i < values.len()
        invariant
            0 <= i <= values@.len(),
            values@.len() <= MAX_SUBJECTS as int,
            forall|k: int| 0 <= k < values@.len() ==> in_range(#[trigger] values@[k] as int),
            in_range(center as int),
            ss == sq_dev_sum(values@.take(i as int), center as int),
            0 <= ss <= (i as int) * 4_000_000_000_000_000_000_000_000_000_000int,
        decreases values@.len() - i,
    {
        proof {
            assert(values@.take(i as int + 1).drop_last() =~= values@.take(i as int));
            assert(values@.take(i as int + 1).last() == values@[i as int]);
        }
        let d = values[i] - center;
        proof {
            assert(0 <= d * d <= 4_000_000_000_000_000_000_000_000_000_000_000_000int)
                by (nonlinear_arith)
                requires
                    -2_000_000_000_000_000_000i128 <= d <= 2_000_000_000_000_000_000i128,
            ;
        }
        let sq = d * d;
        proof {
            lemma_tdiv_bounds(sq as int, SCALE as int);
            vstd::arithmetic::div_mod::lemma_div_is_ordered(
                sq as int,
                4_000_000_000_000_000_000_000_000_000_000_000_000int,
                SCALE as int,
            );
            assert((i as int) * 4_000_000_000_000_000_000_000_000_000_000int
                + 4_000_000_000_000_000_000_000_000_000_000int == (i as int + 1)
                * 4_000_000_000_000_000_000_000_000_000_000int) by (nonlinear_arith);
            assert((i as int + 1) * 4_000_000_000_000_000_000_000_000_000_000int <= (
            MAX_SUBJECTS as int) * 4_000_000_000_000_000_000_000_000_000_000int)
                by (nonlinear_arith)
                requires
                    i as int + 1 <= MAX_SUBJECTS as int,
            ;
        }
        ss = ss + div_trunc(sq, SCALE);
        i = i + 1;
    }
    proof {
        assert(values@.take(values@.len() as int) =~= values@);
    }
    ss
}

/// An integer square root of a bounded value is bounded.
proof fn lemma_isqrt_le(r: int, x: int)
    requires
        r >= 0,
        r * r <= x,
        x <= 0x1_0000_0000_0000_0000_0000_0000int,
    ensures
        r <= 0x1_0000_0000_0000int,
{
    if r > 0x1_0000_0000_0000int {
        assert(r * r > 0x1_0000_0000_0000_0000_0000_0000int) by (nonlinear_arith)
            requires
                r > 0x1_0000_0000_0000int,
        ;
    }
}

/// Geometric mean and geometric CV% over strictly positive values, through
/// the fixed-point logarithm and saturating exponential: exactly
/// `geo_mean_spec` and `geo_cv_spec`.
fn geometric_stats(values: &Vec<i128>) -> (r: (i128, i128))
    requires
        1 <= values@.len() <= MAX_SUBJECTS as int,
        forall|i: int| 0 <= i < values@.len() ==> in_range(#[trigger] values@[i] as int),
    ensures
        0 <= r.0 <= VAL_LIMIT,
        0 <= r.1,
        in_range(r.1 as int),
        r.0 == geo_mean_spec(values@),
        r.1 == geo_cv_spec(values@),
{
    let n = values.len();
    let mut lns: Vec<i128> = Vec::new();
    let mut i: usize = 0;
    proof {
        assert(lns@ =~= ln_list(values@).take(0));
    }
    while i < values.len()
        invariant
            0 <= i <= values@.len(),
            values@.len() <= MAX_SUBJECTS as int,
            forall|k: int| 0 <= k < values@.len() ==> in_range(#[trigger] values@[k] as int),
            lns@.len() == i,
            lns@ == ln_list(values@).take(i as int),
            forall|k: int|
                0 <= k < i ==> -(LN_ABS_BOUND as int) <= #[trigger] lns@[k] <= LN_ABS_BOUND as int,
        decreases values@.len() - i,
    {
        let v = values[i];
        let l = if v >= 1 {
            ln_fixed(v)
        } else {
            0
        };
        lns.push(l);
        proof {
            assert(lns@ =~= ln_list(values@).take(i as int + 1));
        }
        i = i + 1;
    }
    proof {
        assert forall|k: int| 0 <= k < lns@.len() implies in_range(#[trigger] lns@[k] as int) by {
            assert(-(LN_ABS_BOUND as int) <= lns@[k] <= LN_ABS_BOUND as int);
        }
    }
    proof {
        assert(ln_list(values@).take(values@.len() as int) =~= ln_list(values@));
    }
    let ln_total = sum_in_range(&lns);
    proof {
        lemma_tdiv_bounds(ln_total as int, n as int);
        lemma_tdiv_bounds(-(ln_total as int), n as int);
    }
    let ln_mean = clamp_range(div_trunc_any(ln_total, n as i128));
    let ln_std = std_dev_of(&lns, ln_mean);
    let gm = exp_sat(ln_mean);
    proof {
        assert(0 <= ln_std * ln_std <= (VAL_LIMIT as int) * (VAL_LIMIT as int))
            by (nonlinear_arith)
            requires
                0 <= ln_std <= VAL_LIMIT,
        ;
        lemma_tdiv_bounds((ln_std * ln_std) as int, SCALE as int);
    }
    let s2 = clamp_range(div_trunc(ln_std * ln_std, SCALE));
    let e = exp_sat(s2);
    let spread = if e > SCALE {
        e - SCALE
    } else {
        0
    };
    proof {
        assert(0 <= spread * SCALE <= (VAL_LIMIT as int) * (SCALE as int)) by (nonlinear_arith)
            requires
                0 <= spread <= VAL_LIMIT,
        ;
    }
    let root = isqrt(spread * SCALE);
    proof {
        lemma_isqrt_le(root as int, (spread * SCALE) as int);
    }
    let gcv = clamp_range(root * 100);
    (gm, gcv)
}


/// The clamped arithmetic mean of a list of in-range values.
pub fn mean_of(values: &Vec<i128>) -> (r: i128)
    requires
        values@.len() <= MAX_SUBJECTS as int,
        forall|i: int| 0 <= i < values@.len() ==> in_range(#[trigger] values@[i] as int),
    ensures
        in_range(r as int),
        values@.len() > 0 ==> r == clamp_spec(mean_spec(values@)),
        values@.len() == 0 ==> r == 0,
{
    if values.len() == 0 {
        return 0;
    }
    let total = sum_in_range(values);
    proof {
        lemma_tdiv_bounds(total as int, values@.len() as int);
        lemma_tdiv_bounds(-(total as int), values@.len() as int);
    }
    clamp_range(div_trunc_any(total, values.len() as i128))
}

/// The clamped sample variance around the clamped mean; zero below two
/// values. The exec computation matches this exactly.
pub open spec fn variance_spec(s: Seq<i128>) -> int {
    if s.len() < 2 {
        0
    } else {
        let c = clamp_spec(mean_spec(s));
        let v = clamp_spec(tdiv(sq_dev_sum(s, c), s.len() - 1));
        if v < 0 {
            0
        } else {
            v
        }
    }
}

/// The clamped sample variance of a list of in-range values; zero below two
/// values.
pub fn sample_variance(values: &Vec<i128>) -> (r: i128)
    requires
        values@.len() <= MAX_SUBJECTS as int,
        forall|i: int| 0 <= i < values@.len() ==> in_range(#[trigger] values@[i] as int),
    ensures
        0 <= r <= VAL_LIMIT,
        r == variance_spec(values@),
{
    let n = values.len();
    if n < 2 {
        return 0;
    }
    let center = mean_of(values);
    let ss = sq_dev_total(values, center);
    proof {
        assert((values@.len() as int) * 4_000_000_000_000_000_000_000_000_000_000int <= (
        MAX_SUBJECTS as int) * 4_000_000_000_000_000_000_000_000_000_000int) by (nonlinear_arith)
            requires
                values@.len() as int <= MAX_SUBJECTS as int,
        ;
        lemma_tdiv_bounds(ss as int, n as int - 1);
    }
    clamp_range(div_trunc(ss, (n - 1) as i128))
}

} // verus!
