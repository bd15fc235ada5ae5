//! AUC / AUMC integration under the four trapezoidal schemes and the three
//! below-limit-of-quantification policies, with infinite-horizon
//! extrapolation.

use vstd::prelude::*;
use crate::errors::NcaError;
use crate::fixed::{in_range, lemma_tdiv_bounds, tdiv, tdiv_any, VAL_LIMIT};
use crate::math::ln_fixed_spec;
use crate::math::ln_fixed;
use crate::models::{method_key, method_key_spec, obs_in_range, AnalysisConfig, AucMethod, LloqHandling, Observation, MAX_CONC, MAX_OBS, MAX_TIME};
use crate::SCALE;

verus! {

/// Largest magnitude of one linear trapezoid term under in-range inputs.
pub const PAIR_MAX: i128 = 1_000_000_000_000_000;

/// Contribution of the pair (a, b) under the linear trapezoidal rule.
pub open spec fn lin_pair(a: Observation, b: Observation) -> int {
    if b.time <= a.time {
        0
    } else {
        tdiv((b.time - a.time) * (a.concentration + b.concentration), 2 * SCALE as int)
    }
}

/// Contribution of a positive declining-or-not pair under the log rule,
/// falling back to linear when the fixed-point logs coincide.
pub open spec fn log_core(a: Observation, b: Observation) -> int {
    let l1 = ln_fixed_spec(a.concentration as int);
    let l2 = ln_fixed_spec(b.concentration as int);
    if l1 == l2 {
        tdiv((b.time - a.time) * (a.concentration + b.concentration), 2 * SCALE as int)
    } else {
        tdiv_any((b.time - a.time) * (a.concentration - b.concentration), l1 - l2)
    }
}

/// Contribution of (a, b) under the log trapezoidal rule: pairs with a
/// non-positive end are skipped entirely.
pub open spec fn log_pair(a: Observation, b: Observation) -> int {
    if b.time <= a.time || a.concentration <= 0 || b.concentration <= 0 {
        0
    } else {
        log_core(a, b)
    }
}

/// Contribution of (a, b) under the linear-log hybrid: log only while
/// declining and positive, else linear.
pub open spec fn linlog_pair(a: Observation, b: Observation) -> int {
    if b.time <= a.time {
        0
    } else if a.concentration > 0 && b.concentration > 0 && b.concentration < a.concentration {
        log_core(a, b)
    } else {
        tdiv((b.time - a.time) * (a.concentration + b.concentration), 2 * SCALE as int)
    }
}

/// Contribution of (a, b) under linear-up / log-down.
pub open spec fn updown_pair(a: Observation, b: Observation) -> int {
    if b.time <= a.time {
        0
    } else if b.concentration >= a.concentration {
        tdiv((b.time - a.time) * (a.concentration + b.concentration), 2 * SCALE as int)
    } else if a.concentration > 0 && b.concentration > 0 {
        log_core(a, b)
    } else {
        tdiv((b.time - a.time) * (a.concentration + b.concentration), 2 * SCALE as int)
    }
}

/// Contribution of (a, b) to the area under the first-moment curve.
pub open spec fn aumc_pair(a: Observation, b: Observation) -> int {
    if b.time <= a.time {
        0
    } else {
        tdiv(
            (b.time - a.time) * (a.time * a.concentration + b.time * b.concentration),
            2 * SCALE as int * SCALE as int,
        )
    }
}

/// Which pair rule a method applies.
pub open spec fn method_pair(m: AucMethod, a: Observation, b: Observation) -> int {
    match m {
        AucMethod::LinearTrapezoidal => lin_pair(a, b),
        AucMethod::LogTrapezoidal => log_pair(a, b),
        AucMethod::LinearLogTrapezoidal => linlog_pair(a, b),
        AucMethod::LinearUpLogDown => updown_pair(a, b),
    }
}

/// Sum of a method's pair contributions over the first k observations.
pub open spec fn auc_upto(m: AucMethod, obs: Seq<Observation>, k: int) -> int
    decreases k,
{
    if k <= 1 {
        0
    } else {
        auc_upto(m, obs, k - 1) + method_pair(m, obs[k - 2], obs[k - 1])
    }
}

/// The AUC a method assigns to a whole series.
pub open spec fn auc_value(m: AucMethod, obs: Seq<Observation>) -> int {
    auc_upto(m, obs, obs.len() as int)
}

/// Sum of the moment-curve contributions over the first k observations.
pub open spec fn aumc_upto(obs: Seq<Observation>, k: int) -> int
    decreases k,
{
    if k <= 1 {
        0
    } else {
        aumc_upto(obs, k - 1) + aumc_pair(obs[k - 2], obs[k - 1])
    }
}

/// The AUMC of a whole series (always the linear-trapezoidal analogue).
pub open spec fn aumc_value(obs: Seq<Observation>) -> int {
    aumc_upto(obs, obs.len() as int)
}

/// The observation an entry becomes under a BLQ substitution policy, as a
/// (possibly empty) one-element sequence.
pub open spec fn blq_one(o: Observation, h: LloqHandling) -> Seq<Observation> {
    if !o.bloq {
        seq![o]
    } else {
        match h {
            LloqHandling::Drop => Seq::empty(),
            LloqHandling::Zero => seq![
                Observation {
                    time: o.time,
                    concentration: 0,
                    lloq: o.lloq,
                    bloq: o.bloq,
                    evid: o.evid,
                    dv: o.dv,
                },
            ],
            LloqHandling::HalfLloq => seq![
                Observation {
                    time: o.time,
                    concentration: tdiv(
                        if o.lloq is Some {
                            o.lloq->0 as int
                        } else {
                            0
                        },
                        2,
                    ) as i128,
                    lloq: o.lloq,
                    bloq: o.bloq,
                    evid: o.evid,
                    dv: o.dv,
                },
            ],
        }
    }
}

/// The whole series after BLQ substitution.
pub open spec fn blq_filter(obs: Seq<Observation>, h: LloqHandling) -> Seq<Observation>
    decreases obs.len(),
{
    if obs.len() == 0 {
        Seq::empty()
    } else {
        blq_filter(obs.drop_last(), h) + blq_one(obs.last(), h)
    }
}

/// One observation's quantifiability flag: positive concentration, not BLQ.
pub open spec fn quant_flag(o: Observation) -> int {
    if o.concentration > 0 && !o.bloq {
        1
    } else {
        0
    }
}

/// Number of quantifiable observations: positive concentration, not BLQ.
pub open spec fn count_quantifiable(obs: Seq<Observation>) -> int
    decreases obs.len(),
{
    if obs.len() == 0 {
        0
    } else {
        count_quantifiable(obs.drop_last()) + quant_flag(obs.last())
    }
}

/// Removing one observation removes exactly its flag from the count.
proof fn lemma_count_quant_remove(s: Seq<Observation>, i: int)
    requires
        0 <= i < s.len(),
    ensures
        count_quantifiable(s.remove(i)) == count_quantifiable(s) - quant_flag(s[i]),
    decreases s.len(),
{
    if i == s.len() - 1 {
        assert(s.remove(i) =~= s.drop_last());
    } else {
        assert(s.remove(i).drop_last() =~= s.drop_last().remove(i));
        assert(s.remove(i).last() == s.last());
        lemma_count_quant_remove(s.drop_last(), i);
    }
}

/// The quantifiable count depends only on the multiset of observations:
/// any permutation has the same count.
pub proof fn lemma_count_quant_permutation(a: Seq<Observation>, b: Seq<Observation>)
    requires
        a.to_multiset() == b.to_multiset(),
    ensures
        count_quantifiable(a) == count_quantifiable(b),
    decreases a.len(),
{
    vstd::seq_lib::to_multiset_len(a);
    vstd::seq_lib::to_multiset_len(b);
    if a.len() == 0 {
        assert(b.len() == 0);
    } else {
        let x = a.last();
        let a2 = a.drop_last();
        assert(a.contains(x));
        vstd::seq_lib::to_multiset_contains(a, x);
        vstd::seq_lib::to_multiset_contains(b, x);
        assert(b.contains(x));
        let i = choose|i: int| 0 <= i < b.len() && b[i] == x;
        let b2 = b.remove(i);
        assert(a.remove(a.len() - 1) =~= a2);
        vstd::seq_lib::to_multiset_remove(a, a.len() - 1);
        vstd::seq_lib::to_multiset_remove(b, i);
        assert(a2.to_multiset() == b2.to_multiset());
        lemma_count_quant_permutation(a2, b2);
        lemma_count_quant_remove(b, i);
    }
}

/// BLQ substitution keeps in-range observations in range, keeps at least
/// every quantifiable point, and never grows the series.
pub proof fn lemma_blq_filter_shape(obs: Seq<Observation>, h: LloqHandling)
    requires
        forall|i: int| 0 <= i < obs.len() ==> obs_in_range(#[trigger] obs[i]),
    ensures
        blq_filter(obs, h).len() <= obs.len(),
        count_quantifiable(obs) <= blq_filter(obs, h).len(),
        forall|i: int|
            0 <= i < blq_filter(obs, h).len() ==> obs_in_range(#[trigger] blq_filter(obs, h)[i]),
        0 <= count_quantifiable(obs) <= obs.len(),
    decreases obs.len(),
{
    if obs.len() > 0 {
        let rest = obs.drop_last();
        assert(forall|i: int| 0 <= i < rest.len() ==> obs_in_range(#[trigger] rest[i]));
        lemma_blq_filter_shape(rest, h);
        let last = obs.last();
        if last.bloq && h == LloqHandling::HalfLloq {
            let l: int = if last.lloq is Some {
                last.lloq->0 as int
            } else {
                0
            };
            lemma_tdiv_bounds(l, 2);
        }
    }
}

/// Bound of a single pair contribution, for in-range observations.
pub proof fn lemma_pair_bounds(m: AucMethod, a: Observation, b: Observation)
    requires
        obs_in_range(a),
        obs_in_range(b),
    ensures
        -(PAIR_MAX as int) <= lin_pair(a, b) <= PAIR_MAX as int,
        -2_000_000_000_000_000_000_000int <= method_pair(m, a, b)
            <= 2_000_000_000_000_000_000_000int,
        -(VAL_LIMIT as int) <= aumc_pair(a, b) <= VAL_LIMIT as int,
{
    let dt = b.time - a.time;
    if b.time > a.time {
        let csum = a.concentration + b.concentration;
        let cdiff = a.concentration - b.concentration;
        assert(-(2_000_000_000_000_000_000_000int) <= dt * csum <= 2_000_000_000_000_000_000_000int)
            by (nonlinear_arith)
            requires
                0 < dt <= MAX_TIME as int,
                -2 * MAX_CONC as int <= csum <= 2 * MAX_CONC as int,
        ;
        assert(-(2_000_000_000_000_000_000_000int) <= dt * cdiff
            <= 2_000_000_000_000_000_000_000int) by (nonlinear_arith)
            requires
                0 < dt <= MAX_TIME as int,
                -2 * MAX_CONC as int <= cdiff <= 2 * MAX_CONC as int,
        ;
        lemma_tdiv_bounds(dt * csum, 2 * SCALE as int);
        vstd::arithmetic::div_mod::lemma_div_is_ordered(dt * csum, 2_000_000_000_000_000_000_000int, 2 * SCALE as int);
        vstd::arithmetic::div_mod::lemma_div_is_ordered(-(dt * csum), 2_000_000_000_000_000_000_000int, 2 * SCALE as int);
        vstd::arithmetic::div_mod::lemma_div_by_multiple(PAIR_MAX as int, 2 * SCALE as int);
        assert(2_000_000_000_000_000_000_000int == PAIR_MAX as int * (2 * SCALE as int))
            by (nonlinear_arith);
        let l1 = ln_fixed_spec(a.concentration as int);
        let l2 = ln_fixed_spec(b.concentration as int);
        if l1 != l2 {
            if l1 - l2 > 0 {
                lemma_tdiv_bounds(dt * cdiff, l1 - l2);
            } else {
                lemma_tdiv_bounds(dt * cdiff, -(l1 - l2));
            }
        }
        assert(-1_000_000_000_000_000_000_000int <= a.time * a.concentration
            <= 1_000_000_000_000_000_000_000int) by (nonlinear_arith)
            requires
                0 <= a.time <= MAX_TIME as int,
                -(MAX_CONC as int) <= a.concentration <= MAX_CONC as int,
        ;
        assert(-1_000_000_000_000_000_000_000int <= b.time * b.concentration
            <= 1_000_000_000_000_000_000_000int) by (nonlinear_arith)
            requires
                0 <= b.time <= MAX_TIME as int,
                -(MAX_CONC as int) <= b.concentration <= MAX_CONC as int,
        ;
        let mom = a.time * a.concentration + b.time * b.concentration;
        let prod = dt * mom;
        assert(-2_000_000_000_000_000_000_000_000_000_000int <= prod
            <= 2_000_000_000_000_000_000_000_000_000_000int) by (nonlinear_arith)
            requires
                prod == dt * mom,
                0 < dt,
                dt <= 1_000_000_000int,
                -2_000_000_000_000_000_000_000int <= mom,
                mom <= 2_000_000_000_000_000_000_000int,
        ;
        lemma_tdiv_bounds(prod, 2 * SCALE as int * SCALE as int);
        vstd::arithmetic::div_mod::lemma_div_is_ordered(prod, 2_000_000_000_000_000_000_000_000_000_000int, 2 * SCALE as int * SCALE as int);
        vstd::arithmetic::div_mod::lemma_div_is_ordered(-prod, 2_000_000_000_000_000_000_000_000_000_000int, 2 * SCALE as int * SCALE as int);
        vstd::arithmetic::div_mod::lemma_div_by_multiple(VAL_LIMIT as int, 2 * SCALE as int * SCALE as int);
        assert(2_000_000_000_000_000_000_000_000_000_000int == VAL_LIMIT as int * (2 * SCALE as int * SCALE as int))
            by (nonlinear_arith);
    }
}

pub struct AucCalculator;

impl AucCalculator {
    /// The AUC of each configured method over the BLQ-substituted series,
    /// keyed by the method's stable label, in configuration order.
    pub fn calculate_all_methods(
        observations: &Vec<Observation>,
        config: &AnalysisConfig,
    ) -> (r: Result<Vec<(String, i128)>, NcaError>)
        requires
            observations@.len() <= MAX_OBS as int,
            forall|i: int|
                0 <= i < observations@.len() ==> obs_in_range(#[trigger] observations@[i]),
        ensures
            match r {
                Ok(v) => {
                    let filtered = blq_filter(observations@, config.lloq_handling);
                    &&& filtered.len() >= 2
                    &&& v@.len() == config.auc_methods@.len()
                    &&& forall|i: int|
                        0 <= i < v@.len() ==> (#[trigger] v@[i]).0@ == method_key_spec(
                            config.auc_methods@[i],
                        ) && v@[i].1 == auc_value(config.auc_methods@[i], filtered) && in_range(
                            v@[i].1 as int,
                        )
                },
                Err(e) => {
                    let filtered = blq_filter(observations@, config.lloq_handling);
                    ||| (filtered.len() < 2 && e matches NcaError::InsufficientData(_))
                    ||| ((e matches NcaError::MathError(_)) && exists|i: int|
                        0 <= i < config.auc_methods@.len() && !in_range(
                            auc_value(#[trigger] config.auc_methods@[i], filtered),
                        ))
                },
            },
    {
        let filtered = Self::filter_observations(observations, &config.lloq_handling);
        if filtered.len() < 2 {
            return Err(
                NcaError::InsufficientData(
                    "Need at least 2 data points for AUC calculation".to_owned(),
                ),
            );
        }
        let mut results: Vec<(String, i128)> = Vec::new();
        let mut j: usize = 0;
        while j < config.auc_methods.len()
            invariant
                observations@.len() <= MAX_OBS as int,
                forall|i: int|
                    0 <= i < observations@.len() ==> obs_in_range(#[trigger] observations@[i]),
                filtered@ == blq_filter(observations@, config.lloq_handling),
                filtered@.len() >= 2,
                forall|i: int| 0 <= i < filtered@.len() ==> obs_in_range(#[trigger] filtered@[i]),
                filtered@.len() <= MAX_OBS as int,
                0 <= j <= config.auc_methods@.len(),
                results@.len() == j,
                forall|i: int|
                    0 <= i < j ==> (#[trigger] results@[i]).0@ == method_key_spec(
                        config.auc_methods@[i],
                    ) && results@[i].1 == auc_value(config.auc_methods@[i], filtered@) && in_range(
                        results@[i].1 as int,
                    ),
            decreases config.auc_methods@.len() - j,
        {
            let m = config.auc_methods[j];
            let v = match Self::method_auc(&filtered, &m) {
                Ok(v) => v,
                Err(e) => {
                    return Err(e);
                },
            };
            results.push((method_key(&m), v));
            j = j + 1;
        }
        Ok(results)
    }

    /// Apply the BLQ substitution policy: drop, zero, or half the LLOQ.
    pub fn filter_observations(
        observations: &Vec<Observation>,
        lloq_handling: &LloqHandling,
    ) -> (r: Vec<Observation>)
        requires
            forall|i: int|
                0 <= i < observations@.len() ==> obs_in_range(#[trigger] observations@[i]),
        ensures
            r@ == blq_filter(observations@, *lloq_handling),
            r@.len() <= observations@.len(),
            forall|i: int| 0 <= i < r@.len() ==> obs_in_range(#[trigger] r@[i]),
    {
        let mut out: Vec<Observation> = Vec::new();
        let mut i: usize = 0;
        while i < observations.len()
            invariant
                0 <= i <= observations@.len(),
                forall|k: int|
                    0 <= k < observations@.len() ==> obs_in_range(#[trigger] observations@[k]),
                out@ == blq_filter(observations@.take(i as int), *lloq_handling),
            decreases observations@.len() - i,
        {
            let o = observations[i];
            proof {
                assert(observations@.take(i as int + 1).drop_last() =~= observations@.take(
                    i as int,
                ));
                assert(observations@.take(i as int + 1).last() == observations@[i as int]);
            }
            if !o.bloq {
                out.push(o);
            } else {
                match lloq_handling {
                    LloqHandling::Drop => {},
                    LloqHandling::Zero => {
                        out.push(
                            Observation {
                                time: o.time,
                                concentration: 0,
                                lloq: o.lloq,
                                bloq: o.bloq,
                                evid: o.evid,
                                dv: o.dv,
                            },
                        );
                    },
                    LloqHandling::HalfLloq => {
                        let l = match o.lloq {
                            Some(l) => l,
                            None => 0,
                        };
                        proof {
                            lemma_tdiv_bounds(l as int, 2);
                        }
                        out.push(
                            Observation {
                                time: o.time,
                                concentration: l / 2,
                                lloq: o.lloq,
                                bloq: o.bloq,
                                evid: o.evid,
                                dv: o.dv,
                            },
                        );
                    },
                }
            }
            proof {
                assert(out@ =~= blq_filter(observations@.take(i as int + 1), *lloq_handling));
            }
            i = i + 1;
        }
        proof {
            assert(observations@.take(observations@.len() as int) =~= observations@);
            lemma_blq_filter_shape(observations@, *lloq_handling);
        }
        out
    }

    /// One method's AUC over an already substituted series.
    fn method_auc(obs: &Vec<Observation>, m: &AucMethod) -> (r: Result<i128, NcaError>)
        requires
            obs@.len() <= MAX_OBS as int,
            forall|i: int| 0 <= i < obs@.len() ==> obs_in_range(#[trigger] obs@[i]),
        ensures
            match r {
                Ok(v) => v == auc_value(*m, obs@) && in_range(v as int),
                Err(e) => !in_range(auc_value(*m, obs@)) && (e matches NcaError::MathError(_)),
            },
    {
        let mut acc: i128 = 0;
        let mut i: usize = 1;
        if obs.len() < 2 {
            return Ok(0);
        }
        while i < obs.len()
            invariant
                1 <= i <= obs@.len(),
                obs@.len() <= MAX_OBS as int,
                forall|k: int| 0 <= k < obs@.len() ==> obs_in_range(#[trigger] obs@[k]),
                acc == auc_upto(*m, obs@, i as int),
                -(i as int) * 2_000_000_000_000_000_000_000int <= acc <= (i as int)
                    * 2_000_000_000_000_000_000_000int,
            decreases obs@.len() - i,
        {
            let a = obs[i - 1];
            let b = obs[i];
            proof {
                lemma_pair_bounds(*m, a, b);
                assert((i as int) * 2_000_000_000_000_000_000_000int
                    + 2_000_000_000_000_000_000_000int == (i as int + 1)
                    * 2_000_000_000_000_000_000_000int) by (nonlinear_arith);
                assert((i as int + 1) * 2_000_000_000_000_000_000_000int <= 1001
                    * 2_000_000_000_000_000_000_000int) by (nonlinear_arith)
                    requires
                        i as int + 1 <= 1001,
                ;
                assert(-((i as int + 1) * 2_000_000_000_000_000_000_000int) >= -(1001
                    * 2_000_000_000_000_000_000_000int)) by (nonlinear_arith)
                    requires
                        i as int + 1 <= 1001,
                ;
            }
            let term = Self::pair_term(&a, &b, m);
            acc = acc + term;
            i = i + 1;
        }
        if -VAL_LIMIT <= acc && acc <= VAL_LIMIT {
            Ok(acc)
        } else {
            Err(NcaError::MathError("AUC outside the representable range".to_owned()))
        }
    }

    /// One pair's contribution under a method.
    fn pair_term(a: &Observation, b: &Observation, m: &AucMethod) -> (r: i128)
        requires
            obs_in_range(*a),
            obs_in_range(*b),
        ensures
            r == method_pair(*m, *a, *b),
            -2_000_000_000_000_000_000_000i128 <= r <= 2_000_000_000_000_000_000_000i128,
    {
        proof {
            lemma_pair_bounds(*m, *a, *b);
        }
        if b.time <= a.time {
            return 0;
        }
        let lin = Self::lin_term(a, b);
        match m {
            AucMethod::LinearTrapezoidal => lin,
            AucMethod::LogTrapezoidal => {
                if a.concentration <= 0 || b.concentration <= 0 {
                    0
                } else {
                    Self::log_term(a, b)
                }
            },
            AucMethod::LinearLogTrapezoidal => {
                if a.concentration > 0 && b.concentration > 0 && b.concentration
                    < a.concentration {
                    Self::log_term(a, b)
                } else {
                    lin
                }
            },
            AucMethod::LinearUpLogDown => {
                if b.concentration >= a.concentration {
                    lin
                } else if a.concentration > 0 && b.concentration > 0 {
                    Self::log_term(a, b)
                } else {
                    lin
                }
            },
        }
    }

    /// The linear trapezoid term for an increasing-time pair.
    fn lin_term(a: &Observation, b: &Observation) -> (r: i128)
        requires
            obs_in_range(*a),
            obs_in_range(*b),
            a.time < b.time,
        ensures
            r == tdiv((b.time - a.time) * (a.concentration + b.concentration), 2 * SCALE as int),
    {
        proof {
            assert(-2_000_000_000_000_000_000_000int <= (b.time - a.time) * (a.concentration
                + b.concentration) <= 2_000_000_000_000_000_000_000int) by (nonlinear_arith)
                requires
                    0 < b.time - a.time <= MAX_TIME as int,
                    -2 * MAX_CONC as int <= a.concentration + b.concentration <= 2 * MAX_CONC as int,
            ;
        }
        crate::fixed::div_trunc((b.time - a.time) * (a.concentration + b.concentration), 2 * SCALE)
    }

    /// The log trapezoid term for a positive pair, with the linear fallback
    /// when the fixed-point logs coincide.
    fn log_term(a: &Observation, b: &Observation) -> (r: i128)
        requires
            obs_in_range(*a),
            obs_in_range(*b),
            a.time < b.time,
            a.concentration > 0,
            b.concentration > 0,
        ensures
            r == log_core(*a, *b),
    {
        let l1 = ln_fixed(a.concentration);
        let l2 = ln_fixed(b.concentration);
        if l1 == l2 {
            Self::lin_term(a, b)
        } else {
            proof {
                assert(-2_000_000_000_000_000_000_000int <= (b.time - a.time) * (a.concentration
                    - b.concentration) <= 2_000_000_000_000_000_000_000int) by (nonlinear_arith)
                    requires
                        0 < b.time - a.time <= MAX_TIME as int,
                        -2 * MAX_CONC as int <= a.concentration - b.concentration <= 2
                            * MAX_CONC as int,
                ;
            }
            crate::fixed::div_trunc_any(
                (b.time - a.time) * (a.concentration - b.concentration),
                l1 - l2,
            )
        }
    }

    /// AUC extrapolated to infinity: AUC_last + Clast / lambda_z.
    pub fn calculate_auc_inf(auc_last: i128, clast: i128, lambda_z: i128) -> (r: Result<
        i128,
        NcaError,
    >)
        requires
            in_range(auc_last as int),
            in_range(clast as int),
            in_range(lambda_z as int),
        ensures
            match r {
                Ok(v) => lambda_z > 0 && v == auc_last + tdiv(
                    clast * SCALE as int,
                    lambda_z as int,
                ) && in_range(v as int),
                Err(e) => {
                    ||| (lambda_z <= 0 && e matches NcaError::CalculationError(_))
                    ||| (lambda_z > 0 && (e matches NcaError::MathError(_)) && !in_range(
                        auc_last + tdiv(clast * SCALE as int, lambda_z as int),
                    ))
                },
            },
    {
        if lambda_z <= 0 {
            return Err(
                NcaError::CalculationError(
                    "Lambda_z must be positive for AUC infinity calculation".to_owned(),
                ),
            );
        }
        proof {
            assert(-(VAL_LIMIT as int) * (SCALE as int) <= clast * SCALE as int <= (
            VAL_LIMIT as int) * (SCALE as int)) by (nonlinear_arith)
                requires
                    in_range(clast as int),
            ;
            lemma_tdiv_bounds(clast * SCALE as int, lambda_z as int);
        }
        let extrap = crate::fixed::div_trunc(clast * SCALE, lambda_z);
        let v = auc_last + extrap;
        if -VAL_LIMIT <= v && v <= VAL_LIMIT {
            Ok(v)
        } else {
            Err(NcaError::MathError("AUC_inf outside the representable range".to_owned()))
        }
    }

    /// AUMC over the observed series (linear trapezoidal analogue).
    pub fn calculate_aumc(observations: &Vec<Observation>) -> (r: Result<i128, NcaError>)
        requires
            observations@.len() <= MAX_OBS as int,
            forall|i: int|
                0 <= i < observations@.len() ==> obs_in_range(#[trigger] observations@[i]),
        ensures
            match r {
                Ok(v) => v == aumc_value(observations@) && in_range(v as int),
                Err(e) => !in_range(aumc_value(observations@)) && (e matches NcaError::MathError(_)),
            },
    {
        let mut acc: i128 = 0;
        let mut i: usize = 1;
        if observations.len() < 2 {
            return Ok(0);
        }
        while i < observations.len()
            invariant
                1 <= i <= observations@.len(),
                observations@.len() <= MAX_OBS as int,
                forall|k: int|
                    0 <= k < observations@.len() ==> obs_in_range(#[trigger] observations@[k]),
                acc == aumc_upto(observations@, i as int),
                -(i as int) * (VAL_LIMIT as int) <= acc <= (i as int) * (VAL_LIMIT as int),
            decreases observations@.len() - i,
        {
            let a = observations[i - 1];
            let b = observations[i];
            proof {
                lemma_pair_bounds(AucMethod::LinearTrapezoidal, a, b);
                assert((i as int) * (VAL_LIMIT as int) + VAL_LIMIT as int == (i as int + 1) * (
                VAL_LIMIT as int)) by (nonlinear_arith);
                assert((i as int + 1) * (VAL_LIMIT as int) <= 1001 * (VAL_LIMIT as int))
                    by (nonlinear_arith)
                    requires
                        i as int + 1 <= 1001,
                ;
                assert(-((i as int + 1) * (VAL_LIMIT as int)) >= -(1001 * (VAL_LIMIT as int)))
                    by (nonlinear_arith)
                    requires
                        i as int + 1 <= 1001,
                ;
            }
            let term = Self::aumc_term(&a, &b);
            acc = acc + term;
            i = i + 1;
        }
        if -VAL_LIMIT <= acc && acc <= VAL_LIMIT {
            Ok(acc)
        } else {
            Err(NcaError::MathError("AUMC outside the representable range".to_owned()))
        }
    }

    /// One pair's moment-curve contribution.
    fn aumc_term(a: &Observation, b: &Observation) -> (r: i128)
        requires
            obs_in_range(*a),
            obs_in_range(*b),
        ensures
            r == aumc_pair(*a, *b),
            -(VAL_LIMIT as int) <= r <= VAL_LIMIT as int,
    {
        proof {
            lemma_pair_bounds(AucMethod::LinearTrapezoidal, *a, *b);
        }
        if b.time <= a.time {
            return 0;
        }
        proof {
            assert(-1_000_000_000_000_000_000_000int <= a.time * a.concentration
                <= 1_000_000_000_000_000_000_000int) by (nonlinear_arith)
                requires
                    0 <= a.time <= MAX_TIME as int,
                    -(MAX_CONC as int) <= a.concentration <= MAX_CONC as int,
            ;
            assert(-1_000_000_000_000_000_000_000int <= b.time * b.concentration
                <= 1_000_000_000_000_000_000_000int) by (nonlinear_arith)
                requires
                    0 <= b.time <= MAX_TIME as int,
                    -(MAX_CONC as int) <= b.concentration <= MAX_CONC as int,
            ;
            assert(-2_000_000_000_000_000_000_000_000_000_000int <= (b.time - a.time) * (a.time
                * a.concentration + b.time * b.concentration)
                <= 2_000_000_000_000_000_000_000_000_000_000int) by (nonlinear_arith)
                requires
                    0 < b.time - a.time <= MAX_TIME as int,
                    -2_000_000_000_000_000_000_000int <= a.time * a.concentration + b.time
                        * b.concentration <= 2_000_000_000_000_000_000_000int,
            ;
        }
        crate::fixed::div_trunc(
            (b.time - a.time) * (a.time * a.concentration + b.time * b.concentration),
            2 * SCALE * SCALE,
        )
    }

    /// AUMC extrapolated to infinity:
    /// AUMC_last + Tlast * Clast / lambda_z + Clast / lambda_z^2.
    pub fn calculate_aumc_inf(aumc_last: i128, tlast: i128, clast: i128, lambda_z: i128) -> (r:
        Result<i128, NcaError>)
        requires
            in_range(aumc_last as int),
            in_range(tlast as int),
            in_range(clast as int),
            in_range(lambda_z as int),
        ensures
            match r {
                Ok(v) => lambda_z > 0 && v == aumc_last + tdiv(tlast * clast, lambda_z as int)
                    + tdiv(clast * SCALE as int * SCALE as int, lambda_z * lambda_z) && in_range(
                    v as int,
                ),
                Err(e) => {
                    ||| (lambda_z <= 0 && e matches NcaError::CalculationError(_))
                    ||| (lambda_z > 0 && (e matches NcaError::MathError(_)) && !in_range(
                        aumc_last + tdiv(tlast * clast, lambda_z as int) + tdiv(
                            clast * SCALE as int * SCALE as int,
                            lambda_z * lambda_z,
                        ),
                    ))
                },
            },
    {
        if lambda_z <= 0 {
            return Err(
                NcaError::CalculationError(
                    "Lambda_z must be positive for AUMC infinity calculation".to_owned(),
                ),
            );
        }
        proof {
            assert(-(VAL_LIMIT as int) * (VAL_LIMIT as int) <= tlast * clast <= (VAL_LIMIT as int)
                * (VAL_LIMIT as int)) by (nonlinear_arith)
                requires
                    in_range(tlast as int),
                    in_range(clast as int),
            ;
            lemma_tdiv_bounds(tlast * clast, lambda_z as int);
            assert(-(VAL_LIMIT as int) * (SCALE as int) * (SCALE as int) <= clast * SCALE as int
                * SCALE as int <= (VAL_LIMIT as int) * (SCALE as int) * (SCALE as int))
                by (nonlinear_arith)
                requires
                    in_range(clast as int),
            ;
            assert(1 <= lambda_z * lambda_z <= (VAL_LIMIT as int) * (VAL_LIMIT as int))
                by (nonlinear_arith)
                requires
                    0 < lambda_z,
                    in_range(lambda_z as int),
            ;
            lemma_tdiv_bounds(clast * SCALE as int * SCALE as int, lambda_z * lambda_z);
        }
        let term1 = crate::fixed::div_trunc(tlast * clast, lambda_z);
        let term2 = crate::fixed::div_trunc(clast * SCALE * SCALE, lambda_z * lambda_z);
        let v = aumc_last + term1 + term2;
        if -VAL_LIMIT <= v && v <= VAL_LIMIT {
            Ok(v)
        } else {
            Err(NcaError::MathError("AUMC_inf outside the representable range".to_owned()))
        }
    }
}

/// For any two-point series with increasing times, the linear-trapezoidal
/// AUC is exactly (t2 - t1) * (c1 + c2) / 2 in fixed point.
pub proof fn lemma_two_point_linear_auc(obs: Seq<Observation>)
    requires
        obs.len() == 2,
        obs[0].time < obs[1].time,
    ensures
        auc_value(AucMethod::LinearTrapezoidal, obs) == tdiv(
            (obs[1].time - obs[0].time) * (obs[0].concentration + obs[1].concentration),
            2 * SCALE as int,
        ),
{
    assert(auc_upto(AucMethod::LinearTrapezoidal, obs, 2) == auc_upto(
        AucMethod::LinearTrapezoidal,
        obs,
        1,
    ) + lin_pair(obs[0], obs[1]));
}

/// When concentrations never decrease along the series, the two hybrid
/// methods coincide with the linear trapezoidal method: both fall back to
/// the linear rule on every pair.
pub proof fn lemma_nondecreasing_hybrids_linear(obs: Seq<Observation>)
    requires
        forall|i: int| 0 <= i < obs.len() - 1 ==> #[trigger] obs[i].concentration <= obs[i + 1].concentration,
    ensures
        auc_value(AucMethod::LinearLogTrapezoidal, obs) == auc_value(
            AucMethod::LinearTrapezoidal,
            obs,
        ),
        auc_value(AucMethod::LinearUpLogDown, obs) == auc_value(AucMethod::LinearTrapezoidal, obs),
{
    lemma_nondecreasing_hybrids_upto(obs, obs.len() as int);
}

proof fn lemma_nondecreasing_hybrids_upto(obs: Seq<Observation>, k: int)
    requires
        k <= obs.len(),
        forall|i: int| 0 <= i < obs.len() - 1 ==> #[trigger] obs[i].concentration <= obs[i + 1].concentration,
    ensures
        auc_upto(AucMethod::LinearLogTrapezoidal, obs, k) == auc_upto(
            AucMethod::LinearTrapezoidal,
            obs,
            k,
        ),
        auc_upto(AucMethod::LinearUpLogDown, obs, k) == auc_upto(
            AucMethod::LinearTrapezoidal,
            obs,
            k,
        ),
    decreases k,
{
    if k > 1 {
        lemma_nondecreasing_hybrids_upto(obs, k - 1);
        assert(obs[k - 2].concentration <= obs[k - 1].concentration);
    }
}

/// When every consecutive pair holds equal concentrations, all four methods
/// coincide: the log rule either skips a pair both ways as zero area or
/// falls back to the linear rule on equal logs.
pub proof fn lemma_constant_series_all_methods(obs: Seq<Observation>)
    requires
        forall|i: int| 0 <= i < obs.len() - 1 ==> #[trigger] obs[i].concentration == obs[i + 1].concentration,
        forall|i: int| 0 <= i < obs.len() ==> #[trigger] obs[i].concentration >= 0,
    ensures
        auc_value(AucMethod::LogTrapezoidal, obs) == auc_value(AucMethod::LinearTrapezoidal, obs),
        auc_value(AucMethod::LinearLogTrapezoidal, obs) == auc_value(
            AucMethod::LinearTrapezoidal,
            obs,
        ),
        auc_value(AucMethod::LinearUpLogDown, obs) == auc_value(AucMethod::LinearTrapezoidal, obs),
{
    assert(forall|i: int|
        0 <= i < obs.len() - 1 ==> #[trigger] obs[i].concentration <= obs[i + 1].concentration);
    lemma_nondecreasing_hybrids_linear(obs);
    lemma_constant_log_upto(obs, obs.len() as int);
}

proof fn lemma_constant_log_upto(obs: Seq<Observation>, k: int)
    requires
        k <= obs.len(),
        forall|i: int| 0 <= i < obs.len() - 1 ==> #[trigger] obs[i].concentration == obs[i + 1].concentration,
        forall|i: int| 0 <= i < obs.len() ==> #[trigger] obs[i].concentration >= 0,
    ensures
        auc_upto(AucMethod::LogTrapezoidal, obs, k) == auc_upto(
            AucMethod::LinearTrapezoidal,
            obs,
            k,
        ),
    decreases k,
{
    if k > 1 {
        lemma_constant_log_upto(obs, k - 1);
        let a = obs[k - 2];
        let b = obs[k - 1];
        assert(a.concentration == b.concentration);
        if b.time > a.time && a.concentration > 0 {
            assert(log_pair(a, b) == lin_pair(a, b));
        } else if b.time > a.time {
            // The skipped pair has c1 == c2 == 0, so the linear term is a
            // zero area as well.
            assert(log_pair(a, b) == 0);
            assert((b.time - a.time) * (a.concentration + b.concentration) == 0)
                by (nonlinear_arith)
                requires
                    a.concentration + b.concentration == 0,
            ;
            assert(lin_pair(a, b) == tdiv(0, 2 * SCALE as int));
        }
    }
}

} // verus!
