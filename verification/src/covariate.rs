//! Covariate analysis: Pearson correlation with approximate p-values,
//! simple linear regression per covariate-parameter pair, and
//! dose-normalization with a fixed-threshold linearity conclusion.

use vstd::prelude::*;
use crate::approx::two_tailed_p;
use crate::fixed::{clamp_range, div_trunc, div_trunc_any, in_range, isqrt, lemma_tdiv_bounds, VAL_LIMIT};
use crate::models::{subject_wf, CovariateAnalysis, CovariateCorrelation, CovariateKind, DoseNormalizedAnalysis, LinearityAssessment, NcaResults, ParamKind, RegressionResults, Interval, Subject, MAX_COVARIATE, MAX_SUBJECTS};
use crate::stats::calculate_parameter_stats;
use crate::SCALE;

verus! {

/// Magnitude cap on parameter values entering the covariate sums, so that
/// the centered products stay inside i128.
pub const COV_VALUE_CAP: i128 = 100_000_000_000_000;

/// Two value lists read as a point sequence.
pub open spec fn zip_pts(x: Seq<i128>, y: Seq<i128>) -> Seq<(int, int)> {
    Seq::new(x.len(), |i: int| (x[i] as int, y[i] as int))
}

/// The Pearson correlation the analysis computes: the centered covariance
/// over the product of the two floor-rooted spreads, clamped into
/// [-SCALE, SCALE]; zero below two pairs or for a degenerate spread.
pub open spec fn pearson_spec(x: Seq<i128>, y: Seq<i128>) -> int {
    let pts = zip_pts(x, y);
    let n = x.len() as int;
    if n < 2 {
        0
    } else {
        let num = crate::regression::reg_num(pts);
        let dxx = crate::regression::reg_dxx(pts);
        let dyy = crate::regression::reg_dyy(pts);
        let denom = crate::fixed::sqrt_floor(
            if dxx < 0 {
                0
            } else {
                dxx
            },
        ) * crate::fixed::sqrt_floor(
            if dyy < 0 {
                0
            } else {
                dyy
            },
        );
        if denom <= 0 {
            0
        } else {
            let raw = crate::fixed::tdiv(num * SCALE as int, denom);
            if raw > SCALE as int {
                SCALE as int
            } else if raw < -(SCALE as int) {
                -(SCALE as int)
            } else {
                raw
            }
        }
    }
}

/// The demographic field a covariate reads.
pub open spec fn covariate_field(d: crate::models::Demographics, c: CovariateKind) -> Option<
    i128,
> {
    match c {
        CovariateKind::Age => d.age,
        CovariateKind::Weight => d.weight,
        CovariateKind::Height => d.height,
    }
}

/// The parameter field the covariate analysis reads.
pub open spec fn correlation_field(
    p: crate::models::IndividualParameters,
    k: ParamKind,
) -> Option<i128> {
    match k {
        ParamKind::AucInf => p.auc_inf,
        ParamKind::Cmax => p.cmax,
        ParamKind::Clearance => p.clearance,
        ParamKind::HalfLife => p.half_life,
        ParamKind::VolumeTerminal => p.volume_terminal,
        _ => None,
    }
}

/// The paired (covariate, parameter) values over the first m positions:
/// kept where both are present and the parameter is within the cap.
pub open spec fn paired_upto(
    results: Seq<NcaResults>,
    subjects: Seq<Subject>,
    c: CovariateKind,
    k: ParamKind,
    m: int,
) -> (Seq<i128>, Seq<i128>)
    decreases m,
{
    if m <= 0 {
        (Seq::empty(), Seq::empty())
    } else {
        let rest = paired_upto(results, subjects, c, k, m - 1);
        match (
            covariate_field(subjects[m - 1].demographics, c),
            correlation_field(results[m - 1].individual_parameters, k),
        ) {
            (Some(cv), Some(pv)) => {
                if -COV_VALUE_CAP <= pv <= COV_VALUE_CAP {
                    (rest.0.push(cv), rest.1.push(pv))
                } else {
                    rest
                }
            },
            _ => rest,
        }
    }
}

/// The paired values across all positions both lists cover.
pub open spec fn paired_values(
    results: Seq<NcaResults>,
    subjects: Seq<Subject>,
    c: CovariateKind,
    k: ParamKind,
) -> (Seq<i128>, Seq<i128>) {
    paired_upto(
        results,
        subjects,
        c,
        k,
        if results.len() < subjects.len() {
            results.len() as int
        } else {
            subjects.len() as int
        },
    )
}

/// Some correlation parameter has at least three pairs for this covariate.
pub open spec fn covariate_has_pairs(
    results: Seq<NcaResults>,
    subjects: Seq<Subject>,
    c: CovariateKind,
) -> bool {
    ||| paired_values(results, subjects, c, ParamKind::AucInf).0.len() >= 3
    ||| paired_values(results, subjects, c, ParamKind::Cmax).0.len() >= 3
    ||| paired_values(results, subjects, c, ParamKind::Clearance).0.len() >= 3
    ||| paired_values(results, subjects, c, ParamKind::HalfLife).0.len() >= 3
    ||| paired_values(results, subjects, c, ParamKind::VolumeTerminal).0.len() >= 3
}

/// Each recorded correlation is the Pearson coefficient of its parameter's
/// paired values, which number at least three.
pub open spec fn correlation_entry_exact(
    entry: CovariateCorrelation,
    c: CovariateKind,
    results: Seq<NcaResults>,
    subjects: Seq<Subject>,
) -> bool {
    forall|i: int|
        0 <= i < entry.parameter_correlations@.len() ==> {
            let pv = paired_values(
                results,
                subjects,
                c,
                (#[trigger] entry.parameter_correlations@[i]).0,
            );
            &&& pv.0.len() >= 3
            &&& entry.parameter_correlations@[i].1 == pearson_spec(pv.0, pv.1)
        }
}

/// What each correlation entry satisfies: one p-value per correlation,
/// correlations within [-1, 1] and p-values within [0, 1].
pub open spec fn correlation_entry_ok(c: CovariateCorrelation) -> bool {
    &&& c.parameter_correlations@.len() == c.p_values@.len()
    &&& forall|i: int|
        0 <= i < c.parameter_correlations@.len() ==> -(SCALE as int) <= (
        #[trigger] c.parameter_correlations@[i]).1 <= SCALE as int
    &&& forall|i: int|
        0 <= i < c.p_values@.len() ==> 0 <= (#[trigger] c.p_values@[i]).1 <= SCALE as int
}

/// A dose / dose-normalized-value pair the linearity regression keeps:
/// the dose within the covariate range, the value within the cap.
pub open spec fn dose_pair_kept(d: i128, v: i128) -> bool {
    0 <= d <= MAX_COVARIATE && -COV_VALUE_CAP <= v <= COV_VALUE_CAP
}

/// The kept dose / value pairs, in order.
pub open spec fn capped_pairs(x: Seq<i128>, y: Seq<i128>) -> (Seq<i128>, Seq<i128>)
    decreases x.len(),
{
    if x.len() == 0 || y.len() == 0 {
        (Seq::empty(), Seq::empty())
    } else {
        let rest = capped_pairs(x.drop_last(), y.drop_last());
        if dose_pair_kept(x.last(), y.last()) {
            (rest.0.push(x.last()), rest.1.push(y.last()))
        } else {
            rest
        }
    }
}

/// The slope's standard-error surrogate the regression reports: the floor
/// root of the clamped y-spread over the x-spread, zero on degenerate
/// input.
pub open spec fn reg_se_spec(pts: Seq<(int, int)>) -> int {
    let dxx = crate::regression::reg_dxx(pts);
    let dyy = crate::regression::reg_dyy(pts);
    if dxx >= 1 && pts.len() >= 3 {
        let spread = if dyy < 0 {
            0
        } else {
            crate::fixed::clamp_spec(dyy)
        };
        let ratio = crate::fixed::tdiv(spread, dxx);
        crate::fixed::clamp_spec(
            crate::fixed::sqrt_floor(
                (if ratio < 0 {
                    0
                } else {
                    ratio
                }) * SCALE as int,
            ),
        )
    } else {
        0
    }
}

/// The 95% half-width of the slope interval, at the fixed critical value
/// z = 1.96.
pub open spec fn reg_margin_spec(pts: Seq<(int, int)>) -> int {
    let m0 = crate::fixed::tdiv(1_960_000 * reg_se_spec(pts), SCALE as int);
    if crate::fixed::in_range(m0) {
        if m0 >= 0 {
            m0
        } else {
            0
        }
    } else {
        crate::fixed::VAL_LIMIT as int
    }
}

/// The regression slope the analysis computes over a point list: the
/// clamped fixed-point quotient, zero for a degenerate time spread.
pub open spec fn slope_spec(pts: Seq<(int, int)>) -> int {
    if crate::regression::reg_dxx(pts) >= 1 {
        crate::fixed::clamp_spec(
            crate::fixed::tdiv(
                crate::regression::reg_num(pts) * SCALE as int,
                crate::regression::reg_dxx(pts),
            ),
        )
    } else {
        0
    }
}

pub struct CovariateAnalyzer;

impl CovariateAnalyzer {
    /// Correlations, regressions and dose-normalized analysis across the
    /// successfully analyzed subjects.
    pub fn analyze_covariates(results: &Vec<NcaResults>, subjects: &Vec<Subject>) -> (r:
        CovariateAnalysis)
        requires
            forall|i: int| 0 <= i < subjects@.len() ==> subject_wf(#[trigger] subjects@[i]),
            results@.len() <= MAX_SUBJECTS as int,
            subjects@.len() <= MAX_SUBJECTS as int,
        ensures
            r.correlations@.len() <= 3,
            forall|k: int|
                0 <= k < r.correlations@.len() ==> correlation_entry_ok(
                    (#[trigger] r.correlations@[k]).1,
                ) && correlation_entry_exact(
                    (r.correlations@[k]).1,
                    (r.correlations@[k]).0,
                    results@,
                    subjects@,
                ),
            forall|c: CovariateKind|
                #![trigger covariate_has_pairs(results@, subjects@, c)]
                covariate_has_pairs(results@, subjects@, c) ==> exists|k: int|
                    0 <= k < r.correlations@.len() && (#[trigger] r.correlations@[k]).0 == c,
            forall|k: int|
                0 <= k < r.regression_analysis@.len() ==> 0 <= (
                #[trigger] r.regression_analysis@[k]).1.r_squared <= SCALE as int && 0
                    <= r.regression_analysis@[k].1.p_value <= SCALE as int,
            r.dose_normalized_analysis is Some,
    {
        let correlations = Self::calculate_covariate_correlations(results, subjects);
        let regression_analysis = Self::perform_regression_analysis(results, subjects);
        let dose_normalized_analysis = Self::perform_dose_normalization_analysis(
            results,
            subjects,
        );
        CovariateAnalysis {
            correlations,
            regression_analysis,
            dose_normalized_analysis: Some(dose_normalized_analysis),
        }
    }

    /// Pearson correlation and p-value of each covariate against each
    /// parameter, where at least three pairs exist.
    fn calculate_covariate_correlations(
        results: &Vec<NcaResults>,
        subjects: &Vec<Subject>,
    ) -> (r: Vec<(CovariateKind, CovariateCorrelation)>)
        requires
            forall|i: int| 0 <= i < subjects@.len() ==> subject_wf(#[trigger] subjects@[i]),
            results@.len() <= MAX_SUBJECTS as int,
            subjects@.len() <= MAX_SUBJECTS as int,
        ensures
            r@.len() <= 3,
            forall|k: int|
                0 <= k < r@.len() ==> correlation_entry_ok((#[trigger] r@[k]).1)
                    && correlation_entry_exact((r@[k]).1, (r@[k]).0, results@, subjects@),
            forall|c: CovariateKind|
                #![trigger covariate_has_pairs(results@, subjects@, c)]
                covariate_has_pairs(results@, subjects@, c) ==> exists|k: int|
                    0 <= k < r@.len() && (#[trigger] r@[k]).0 == c,
    {
        let covariates = covariate_kinds();
        let parameters = correlation_param_kinds();
        let mut out: Vec<(CovariateKind, CovariateCorrelation)> = Vec::new();
        let ghost mut placed: Seq<int> = Seq::empty();
        let mut ci: usize = 0;
        while ci < covariates.len()
            invariant
                covariates@ =~= seq![
                    CovariateKind::Age,
                    CovariateKind::Weight,
                    CovariateKind::Height,
                ],
                placed.len() == ci,
                forall|c2: int|
                    0 <= c2 < ci && covariate_has_pairs(
                        results@,
                        subjects@,
                        #[trigger] covariates@[c2],
                    ) ==> 0 <= placed[c2] < out@.len() && out@[placed[c2]].0 == covariates@[c2],
                parameters@ =~= seq![
                    ParamKind::AucInf,
                    ParamKind::Cmax,
                    ParamKind::Clearance,
                    ParamKind::HalfLife,
                    ParamKind::VolumeTerminal,
                ],
                out@.len() <= ci,
                forall|k: int|
                    0 <= k < out@.len() ==> correlation_entry_ok((#[trigger] out@[k]).1)
                        && correlation_entry_exact((out@[k]).1, (out@[k]).0, results@, subjects@),
                forall|i: int| 0 <= i < subjects@.len() ==> subject_wf(#[trigger] subjects@[i]),
                results@.len() <= MAX_SUBJECTS as int,
                subjects@.len() <= MAX_SUBJECTS as int,
                0 <= ci <= 3,
            decreases covariates@.len() - ci,
        {
            let cov = covariates[ci];
            let mut parameter_correlations: Vec<(ParamKind, i128)> = Vec::new();
            let mut p_values: Vec<(ParamKind, i128)> = Vec::new();
            let mut pi: usize = 0;
            while pi < parameters.len()
                invariant
                    parameters@ =~= seq![
                        ParamKind::AucInf,
                        ParamKind::Cmax,
                        ParamKind::Clearance,
                        ParamKind::HalfLife,
                        ParamKind::VolumeTerminal,
                    ],
                    0 <= pi <= 5,
                    cov == covariates@[ci as int],
                    ci < covariates@.len(),
                    parameter_correlations@.len() == p_values@.len(),
                    forall|i: int|
                        0 <= i < parameter_correlations@.len() ==> -(SCALE as int) <= (
                        #[trigger] parameter_correlations@[i]).1 <= SCALE as int,
                    forall|i: int|
                        0 <= i < p_values@.len() ==> 0 <= (#[trigger] p_values@[i]).1
                            <= SCALE as int,
                    forall|i: int|
                        0 <= i < parameter_correlations@.len() ==> {
                            let pv = paired_values(
                                results@,
                                subjects@,
                                cov,
                                (#[trigger] parameter_correlations@[i]).0,
                            );
                            &&& pv.0.len() >= 3
                            &&& parameter_correlations@[i].1 == pearson_spec(pv.0, pv.1)
                        },
                    parameter_correlations@.len() > 0 <==> exists|j: int|
                        0 <= j < pi && paired_values(
                            results@,
                            subjects@,
                            cov,
                            #[trigger] parameters@[j],
                        ).0.len() >= 3,
                    forall|i: int|
                        0 <= i < subjects@.len() ==> subject_wf(#[trigger] subjects@[i]),
                    results@.len() <= MAX_SUBJECTS as int,
                    subjects@.len() <= MAX_SUBJECTS as int,
                decreases parameters@.len() - pi,
            {
                let param = parameters[pi];
                let (xs, ys) = Self::extract_paired_values(results, subjects, &cov, &param);
                if xs.len() >= 3 {
                    let corr = Self::calculate_pearson_correlation(&xs, &ys);
                    let p = Self::correlation_p_value(corr, xs.len());
                    parameter_correlations.push((param, corr));
                    p_values.push((param, p));
                    proof {
                        let ghost jw: int = pi as int;
                        assert(0 <= jw < pi + 1 && paired_values(
                            results@,
                            subjects@,
                            cov,
                            parameters@[jw],
                        ).0.len() >= 3);
                    }
                }
                pi = pi + 1;
            }
            if parameter_correlations.len() > 0 {
                out.push(
                    (
                        cov,
                        CovariateCorrelation {
                            covariate_name: covariate_name(&cov),
                            parameter_correlations,
                            p_values,
                        },
                    ),
                );
                proof {
                    placed = placed.push(out@.len() - 1);
                    assert(out@[placed[ci as int]].0 == covariates@[ci as int]);
                }
            } else {
                proof {
                    placed = placed.push(-1);
                    if covariate_has_pairs(results@, subjects@, cov) {
                        assert(parameters@[0] == ParamKind::AucInf);
                        assert(parameters@[1] == ParamKind::Cmax);
                        assert(parameters@[2] == ParamKind::Clearance);
                        assert(parameters@[3] == ParamKind::HalfLife);
                        assert(parameters@[4] == ParamKind::VolumeTerminal);
                        if paired_values(results@, subjects@, cov, ParamKind::AucInf).0.len()
                            >= 3 {
                            assert(paired_values(
                                results@,
                                subjects@,
                                cov,
                                parameters@[0],
                            ).0.len() >= 3);
                        } else if paired_values(
                            results@,
                            subjects@,
                            cov,
                            ParamKind::Cmax,
                        ).0.len() >= 3 {
                            assert(paired_values(
                                results@,
                                subjects@,
                                cov,
                                parameters@[1],
                            ).0.len() >= 3);
                        } else if paired_values(
                            results@,
                            subjects@,
                            cov,
                            ParamKind::Clearance,
                        ).0.len() >= 3 {
                            assert(paired_values(
                                results@,
                                subjects@,
                                cov,
                                parameters@[2],
                            ).0.len() >= 3);
                        } else if paired_values(
                            results@,
                            subjects@,
                            cov,
                            ParamKind::HalfLife,
                        ).0.len() >= 3 {
                            assert(paired_values(
                                results@,
                                subjects@,
                                cov,
                                parameters@[3],
                            ).0.len() >= 3);
                        } else {
                            assert(paired_values(
                                results@,
                                subjects@,
                                cov,
                                parameters@[4],
                            ).0.len() >= 3);
                        }
                        assert(exists|j: int|
                            0 <= j < 5 && paired_values(
                                results@,
                                subjects@,
                                cov,
                                #[trigger] parameters@[j],
                            ).0.len() >= 3);
                        assert(false);
                    }
                }
            }
            ci = ci + 1;
        }
        proof {
            assert forall|c: CovariateKind|
                covariate_has_pairs(results@, subjects@, c) implies exists|k: int|
                0 <= k < out@.len() && (#[trigger] out@[k]).0 == c by {
                assert(c == CovariateKind::Age || c == CovariateKind::Weight || c
                    == CovariateKind::Height);
                let c2: int = if c == CovariateKind::Age {
                    0int
                } else if c == CovariateKind::Weight {
                    1int
                } else {
                    2int
                };
                assert(covariates@[c2] == c);
                let w = placed[c2];
                assert(0 <= w < out@.len() && out@[w].0 == c);
            }
        }
        out
    }

    /// Paired (covariate, parameter) values across subjects holding both.
    /// Parameter values beyond the covariate cap are left out to keep the
    /// sums representable.
    fn extract_paired_values(
        results: &Vec<NcaResults>,
        subjects: &Vec<Subject>,
        covariate: &CovariateKind,
        parameter: &ParamKind,
    ) -> (r: (Vec<i128>, Vec<i128>))
        requires
            forall|i: int| 0 <= i < subjects@.len() ==> subject_wf(#[trigger] subjects@[i]),
            results@.len() <= MAX_SUBJECTS as int,
        ensures
            (r.0@, r.1@) == paired_values(results@, subjects@, *covariate, *parameter),
            r.0@.len() == r.1@.len(),
            r.0@.len() <= results@.len(),
            forall|i: int| 0 <= i < r.0@.len() ==> 0 <= #[trigger] r.0@[i] <= MAX_COVARIATE,
            forall|i: int|
                0 <= i < r.1@.len() ==> -COV_VALUE_CAP <= #[trigger] r.1@[i] <= COV_VALUE_CAP,
    {
        let mut xs: Vec<i128> = Vec::new();
        let mut ys: Vec<i128> = Vec::new();
        let mut i: usize = 0;
        let upper = if results.len() < subjects.len() {
            results.len()
        } else {
            subjects.len()
        };
        while i < upper
            invariant
                0 <= i <= upper,
                upper <= results@.len(),
                upper <= subjects@.len(),
                upper == (if results@.len() < subjects@.len() {
                    results@.len() as int
                } else {
                    subjects@.len() as int
                }),
                (xs@, ys@) == paired_upto(results@, subjects@, *covariate, *parameter, i as int),
                xs@.len() == ys@.len(),
                xs@.len() <= i,
                forall|k: int| 0 <= k < subjects@.len() ==> subject_wf(#[trigger] subjects@[k]),
                forall|k: int| 0 <= k < xs@.len() ==> 0 <= #[trigger] xs@[k] <= MAX_COVARIATE,
                forall|k: int|
                    0 <= k < ys@.len() ==> -COV_VALUE_CAP <= #[trigger] ys@[k] <= COV_VALUE_CAP,
            decreases upper - i,
        {
            let d = &subjects[i].demographics;
            let cov_value: Option<i128> = match covariate {
                CovariateKind::Age => d.age,
                CovariateKind::Weight => d.weight,
                CovariateKind::Height => d.height,
            };
            let p = &results[i].individual_parameters;
            let param_value: Option<i128> = match parameter {
                ParamKind::AucInf => p.auc_inf,
                ParamKind::Cmax => p.cmax,
                ParamKind::Clearance => p.clearance,
                ParamKind::HalfLife => p.half_life,
                ParamKind::VolumeTerminal => p.volume_terminal,
                _ => None,
            };
            match (cov_value, param_value) {
                (Some(c), Some(v)) => {
                    if -COV_VALUE_CAP <= v && v <= COV_VALUE_CAP {
                        xs.push(c);
                        ys.push(v);
                    }
                },
                _ => {},
            }
            i = i + 1;
        }
        (xs, ys)
    }

    /// Pearson correlation coefficient, clamped into [-SCALE, SCALE].
    fn calculate_pearson_correlation(x: &Vec<i128>, y: &Vec<i128>) -> (r: i128)
        requires
            x@.len() == y@.len(),
            x@.len() <= MAX_SUBJECTS as int,
            forall|i: int| 0 <= i < x@.len() ==> 0 <= #[trigger] x@[i] <= MAX_COVARIATE,
            forall|i: int|
                0 <= i < y@.len() ==> -COV_VALUE_CAP <= #[trigger] y@[i] <= COV_VALUE_CAP,
        ensures
            -(SCALE as int) <= r <= SCALE as int,
            r == pearson_spec(x@, y@),
    {
        let n = x.len();
        if n < 2 {
            return 0;
        }
        let (sx, sy, sxy, sxx, syy) = covariate_sums(x, y);
        proof {
            lemma_cov_centered(n as int, sx as int, sy as int, sxy as int, sxx as int, syy as int);
        }
        let num = (n as i128) * sxy - sx * sy;
        let dxx = (n as i128) * sxx - sx * sx;
        let dyy = (n as i128) * syy - sy * sy;
        let dxx_nn = if dxx < 0 {
            0
        } else {
            dxx
        };
        let dyy_nn = if dyy < 0 {
            0
        } else {
            dyy
        };
        let rx = isqrt(dxx_nn);
        let ry = isqrt(dyy_nn);
        proof {
            lemma_cov_isqrt(rx as int, dxx_nn as int);
            lemma_cov_isqrt_y(ry as int, dyy_nn as int);
            assert(0 <= rx * ry <= 500_000_000_000_000_000_000_000_000_000_000int)
                by (nonlinear_arith)
                requires
                    0 <= rx <= 100_000_000_000_000i128,
                    0 <= ry <= 5_000_000_000_000_000_000i128,
            ;
        }
        let denom = rx * ry;
        if denom <= 0 {
            return 0;
        }
        proof {
            lemma_tdiv_bounds((num * SCALE) as int, denom as int);
            lemma_tdiv_bounds(-((num * SCALE) as int), denom as int);
        }
        let raw = div_trunc(num * SCALE, denom);
        if raw > SCALE {
            SCALE
        } else if raw < -SCALE {
            -SCALE
        } else {
            raw
        }
    }

    /// Approximate two-tailed p-value of a correlation over n pairs.
    fn correlation_p_value(corr: i128, n: usize) -> (r: i128)
        requires
            -(SCALE as int) <= corr <= SCALE as int,
            n <= MAX_SUBJECTS,
        ensures
            0 <= r <= SCALE as int,
    {
        if n < 3 {
            return SCALE;
        }
        let df = (n - 2) as i128;
        proof {
            assert(0 <= corr * corr <= SCALE as int * SCALE as int) by (nonlinear_arith)
                requires
                    -SCALE <= corr <= SCALE,
            ;
            lemma_tdiv_bounds((corr * corr) as int, SCALE as int);
        }
        let r2 = div_trunc(corr * corr, SCALE);
        let one_minus = SCALE - r2;
        if one_minus < 1 {
            return 0;
        }
        proof {
            lemma_tdiv_bounds((df * SCALE * SCALE) as int, one_minus as int);
        }
        let ratio = div_trunc(df * SCALE * SCALE, one_minus);
        let ratio_c = clamp_range(ratio);
        proof {
            assert(0 <= ratio_c * SCALE <= (VAL_LIMIT as int) * (SCALE as int))
                by (nonlinear_arith)
                requires
                    0 <= ratio_c <= VAL_LIMIT,
            ;
        }
        let root = isqrt(ratio_c * SCALE);
        let t_stat = match crate::fixed::mul_val(corr, clamp_range(root)) {
            Some(v) => v,
            None => VAL_LIMIT,
        };
        let t_abs = if t_stat < 0 {
            -t_stat
        } else {
            t_stat
        };
        two_tailed_p(t_abs, clamp_range(df * SCALE))
    }

    /// Simple OLS regression for covariate-parameter pairs with at least
    /// three points.
    fn perform_regression_analysis(results: &Vec<NcaResults>, subjects: &Vec<Subject>) -> (r: Vec<
        ((ParamKind, CovariateKind), RegressionResults),
    >)
        requires
            forall|i: int| 0 <= i < subjects@.len() ==> subject_wf(#[trigger] subjects@[i]),
            results@.len() <= MAX_SUBJECTS as int,
            subjects@.len() <= MAX_SUBJECTS as int,
        ensures
            r@.len() <= 9,
            forall|k: int|
                0 <= k < r@.len() ==> 0 <= (#[trigger] r@[k]).1.r_squared <= SCALE as int && 0
                    <= r@[k].1.p_value <= SCALE as int,
    {
        let covariates = covariate_kinds();
        let parameters = regression_param_kinds();
        let mut out: Vec<((ParamKind, CovariateKind), RegressionResults)> = Vec::new();
        let mut ci: usize = 0;
        while ci < covariates.len()
            invariant
                covariates@.len() == 3,
                parameters@.len() == 3,
                out@.len() <= 3 * ci,
                0 <= ci <= 3,
                forall|k: int|
                    0 <= k < out@.len() ==> 0 <= (#[trigger] out@[k]).1.r_squared <= SCALE as int
                        && 0 <= out@[k].1.p_value <= SCALE as int,
                forall|i: int| 0 <= i < subjects@.len() ==> subject_wf(#[trigger] subjects@[i]),
                results@.len() <= MAX_SUBJECTS as int,
                subjects@.len() <= MAX_SUBJECTS as int,
            decreases covariates@.len() - ci,
        {
            let cov = covariates[ci];
            let mut pi: usize = 0;
            while pi < parameters.len()
                invariant
                    parameters@.len() == 3,
                    0 <= pi <= 3,
                    out@.len() <= 3 * ci + pi,
                    ci < 3,
                    forall|k: int|
                        0 <= k < out@.len() ==> 0 <= (#[trigger] out@[k]).1.r_squared
                            <= SCALE as int && 0 <= out@[k].1.p_value <= SCALE as int,
                    forall|i: int|
                        0 <= i < subjects@.len() ==> subject_wf(#[trigger] subjects@[i]),
                    results@.len() <= MAX_SUBJECTS as int,
                    subjects@.len() <= MAX_SUBJECTS as int,
                decreases parameters@.len() - pi,
            {
                let param = parameters[pi];
                let (xs, ys) = Self::extract_paired_values(results, subjects, &cov, &param);
                if xs.len() >= 3 {
                    let mut regression = Self::simple_linear_regression(&xs, &ys);
                    regression.parameter = crate::models::param_key(&param);
                    regression.covariate = covariate_name(&cov);
                    out.push(((param, cov), regression));
                }
                pi = pi + 1;
            }
            ci = ci + 1;
        }
        out
    }

    /// One ordinary least-squares regression with approximate inference:
    /// slope, intercept, goodness of fit in [0, SCALE], a p-value in
    /// [0, SCALE], and a fixed-z 95% confidence interval for the slope.
    fn simple_linear_regression(x: &Vec<i128>, y: &Vec<i128>) -> (r: RegressionResults)
        requires
            x@.len() == y@.len(),
            2 <= x@.len() <= MAX_SUBJECTS as int,
            forall|i: int| 0 <= i < x@.len() ==> 0 <= #[trigger] x@[i] <= MAX_COVARIATE,
            forall|i: int|
                0 <= i < y@.len() ==> -COV_VALUE_CAP <= #[trigger] y@[i] <= COV_VALUE_CAP,
        ensures
            ({
                let pts = zip_pts(x@, y@);
                let mean_y = crate::fixed::clamp_spec(
                    crate::fixed::tdiv_any(crate::regression::sum_y(pts), x@.len() as int),
                );
                let mean_x = crate::fixed::clamp_spec(
                    crate::fixed::tdiv(crate::regression::sum_x(pts), x@.len() as int),
                );
                let shift = crate::fixed::tdiv(r.slope * mean_x, SCALE as int);
                &&& r.slope == slope_spec(pts)
                &&& r.intercept == crate::fixed::clamp_spec(
                    mean_y - (if in_range(shift) {
                        shift
                    } else {
                        0
                    }),
                )
                &&& r.r_squared == crate::regression::reg_r2(pts)
                &&& 0 <= r.r_squared <= SCALE as int
                &&& 0 <= r.p_value <= SCALE as int
                &&& (!(x@.len() >= 3 && crate::regression::reg_dxx(pts) >= 1 && r.r_squared
                    < SCALE as int) ==> r.p_value == SCALE as int)
                &&& in_range(r.slope as int)
                &&& in_range(r.intercept as int)
                &&& r.confidence_interval.lower == crate::fixed::clamp_spec(
                    r.slope - reg_margin_spec(pts),
                )
                &&& r.confidence_interval.upper == crate::fixed::clamp_spec(
                    r.slope + reg_margin_spec(pts),
                )
                &&& r.confidence_interval.lower <= r.slope <= r.confidence_interval.upper
            }),
    {
        let n = x.len();
        let (sx, sy, sxy, sxx, syy) = covariate_sums(x, y);
        proof {
            lemma_cov_centered(n as int, sx as int, sy as int, sxy as int, sxx as int, syy as int);
        }
        let num = (n as i128) * sxy - sx * sy;
        let dxx = (n as i128) * sxx - sx * sx;
        let dyy = (n as i128) * syy - sy * sy;
        let slope = if dxx >= 1 {
            proof {
                lemma_tdiv_bounds((num * SCALE) as int, dxx as int);
                lemma_tdiv_bounds(-((num * SCALE) as int), dxx as int);
            }
            clamp_range(div_trunc(num * SCALE, dxx))
        } else {
            0
        };
        proof {
            lemma_tdiv_bounds(sy as int, n as int);
            lemma_tdiv_bounds(-(sy as int), n as int);
            lemma_tdiv_bounds(sx as int, n as int);
        }
        let mean_y = clamp_range(div_trunc_any(sy, n as i128));
        let mean_x = clamp_range(div_trunc(sx, n as i128));
        let shift = match crate::fixed::mul_val(slope, mean_x) {
            Some(v) => v,
            None => 0,
        };
        let intercept = clamp_range(mean_y - shift);
        let r_squared = reduced_r2(num, dxx, dyy);
        // Approximate inference for the slope.
        let df = (n - 2) as i128;
        let p_value = if df >= 1 && dxx >= 1 && r_squared < SCALE {
            let one_minus = SCALE - r_squared;
            proof {
                lemma_tdiv_bounds((df * SCALE * SCALE) as int, one_minus as int);
            }
            let ratio = clamp_range(div_trunc(df * SCALE * SCALE, one_minus));
            proof {
                assert(0 <= ratio * SCALE <= (VAL_LIMIT as int) * (SCALE as int))
                    by (nonlinear_arith)
                    requires
                        0 <= ratio <= VAL_LIMIT,
                ;
                lemma_tdiv_bounds((r_squared * SCALE) as int, SCALE as int);
            }
            let root = clamp_range(isqrt(ratio * SCALE));
            let rabs = isqrt(if r_squared < 0 {
                0
            } else {
                proof {
                    assert(0 <= r_squared * SCALE <= (SCALE as int) * (SCALE as int))
                        by (nonlinear_arith)
                        requires
                            0 <= r_squared <= SCALE,
                    ;
                }
                r_squared * SCALE
            });
            let t_stat = match crate::fixed::mul_val(clamp_range(rabs), root) {
                Some(v) => v,
                None => VAL_LIMIT,
            };
            let t_abs = if t_stat < 0 {
                -t_stat
            } else {
                t_stat
            };
            two_tailed_p(t_abs, clamp_range(df * SCALE))
        } else {
            SCALE
        };
        // 95% interval with the fixed critical value z = 1.96.
        let se_slope = if dxx >= 1 && df >= 1 {
            let spread = if dyy < 0 {
                0
            } else {
                clamp_range(dyy)
            };
            proof {
                lemma_tdiv_bounds(spread as int, (dxx as int));
            }
            let ratio = div_trunc(spread, dxx);
            proof {
                lemma_tdiv_bounds(ratio as int, df as int);
                assert(0 <= ratio ==> 0 <= ratio * SCALE) by (nonlinear_arith);
                assert(ratio * SCALE <= (VAL_LIMIT as int) * (SCALE as int)) by (nonlinear_arith)
                    requires
                        0 <= ratio <= VAL_LIMIT,
                ;
            }
            clamp_range(isqrt(if ratio < 0 {
                0
            } else {
                ratio * SCALE
            }))
        } else {
            0
        };
        let margin = match crate::fixed::mul_val(1_960_000, se_slope) {
            Some(v) => if v >= 0 {
                v
            } else {
                0
            },
            None => VAL_LIMIT,
        };
        RegressionResults {
            parameter: "parameter".to_owned(),
            covariate: "covariate".to_owned(),
            slope,
            intercept,
            r_squared,
            p_value,
            confidence_interval: Interval { lower: clamp_range(slope - margin), upper: clamp_range(slope + margin) },
        }
    }

    /// Dose-normalized AUC and Cmax per treatment group, and a linearity
    /// assessment where at least three dosed subjects exist.
    fn perform_dose_normalization_analysis(
        results: &Vec<NcaResults>,
        subjects: &Vec<Subject>,
    ) -> (r: DoseNormalizedAnalysis)
        requires
            forall|i: int| 0 <= i < subjects@.len() ==> subject_wf(#[trigger] subjects@[i]),
            results@.len() <= MAX_SUBJECTS as int,
            subjects@.len() <= MAX_SUBJECTS as int,
        ensures
            forall|k: int|
                0 <= k < r.dose_normalized_auc@.len() ==> (
                #[trigger] r.dose_normalized_auc@[k]).1.n >= 3,
            forall|k: int|
                0 <= k < r.dose_normalized_cmax@.len() ==> (
                #[trigger] r.dose_normalized_cmax@[k]).1.n >= 3,
    {
        let mut dose_normalized_auc: Vec<(String, crate::models::ParameterStats)> = Vec::new();
        let mut dose_normalized_cmax: Vec<(String, crate::models::ParameterStats)> = Vec::new();
        let mut dose_linearity_assessment: Vec<(String, LinearityAssessment)> = Vec::new();
        let groups = group_by_treatment(subjects);
        let mut gi: usize = 0;
        while gi < groups.len()
            invariant
                forall|i: int| 0 <= i < subjects@.len() ==> subject_wf(#[trigger] subjects@[i]),
                results@.len() <= MAX_SUBJECTS as int,
                subjects@.len() <= MAX_SUBJECTS as int,
                forall|k: int|
                    0 <= k < groups@.len() ==> crate::stratification::stratum_indices_ok(
                        (#[trigger] groups@[k]).1@,
                        subjects@.len() as int,
                    ) && groups@[k].1@.len() <= MAX_SUBJECTS as int,
                forall|k: int|
                    0 <= k < dose_normalized_auc@.len() ==> (
                    #[trigger] dose_normalized_auc@[k]).1.n >= 3,
                forall|k: int|
                    0 <= k < dose_normalized_cmax@.len() ==> (
                    #[trigger] dose_normalized_cmax@[k]).1.n >= 3,
            decreases groups@.len() - gi,
        {
            let idxs = &groups[gi].1;
            let (dn_auc, dn_cmax, doses) = Self::calculate_dose_normalized_values(
                results,
                subjects,
                idxs,
            );
            if dn_auc.len() >= 3 {
                let auc_stats = calculate_parameter_stats(&dn_auc);
                dose_normalized_auc.push((groups[gi].0.clone(), auc_stats));
                if doses.len() >= 3 {
                    let linearity = Self::assess_dose_linearity(&doses, &dn_auc);
                    dose_linearity_assessment.push((groups[gi].0.clone(), linearity));
                }
            }
            if dn_cmax.len() >= 3 {
                let cmax_stats = calculate_parameter_stats(&dn_cmax);
                dose_normalized_cmax.push((groups[gi].0.clone(), cmax_stats));
            }
            gi = gi + 1;
        }
        DoseNormalizedAnalysis {
            dose_normalized_auc,
            dose_normalized_cmax,
            dose_linearity_assessment,
        }
    }

    /// Per-subject AUC_inf / dose and Cmax / dose for one treatment group.
    fn calculate_dose_normalized_values(
        results: &Vec<NcaResults>,
        subjects: &Vec<Subject>,
        idxs: &Vec<usize>,
    ) -> (r: (Vec<i128>, Vec<i128>, Vec<i128>))
        requires
            forall|i: int| 0 <= i < subjects@.len() ==> subject_wf(#[trigger] subjects@[i]),
            results@.len() <= MAX_SUBJECTS as int,
            crate::stratification::stratum_indices_ok(idxs@, subjects@.len() as int),
            idxs@.len() <= MAX_SUBJECTS as int,
        ensures
            r.0@.len() <= idxs@.len(),
            r.1@.len() <= idxs@.len(),
            r.2@.len() == r.0@.len(),
            forall|i: int| 0 <= i < r.0@.len() ==> in_range(#[trigger] r.0@[i] as int),
            forall|i: int| 0 <= i < r.1@.len() ==> in_range(#[trigger] r.1@[i] as int),
            forall|i: int| 0 <= i < r.2@.len() ==> in_range(#[trigger] r.2@[i] as int),
    {
        let mut dn_auc: Vec<i128> = Vec::new();
        let mut dn_cmax: Vec<i128> = Vec::new();
        let mut doses: Vec<i128> = Vec::new();
        let mut k: usize = 0;
        while k < idxs.len()
            invariant
                0 <= k <= idxs@.len(),
                dn_auc@.len() <= k,
                dn_cmax@.len() <= k,
                doses@.len() == dn_auc@.len(),
                forall|i: int| 0 <= i < subjects@.len() ==> subject_wf(#[trigger] subjects@[i]),
                results@.len() <= MAX_SUBJECTS as int,
                crate::stratification::stratum_indices_ok(idxs@, subjects@.len() as int),
                forall|i: int| 0 <= i < dn_auc@.len() ==> in_range(#[trigger] dn_auc@[i] as int),
                forall|i: int| 0 <= i < dn_cmax@.len() ==> in_range(#[trigger] dn_cmax@[i] as int),
                forall|i: int| 0 <= i < doses@.len() ==> in_range(#[trigger] doses@[i] as int),
            decreases idxs@.len() - k,
        {
            let si = idxs[k];
            proof {
                assert(idxs@[k as int] < subjects@.len());
            }
            // Match results positionally by subject identity.
            let mut ri: usize = 0;
            let mut found: Option<usize> = None;
            while ri < results.len()
                invariant
                    0 <= ri <= results@.len(),
                    si < subjects@.len(),
                    forall|i2: int|
                        0 <= i2 < subjects@.len() ==> subject_wf(#[trigger] subjects@[i2]),
                    found is Some ==> found->0 < results@.len(),
                decreases results@.len() - ri,
            {
                if found.is_none() && results[ri].subject_id == subjects[si].id {
                    found = Some(ri);
                }
                ri = ri + 1;
            }
            match found {
                Some(rk) => {
                    let total_dose = subject_dose(&subjects[si]);
                    if total_dose > 0 {
                        let p = &results[rk].individual_parameters;
                        match p.auc_inf {
                            Some(auc) => {
                                if -VAL_LIMIT <= auc && auc <= VAL_LIMIT {
                                    match crate::fixed::div_val(auc, total_dose) {
                                        Some(v) => {
                                            dn_auc.push(v);
                                            doses.push(total_dose);
                                        },
                                        None => {},
                                    }
                                }
                            },
                            None => {},
                        }
                        match p.cmax {
                            Some(cmax) => {
                                if -VAL_LIMIT <= cmax && cmax <= VAL_LIMIT {
                                    match crate::fixed::div_val(cmax, total_dose) {
                                        Some(v) => {
                                            dn_cmax.push(v);
                                        },
                                        None => {},
                                    }
                                }
                            },
                            None => {},
                        }
                    }
                },
                None => {},
            }
            k = k + 1;
        }
        (dn_auc, dn_cmax, doses)
    }

    /// Regress dose-normalized AUC against dose (pairs within the covariate
    /// ranges) and map the slope and fit to the fixed linearity thresholds.
    fn assess_dose_linearity(doses: &Vec<i128>, dn_auc_values: &Vec<i128>) -> (r:
        LinearityAssessment)
        requires
            doses@.len() <= MAX_SUBJECTS as int,
            forall|i: int| 0 <= i < doses@.len() ==> in_range(#[trigger] doses@[i] as int),
            forall|i: int|
                0 <= i < dn_auc_values@.len() ==> in_range(#[trigger] dn_auc_values@[i] as int),
        ensures
            ({
                let cp = capped_pairs(doses@, dn_auc_values@);
                let pts = zip_pts(cp.0, cp.1);
                let abs_slope: int = if r.slope >= 0 {
                    r.slope as int
                } else {
                    -(r.slope as int)
                };
                &&& ((doses@.len() != dn_auc_values@.len() || doses@.len() < 3) ==> r.slope == 0
                    && r.r_squared == 0 && r.linearity_conclusion@ == "Insufficient data"@)
                &&& ((doses@.len() == dn_auc_values@.len() && doses@.len() >= 3) ==> r.slope
                    == slope_spec(pts) && r.r_squared == crate::regression::reg_r2(pts))
                &&& 0 <= r.r_squared <= SCALE as int
                &&& in_range(r.slope as int)
                &&& ((doses@.len() == dn_auc_values@.len() && doses@.len() >= 3) ==> {
                    &&& (abs_slope < 100_000 && r.r_squared < 300_000
                        ==> r.linearity_conclusion@ == "Linear pharmacokinetics"@)
                    &&& ((abs_slope > 300_000 || r.r_squared > 700_000)
                        ==> r.linearity_conclusion@ == "Non-linear pharmacokinetics"@)
                    &&& (!(abs_slope < 100_000 && r.r_squared < 300_000) && !(abs_slope > 300_000
                        || r.r_squared > 700_000) ==> r.linearity_conclusion@ == "Inconclusive"@)
                })
            }),
    {
        if doses.len() != dn_auc_values.len() || doses.len() < 3 {
            return LinearityAssessment {
                slope: 0,
                r_squared: 0,
                linearity_conclusion: "Insufficient data".to_owned(),
            };
        }
        let mut xs: Vec<i128> = Vec::new();
        let mut ys: Vec<i128> = Vec::new();
        let mut i: usize = 0;
        proof {
            assert(doses@.take(0) =~= Seq::<i128>::empty());
            assert(dn_auc_values@.take(0) =~= Seq::<i128>::empty());
        }
        while i < doses.len()
            invariant
                0 <= i <= doses@.len(),
                doses@.len() == dn_auc_values@.len(),
                doses@.len() <= MAX_SUBJECTS as int,
                (xs@, ys@) == capped_pairs(doses@.take(i as int), dn_auc_values@.take(i as int)),
                xs@.len() == ys@.len(),
                xs@.len() <= i,
                forall|k: int| 0 <= k < xs@.len() ==> 0 <= #[trigger] xs@[k] <= MAX_COVARIATE,
                forall|k: int|
                    0 <= k < ys@.len() ==> -COV_VALUE_CAP <= #[trigger] ys@[k] <= COV_VALUE_CAP,
            decreases doses@.len() - i,
        {
            let d = doses[i];
            let v = dn_auc_values[i];
            proof {
                assert(doses@.take(i as int + 1).drop_last() =~= doses@.take(i as int));
                assert(dn_auc_values@.take(i as int + 1).drop_last() =~= dn_auc_values@.take(
                    i as int,
                ));
                assert(doses@.take(i as int + 1).last() == d);
                assert(dn_auc_values@.take(i as int + 1).last() == v);
            }
            if 0 <= d && d <= MAX_COVARIATE && -COV_VALUE_CAP <= v && v <= COV_VALUE_CAP {
                xs.push(d);
                ys.push(v);
            }
            i = i + 1;
        }
        proof {
            assert(doses@.take(doses@.len() as int) =~= doses@);
            assert(dn_auc_values@.take(dn_auc_values@.len() as int) =~= dn_auc_values@);
        }
        let n = xs.len();
        if n < 1 {
            let r_squared: i128 = reduced_r2(0, 0, 0);
            proof {
                assert(zip_pts(xs@, ys@) =~= Seq::<(int, int)>::empty());
                assert(crate::regression::reg_dxx(zip_pts(xs@, ys@)) == 0);
            }
            let abs0: i128 = 0;
            let linearity_conclusion = if abs0 < 100_000 && r_squared < 300_000 {
                "Linear pharmacokinetics".to_owned()
            } else if abs0 > 300_000 || r_squared > 700_000 {
                "Non-linear pharmacokinetics".to_owned()
            } else {
                "Inconclusive".to_owned()
            };
            return LinearityAssessment { slope: 0, r_squared, linearity_conclusion };
        }
        let (sx, sy, sxy, sxx, syy) = covariate_sums(&xs, &ys);
        proof {
            lemma_cov_centered(n as int, sx as int, sy as int, sxy as int, sxx as int, syy as int);
        }
        let num = (n as i128) * sxy - sx * sy;
        let dxx = (n as i128) * sxx - sx * sx;
        let dyy = (n as i128) * syy - sy * sy;
        let slope = if dxx >= 1 {
            proof {
                lemma_tdiv_bounds((num * SCALE) as int, dxx as int);
                lemma_tdiv_bounds(-((num * SCALE) as int), dxx as int);
            }
            clamp_range(div_trunc(num * SCALE, dxx))
        } else {
            0
        };
        let r_squared = reduced_r2(num, dxx, dyy);
        let abs_slope = if slope >= 0 {
            slope
        } else {
            -slope
        };
        let linearity_conclusion = if abs_slope < 100_000 && r_squared < 300_000 {
            "Linear pharmacokinetics".to_owned()
        } else if abs_slope > 300_000 || r_squared > 700_000 {
            "Non-linear pharmacokinetics".to_owned()
        } else {
            "Inconclusive".to_owned()
        };
        LinearityAssessment { slope, r_squared, linearity_conclusion }
    }
}

/// The three demographic covariates.
fn covariate_kinds() -> (r: Vec<CovariateKind>)
    ensures
        r@ =~= seq![CovariateKind::Age, CovariateKind::Weight, CovariateKind::Height],
        r@.len() == 3,
{
    let mut v: Vec<CovariateKind> = Vec::new();
    v.push(CovariateKind::Age);
    v.push(CovariateKind::Weight);
    v.push(CovariateKind::Height);
    v
}

/// The five parameters entering the correlation analysis.
fn correlation_param_kinds() -> (r: Vec<ParamKind>)
    ensures
        r@ =~= seq![
            ParamKind::AucInf,
            ParamKind::Cmax,
            ParamKind::Clearance,
            ParamKind::HalfLife,
            ParamKind::VolumeTerminal,
        ],
        r@.len() == 5,
{
    let mut v: Vec<ParamKind> = Vec::new();
    v.push(ParamKind::AucInf);
    v.push(ParamKind::Cmax);
    v.push(ParamKind::Clearance);
    v.push(ParamKind::HalfLife);
    v.push(ParamKind::VolumeTerminal);
    v
}

/// The three parameters entering the regression analysis.
fn regression_param_kinds() -> (r: Vec<ParamKind>)
    ensures
        r@.len() == 3,
{
    let mut v: Vec<ParamKind> = Vec::new();
    v.push(ParamKind::AucInf);
    v.push(ParamKind::Cmax);
    v.push(ParamKind::Clearance);
    v
}

/// The text name of a covariate.
fn covariate_name(c: &CovariateKind) -> (r: String)
    ensures
        r@ == covariate_name_spec(*c),
{
    match c {
        CovariateKind::Age => "age".to_owned(),
        CovariateKind::Weight => "weight".to_owned(),
        CovariateKind::Height => "height".to_owned(),
    }
}

/// The stable text key of a covariate.
pub open spec fn covariate_name_spec(c: CovariateKind) -> Seq<char> {
    match c {
        CovariateKind::Age => "age"@,
        CovariateKind::Weight => "weight"@,
        CovariateKind::Height => "height"@,
    }
}

/// Group subject indices by treatment label, "Unknown" when absent.
fn group_by_treatment(subjects: &Vec<Subject>) -> (r: Vec<(String, Vec<usize>)>)
    requires
        forall|i: int| 0 <= i < subjects@.len() ==> subject_wf(#[trigger] subjects@[i]),
        subjects@.len() <= MAX_SUBJECTS as int,
    ensures
        forall|k: int|
            0 <= k < r@.len() ==> crate::stratification::stratum_indices_ok(
                (#[trigger] r@[k]).1@,
                subjects@.len() as int,
            ) && r@[k].1@.len() <= MAX_SUBJECTS as int,
{
    let mut groups: Vec<(String, Vec<usize>)> = Vec::new();
    let mut i: usize = 0;
    while i < subjects.len()
        invariant
            0 <= i <= subjects@.len(),
            subjects@.len() <= MAX_SUBJECTS as int,
            forall|i2: int| 0 <= i2 < subjects@.len() ==> subject_wf(#[trigger] subjects@[i2]),
            forall|k: int|
                0 <= k < groups@.len() ==> crate::stratification::stratum_indices_ok(
                    (#[trigger] groups@[k]).1@,
                    subjects@.len() as int,
                ) && groups@[k].1@.len() <= i,
        decreases subjects@.len() - i,
    {
        let label = match &subjects[i].demographics.treatment {
            Some(t) => t.clone(),
            None => "Unknown".to_owned(),
        };
        let _g = crate::stratification::push_into_group(
            &mut groups,
            label,
            i,
            Ghost(subjects@.len() as int),
        );
        i = i + 1;
    }
    groups
}

/// The total dose of one subject.
fn subject_dose(subject: &Subject) -> (r: i128)
    requires
        subject_wf(*subject),
    ensures
        0 <= r <= VAL_LIMIT,
{
    let mut total: i128 = 0;
    let mut k: usize = 0;
    while k < subject.dosing_events.len()
        invariant
            subject_wf(*subject),
            0 <= k <= subject.dosing_events@.len(),
            0 <= total <= (k as int) * (crate::models::MAX_CONC as int),
        decreases subject.dosing_events@.len() - k,
    {
        proof {
            assert((k as int) * (crate::models::MAX_CONC as int) + crate::models::MAX_CONC as int
                == (k as int + 1) * (crate::models::MAX_CONC as int)) by (nonlinear_arith);
            assert((k as int + 1) * (crate::models::MAX_CONC as int) <= (
            crate::models::MAX_OBS as int) * (crate::models::MAX_CONC as int))
                by (nonlinear_arith)
                requires
                    k as int + 1 <= crate::models::MAX_OBS as int,
            ;
        }
        total = total + subject.dosing_events[k].dose;
        k = k + 1;
    }
    proof {
        assert((subject.dosing_events@.len() as int) * (crate::models::MAX_CONC as int) <= (
        crate::models::MAX_OBS as int) * (crate::models::MAX_CONC as int)) by (nonlinear_arith)
            requires
                subject.dosing_events@.len() as int <= crate::models::MAX_OBS as int,
        ;
    }
    total
}

/// The five sums of a bounded covariate pairing, with bounds that keep the
/// centered combinations inside i128.
fn covariate_sums(x: &Vec<i128>, y: &Vec<i128>) -> (r: (i128, i128, i128, i128, i128))
    requires
        x@.len() == y@.len(),
        x@.len() <= MAX_SUBJECTS as int,
        forall|i: int| 0 <= i < x@.len() ==> 0 <= #[trigger] x@[i] <= MAX_COVARIATE,
        forall|i: int| 0 <= i < y@.len() ==> -COV_VALUE_CAP <= #[trigger] y@[i] <= COV_VALUE_CAP,
    ensures
        r.0 == crate::regression::sum_x(zip_pts(x@, y@)),
        r.1 == crate::regression::sum_y(zip_pts(x@, y@)),
        r.2 == crate::regression::sum_xy(zip_pts(x@, y@)),
        r.3 == crate::regression::sum_xx(zip_pts(x@, y@)),
        r.4 == crate::regression::sum_yy(zip_pts(x@, y@)),
        0 <= r.0 <= (MAX_SUBJECTS as int) * (MAX_COVARIATE as int),
        -(MAX_SUBJECTS as int) * (COV_VALUE_CAP as int) <= r.1 <= (MAX_SUBJECTS as int) * (
        COV_VALUE_CAP as int),
        -(MAX_SUBJECTS as int) * (MAX_COVARIATE as int) * (COV_VALUE_CAP as int) <= r.2 <= (
        MAX_SUBJECTS as int) * (MAX_COVARIATE as int) * (COV_VALUE_CAP as int),
        0 <= r.3 <= (MAX_SUBJECTS as int) * (MAX_COVARIATE as int) * (MAX_COVARIATE as int),
        0 <= r.4 <= (MAX_SUBJECTS as int) * (COV_VALUE_CAP as int) * (COV_VALUE_CAP as int),
{
    let mut sx: i128 = 0;
    let mut sy: i128 = 0;
    let mut sxy: i128 = 0;
    let mut sxx: i128 = 0;
    let mut syy: i128 = 0;
    let mut i: usize = 0;
    let ghost zp = zip_pts(x@, y@);
    proof {
        assert(zp.take(0) =~= Seq::<(int, int)>::empty());
    }
    while i < x.len()
        invariant
            0 <= i <= x@.len(),
            x@.len() == y@.len(),
            x@.len() <= MAX_SUBJECTS as int,
            zp == zip_pts(x@, y@),
            forall|k: int| 0 <= k < x@.len() ==> 0 <= #[trigger] x@[k] <= MAX_COVARIATE,
            forall|k: int|
                0 <= k < y@.len() ==> -COV_VALUE_CAP <= #[trigger] y@[k] <= COV_VALUE_CAP,
            sx == crate::regression::sum_x(zp.take(i as int)),
            sy == crate::regression::sum_y(zp.take(i as int)),
            sxy == crate::regression::sum_xy(zp.take(i as int)),
            sxx == crate::regression::sum_xx(zp.take(i as int)),
            syy == crate::regression::sum_yy(zp.take(i as int)),
            0 <= sx <= (i as int) * (MAX_COVARIATE as int),
            -(i as int) * (COV_VALUE_CAP as int) <= sy <= (i as int) * (COV_VALUE_CAP as int),
            -(i as int) * (MAX_COVARIATE as int) * (COV_VALUE_CAP as int) <= sxy <= (i as int) * (
            MAX_COVARIATE as int) * (COV_VALUE_CAP as int),
            0 <= sxx <= (i as int) * (MAX_COVARIATE as int) * (MAX_COVARIATE as int),
            0 <= syy <= (i as int) * (COV_VALUE_CAP as int) * (COV_VALUE_CAP as int),
        decreases x@.len() - i,
    {
        let xv = x[i];
        let yv = y[i];
        proof {
            lemma_cov_step(i as int, xv as int, yv as int);
            assert(zp.take(i as int + 1).drop_last() =~= zp.take(i as int));
            assert(zp.take(i as int + 1).last() == (xv as int, yv as int));
        }
        sx = sx + xv;
        sy = sy + yv;
        sxy = sxy + xv * yv;
        sxx = sxx + xv * xv;
        syy = syy + yv * yv;
        i = i + 1;
    }
    proof {
        lemma_cov_close(x@.len() as int);
        assert(zp.take(x@.len() as int) =~= zp);
    }
    (sx, sy, sxy, sxx, syy)
}

/// The reduced two-stage goodness of fit used by the covariate regressions:
/// exactly the shared `r2_of` evaluation, always within [0, SCALE].
fn reduced_r2(num: i128, dxx: i128, dyy: i128) -> (r: i128)
    requires
        num > i128::MIN,
        dxx > i128::MIN,
        dyy > i128::MIN,
    ensures
        0 <= r <= SCALE as int,
        r == crate::regression::r2_of(num as int, dxx as int, dyy as int),
{
    if dxx < 1 || dyy < 1 {
        proof {
            let a: int = if num >= 0 {
                num as int
            } else {
                -(num as int)
            };
            lemma_tdiv_bounds(a, crate::regression::R2_REDUCE as int);
            let d = crate::fixed::tdiv(a, crate::regression::R2_REDUCE as int) + 1;
            if dxx < 1 {
                lemma_tdiv_bounds(-(dxx as int), d);
                lemma_tdiv_bounds(dxx as int, d);
            } else {
                lemma_tdiv_bounds(-(dyy as int), d);
                lemma_tdiv_bounds(dyy as int, d);
            }
        }
        return 0;
    }
    let a = if num >= 0 {
        num
    } else {
        -num
    };
    proof {
        lemma_tdiv_bounds(a as int, crate::regression::R2_REDUCE as int);
    }
    let d = div_trunc(a, crate::regression::R2_REDUCE) + 1;
    proof {
        lemma_tdiv_bounds(a as int, d as int);
        lemma_tdiv_bounds(dxx as int, d as int);
        lemma_tdiv_bounds(dyy as int, d as int);
        crate::parameters::lemma_reduced_small(a as int, d as int);
    }
    let ar = div_trunc(a, d);
    let dxxr = div_trunc(dxx, d);
    let dyyr = div_trunc(dyy, d);
    if dxxr <= 0 || dyyr <= 0 {
        return 0;
    }
    proof {
        assert(0 <= ar * SCALE as int <= crate::regression::R2_REDUCE as int * SCALE as int)
            by (nonlinear_arith)
            requires
                0 <= ar <= crate::regression::R2_REDUCE as int,
        ;
        lemma_tdiv_bounds((ar * SCALE) as int, dxxr as int);
    }
    let t1 = div_trunc(ar * SCALE, dxxr);
    proof {
        assert(0 <= t1 * ar <= crate::regression::R2_REDUCE as int * SCALE as int
            * crate::regression::R2_REDUCE as int) by (nonlinear_arith)
            requires
                0 <= t1 <= crate::regression::R2_REDUCE as int * SCALE as int,
                0 <= ar <= crate::regression::R2_REDUCE as int,
        ;
        lemma_tdiv_bounds((t1 * ar) as int, dyyr as int);
    }
    let raw = div_trunc(t1 * ar, dyyr);
    if raw > SCALE {
        SCALE
    } else if raw < 0 {
        0
    } else {
        raw
    }
}

/// Step bounds for the covariate sums.
proof fn lemma_cov_step(i: int, xv: int, yv: int)
    requires
        i >= 0,
        0 <= xv <= MAX_COVARIATE as int,
        -(COV_VALUE_CAP as int) <= yv <= COV_VALUE_CAP as int,
    ensures
        -(MAX_COVARIATE as int) * (COV_VALUE_CAP as int) <= xv * yv <= (MAX_COVARIATE as int) * (
        COV_VALUE_CAP as int),
        0 <= xv * xv <= (MAX_COVARIATE as int) * (MAX_COVARIATE as int),
        0 <= yv * yv <= (COV_VALUE_CAP as int) * (COV_VALUE_CAP as int),
        i * (MAX_COVARIATE as int) + MAX_COVARIATE as int == (i + 1) * (MAX_COVARIATE as int),
        i * (COV_VALUE_CAP as int) + COV_VALUE_CAP as int == (i + 1) * (COV_VALUE_CAP as int),
        i * (MAX_COVARIATE as int) * (COV_VALUE_CAP as int) + (MAX_COVARIATE as int) * (
        COV_VALUE_CAP as int) == (i + 1) * (MAX_COVARIATE as int) * (COV_VALUE_CAP as int),
        i * (MAX_COVARIATE as int) * (MAX_COVARIATE as int) + (MAX_COVARIATE as int) * (
        MAX_COVARIATE as int) == (i + 1) * (MAX_COVARIATE as int) * (MAX_COVARIATE as int),
        i * (COV_VALUE_CAP as int) * (COV_VALUE_CAP as int) + (COV_VALUE_CAP as int) * (
        COV_VALUE_CAP as int) == (i + 1) * (COV_VALUE_CAP as int) * (COV_VALUE_CAP as int),
{
    assert(-(MAX_COVARIATE as int) * (COV_VALUE_CAP as int) <= xv * yv <= (MAX_COVARIATE as int)
        * (COV_VALUE_CAP as int)) by (nonlinear_arith)
        requires
            0 <= xv <= MAX_COVARIATE as int,
            -(COV_VALUE_CAP as int) <= yv <= COV_VALUE_CAP as int,
    ;
    assert(0 <= xv * xv <= (MAX_COVARIATE as int) * (MAX_COVARIATE as int)) by (nonlinear_arith)
        requires
            0 <= xv <= MAX_COVARIATE as int,
    ;
    assert(0 <= yv * yv <= (COV_VALUE_CAP as int) * (COV_VALUE_CAP as int)) by (nonlinear_arith)
        requires
            -(COV_VALUE_CAP as int) <= yv <= COV_VALUE_CAP as int,
    ;
    assert(i * (MAX_COVARIATE as int) + MAX_COVARIATE as int == (i + 1) * (MAX_COVARIATE as int))
        by (nonlinear_arith);
    assert(i * (COV_VALUE_CAP as int) + COV_VALUE_CAP as int == (i + 1) * (COV_VALUE_CAP as int))
        by (nonlinear_arith);
    assert(i * (MAX_COVARIATE as int) * (COV_VALUE_CAP as int) + (MAX_COVARIATE as int) * (
    COV_VALUE_CAP as int) == (i + 1) * (MAX_COVARIATE as int) * (COV_VALUE_CAP as int))
        by (nonlinear_arith);
    assert(i * (MAX_COVARIATE as int) * (MAX_COVARIATE as int) + (MAX_COVARIATE as int) * (
    MAX_COVARIATE as int) == (i + 1) * (MAX_COVARIATE as int) * (MAX_COVARIATE as int))
        by (nonlinear_arith);
    assert(i * (COV_VALUE_CAP as int) * (COV_VALUE_CAP as int) + (COV_VALUE_CAP as int) * (
    COV_VALUE_CAP as int) == (i + 1) * (COV_VALUE_CAP as int) * (COV_VALUE_CAP as int))
        by (nonlinear_arith);
}

/// Final bounds for the covariate sums and the centered combinations.
proof fn lemma_cov_close(n: int)
    requires
        0 <= n <= MAX_SUBJECTS as int,
    ensures
        n * (MAX_COVARIATE as int) <= (MAX_SUBJECTS as int) * (MAX_COVARIATE as int),
        n * (COV_VALUE_CAP as int) <= (MAX_SUBJECTS as int) * (COV_VALUE_CAP as int),
        n * (MAX_COVARIATE as int) * (COV_VALUE_CAP as int) <= (MAX_SUBJECTS as int) * (
        MAX_COVARIATE as int) * (COV_VALUE_CAP as int),
        n * (MAX_COVARIATE as int) * (MAX_COVARIATE as int) <= (MAX_SUBJECTS as int) * (
        MAX_COVARIATE as int) * (MAX_COVARIATE as int),
        n * (COV_VALUE_CAP as int) * (COV_VALUE_CAP as int) <= (MAX_SUBJECTS as int) * (
        COV_VALUE_CAP as int) * (COV_VALUE_CAP as int),
{
    assert(n * (MAX_COVARIATE as int) <= (MAX_SUBJECTS as int) * (MAX_COVARIATE as int))
        by (nonlinear_arith)
        requires
            0 <= n <= MAX_SUBJECTS as int,
    ;
    assert(n * (COV_VALUE_CAP as int) <= (MAX_SUBJECTS as int) * (COV_VALUE_CAP as int))
        by (nonlinear_arith)
        requires
            0 <= n <= MAX_SUBJECTS as int,
    ;
    assert(n * (MAX_COVARIATE as int) * (COV_VALUE_CAP as int) <= (MAX_SUBJECTS as int) * (
    MAX_COVARIATE as int) * (COV_VALUE_CAP as int)) by (nonlinear_arith)
        requires
            0 <= n <= MAX_SUBJECTS as int,
    ;
    assert(n * (MAX_COVARIATE as int) * (MAX_COVARIATE as int) <= (MAX_SUBJECTS as int) * (
    MAX_COVARIATE as int) * (MAX_COVARIATE as int)) by (nonlinear_arith)
        requires
            0 <= n <= MAX_SUBJECTS as int,
    ;
    assert(n * (COV_VALUE_CAP as int) * (COV_VALUE_CAP as int) <= (MAX_SUBJECTS as int) * (
    COV_VALUE_CAP as int) * (COV_VALUE_CAP as int)) by (nonlinear_arith)
        requires
            0 <= n <= MAX_SUBJECTS as int,
    ;
}

/// The centered combinations of the covariate sums stay inside i128.
proof fn lemma_cov_centered(n: int, sx: int, sy: int, sxy: int, sxx: int, syy: int)
    requires
        0 <= n <= MAX_SUBJECTS as int,
        0 <= sx <= (MAX_SUBJECTS as int) * (MAX_COVARIATE as int),
        -(MAX_SUBJECTS as int) * (COV_VALUE_CAP as int) <= sy <= (MAX_SUBJECTS as int) * (
        COV_VALUE_CAP as int),
        -(MAX_SUBJECTS as int) * (MAX_COVARIATE as int) * (COV_VALUE_CAP as int) <= sxy <= (
        MAX_SUBJECTS as int) * (MAX_COVARIATE as int) * (COV_VALUE_CAP as int),
        0 <= sxx <= (MAX_SUBJECTS as int) * (MAX_COVARIATE as int) * (MAX_COVARIATE as int),
        0 <= syy <= (MAX_SUBJECTS as int) * (COV_VALUE_CAP as int) * (COV_VALUE_CAP as int),
    ensures
        -10_000_000_000_000_000_000_000_000_000_000int <= n * sxy
            <= 10_000_000_000_000_000_000_000_000_000_000int,
        -10_000_000_000_000_000_000_000_000_000_000int <= sx * sy
            <= 10_000_000_000_000_000_000_000_000_000_000int,
        0 <= n * sxx <= 2_000_000_000_000_000_000_000_000_000int,
        0 <= sx * sx <= 2_000_000_000_000_000_000_000_000_000int,
        0 <= n * syy <= 10_000_000_000_000_000_000_000_000_000_000_000_000int,
        0 <= sy * sy <= 10_000_000_000_000_000_000_000_000_000_000_000_000int,
{
    assert(-10_000_000_000_000_000_000_000_000_000_000int <= n * sxy
        <= 10_000_000_000_000_000_000_000_000_000_000int) by (nonlinear_arith)
        requires
            0 <= n <= 10_000,
            -1_000_000_000_000_000_000_000_000_000int <= sxy
                <= 1_000_000_000_000_000_000_000_000_000int,
    ;
    assert(-10_000_000_000_000_000_000_000_000_000_000int <= sx * sy
        <= 10_000_000_000_000_000_000_000_000_000_000int) by (nonlinear_arith)
        requires
            0 <= sx <= 10_000_000_000_000int,
            -1_000_000_000_000_000_000int <= sy <= 1_000_000_000_000_000_000int,
    ;
    assert(0 <= n * sxx <= 2_000_000_000_000_000_000_000_000_000int) by (nonlinear_arith)
        requires
            0 <= n <= 10_000,
            0 <= sxx <= 10_000_000_000_000_000_000_000int,
    ;
    assert(0 <= sx * sx <= 2_000_000_000_000_000_000_000_000_000int) by (nonlinear_arith)
        requires
            0 <= sx <= 10_000_000_000_000int,
    ;
    assert(0 <= n * syy <= 10_000_000_000_000_000_000_000_000_000_000_000_000int)
        by (nonlinear_arith)
        requires
            0 <= n <= 10_000,
            0 <= syy <= 1_000_000_000_000_000_000_000_000_000_000_000int,
    ;
    assert(0 <= sy * sy <= 10_000_000_000_000_000_000_000_000_000_000_000_000int)
        by (nonlinear_arith)
        requires
            -1_000_000_000_000_000_000int <= sy <= 1_000_000_000_000_000_000int,
    ;
}

/// isqrt of the x spread is bounded.
proof fn lemma_cov_isqrt(r: int, d: int)
    requires
        r >= 0,
        r * r <= d,
        d <= 4_000_000_000_000_000_000_000_000_000int,
    ensures
        r <= 100_000_000_000_000int,
{
    if r > 100_000_000_000_000int {
        assert(r * r > 4_000_000_000_000_000_000_000_000_000int) by (nonlinear_arith)
            requires
                r > 100_000_000_000_000int,
        ;
    }
}

/// isqrt of the y spread is bounded.
proof fn lemma_cov_isqrt_y(r: int, d: int)
    requires
        r >= 0,
        r * r <= d,
        d <= 25_000_000_000_000_000_000_000_000_000_000_000_000int,
    ensures
        r <= 5_000_000_000_000_000_000int,
{
    if r > 5_000_000_000_000_000_000int {
        assert(r * r > 25_000_000_000_000_000_000_000_000_000_000_000_000int) by (nonlinear_arith)
            requires
                r > 5_000_000_000_000_000_000int,
        ;
    }
}

} // verus!
