//! Per-subject non-compartmental analysis: ordering, the minimum-data gate,
//! primary parameters, per-method comparison, and plausibility warnings.
//! A per-parameter failure degrades to an absent field; only too little
//! data, or a value outside the fixed-point range in a mandatory quantity,
//! fails the subject.

use vstd::prelude::*;
use crate::auc::{aumc_value, auc_value, blq_filter, count_quantifiable, lemma_blq_filter_shape, lemma_count_quant_permutation, AucCalculator};
use crate::errors::NcaError;
use crate::fixed::{in_range, tdiv, tdiv_any, VAL_LIMIT};
use crate::math::LN2_FIXED;
use crate::models::{config_selection_wf, config_wf, obs_in_range, subject_wf, AnalysisConfig, AucMethod, DosingEvent, IndividualParameters, LambdaZSelection, NcaResults, Observation, Subject, MAX_CONC, MAX_OBS};
use crate::parameters::{cmax_index, tlast_spec, ParameterCalculator};
use crate::sorting::{sort_observations, sorted_by_time};
use crate::SCALE;

verus! {

/// The sum of the administered doses.
pub open spec fn total_dose_spec(events: Seq<DosingEvent>) -> int
    decreases events.len(),
{
    if events.len() == 0 {
        0
    } else {
        total_dose_spec(events.drop_last()) + events.last().dose
    }
}

/// The method whose AUC becomes AUC_last: linear trapezoidal when it is
/// configured, otherwise the first configured method.
pub open spec fn primary_method(methods: Seq<AucMethod>) -> AucMethod {
    if exists|j: int| 0 <= j < methods.len() && methods[j] == AucMethod::LinearTrapezoidal {
        AucMethod::LinearTrapezoidal
    } else {
        methods[0]
    }
}

/// A mandatory quantity of the analysis leaves the fixed-point range on
/// this ordered series: some configured method's AUC, or the AUMC.
pub open spec fn subject_range_failure(
    ss: Seq<Observation>,
    methods: Seq<AucMethod>,
    h: crate::models::LloqHandling,
) -> bool {
    ||| exists|j: int|
        0 <= j < methods.len() && !in_range(auc_value(#[trigger] methods[j], blq_filter(ss, h)))
    ||| !in_range(aumc_value(ss))
}

/// Some time-ordering of the subject's observations drives a mandatory
/// quantity out of the fixed-point range.
#[verifier::opaque]
pub open spec fn ordered_range_failure(
    s: Subject,
    methods: Seq<AucMethod>,
    h: crate::models::LloqHandling,
) -> bool {
    exists|ss: Seq<Observation>|
        #![trigger sorted_by_time(ss)]
        {
            &&& sorted_by_time(ss)
            &&& ss.to_multiset() == s.observations@.to_multiset()
            &&& subject_range_failure(ss, methods, h)
        }
}

/// The full value relations of a parameter bundle over the time-ordered
/// series it was computed from: every present field equals its formula,
/// and each optional field is present exactly when its preconditions held
/// and the value is representable.
pub open spec fn params_relations(
    p: IndividualParameters,
    obs: Seq<Observation>,
    methods: Seq<AucMethod>,
    h: crate::models::LloqHandling,
    dose: int,
) -> bool {
    let filtered = blq_filter(obs, h);
    let ci = cmax_index(obs, obs.len() as int);
    let lam = p.lambda_z->0 as int;
    let a_last = p.auc_last->0 as int;
    let a_inf_formula = a_last + tdiv(p.clast->0 * SCALE as int, lam);
    let a_inf = p.auc_inf->0 as int;
    let pct = tdiv((a_inf - a_last) * (100 * SCALE as int), a_inf);
    let am_formula = p.aumc_last->0 + tdiv(p.tlast->0 * p.clast->0, lam) + tdiv(
        p.clast->0 * SCALE as int * SCALE as int,
        lam * lam,
    );
    let cl_formula = tdiv(dose * SCALE as int, a_inf);
    let cl = p.clearance->0 as int;
    let mrt_formula = tdiv_any(p.aumc_inf->0 * SCALE as int, a_inf);
    let vss_formula = tdiv(cl * p.mrt->0, SCALE as int);
    let vz_formula = tdiv_any(cl * SCALE as int, lam);
    &&& p.auc_last is Some && a_last == auc_value(primary_method(methods), filtered)
    &&& p.aumc_last is Some && p.aumc_last->0 == aumc_value(obs)
    &&& p.cmax is Some && p.cmax->0 == obs[ci].concentration
    &&& p.tmax is Some && p.tmax->0 == obs[ci].time
    &&& p.tlast is Some && p.clast is Some && tlast_spec(obs) == Some((p.tlast->0, p.clast->0))
    &&& p.clast->0 > 0
    &&& (p.lambda_z is Some ==> 0 < p.lambda_z->0 && in_range(lam))
    &&& (p.lambda_z_r_squared is Some ==> 0 < p.lambda_z_r_squared->0 <= SCALE as int)
    &&& (p.auc_inf is Some <==> p.lambda_z is Some && in_range(a_inf_formula))
    &&& (p.auc_inf is Some ==> a_inf == a_inf_formula)
    &&& p.auc_inf_pred == p.auc_inf
    &&& (p.auc_percent_extrap is Some <==> p.auc_inf is Some && a_inf > 0 && in_range(pct))
    &&& (p.auc_percent_extrap is Some ==> p.auc_percent_extrap->0 == pct)
    &&& (p.aumc_inf is Some <==> p.lambda_z is Some && in_range(am_formula))
    &&& (p.aumc_inf is Some ==> p.aumc_inf->0 == am_formula)
    &&& (p.half_life is Some <==> p.lambda_z is Some)
    &&& (p.half_life is Some ==> p.half_life->0 == tdiv(LN2_FIXED as int * SCALE as int, lam)
        && p.half_life->0 >= 0)
    &&& (p.mrt is Some <==> p.aumc_inf is Some && p.auc_inf is Some && a_inf > 0 && in_range(
        mrt_formula,
    ))
    &&& (p.mrt is Some ==> p.mrt->0 == mrt_formula)
    &&& (p.clearance is Some <==> p.auc_inf is Some && a_inf > 0 && in_range(cl_formula))
    &&& (p.clearance is Some ==> cl == cl_formula && cl >= 0)
    &&& (p.volume_steady_state is Some <==> p.clearance is Some && p.mrt is Some && cl > 0
        && p.mrt->0 > 0 && in_range(vss_formula))
    &&& (p.volume_steady_state is Some ==> p.volume_steady_state->0 == vss_formula
        && p.volume_steady_state->0 >= 0)
    &&& (p.volume_terminal is Some <==> p.clearance is Some && p.lambda_z is Some && cl > 0
        && in_range(vz_formula))
    &&& (p.volume_terminal is Some ==> p.volume_terminal->0 == vz_formula && p.volume_terminal->0
        >= 0)
    &&& p.bioavailability is None
    &&& crate::models::params_in_range(p)
}

/// The conditional-validity corollary of `params_relations` that the
/// population layer carries: presence only under preconditions, and no
/// negative value where the formula forbids one.
pub open spec fn derived_consistent(p: IndividualParameters) -> bool {
    &&& p.auc_last is Some
    &&& p.aumc_last is Some
    &&& p.cmax is Some
    &&& p.tmax is Some
    &&& p.tlast is Some
    &&& p.clast is Some
    &&& p.clast->0 > 0
    &&& (p.lambda_z is Some ==> p.lambda_z->0 > 0)
    &&& (p.lambda_z_r_squared is Some ==> 0 < p.lambda_z_r_squared->0 <= SCALE as int)
    &&& (p.auc_inf is Some ==> p.lambda_z is Some)
    &&& p.auc_inf_pred == p.auc_inf
    &&& (p.auc_percent_extrap is Some ==> p.auc_inf is Some && p.auc_inf->0 > 0)
    &&& (p.aumc_inf is Some ==> p.lambda_z is Some)
    &&& (p.half_life is Some <==> p.lambda_z is Some)
    &&& (p.half_life is Some ==> p.half_life->0 >= 0)
    &&& (p.mrt is Some ==> p.auc_inf is Some && p.auc_inf->0 > 0)
    &&& (p.clearance is Some ==> p.auc_inf is Some && p.auc_inf->0 > 0 && p.clearance->0 >= 0)
    &&& (p.volume_steady_state is Some ==> p.clearance is Some && p.mrt is Some && p.clearance->0
        > 0 && p.mrt->0 > 0 && p.volume_steady_state->0 >= 0)
    &&& (p.volume_terminal is Some ==> p.clearance is Some && p.lambda_z is Some && p.clearance->0
        > 0 && p.volume_terminal->0 >= 0)
    &&& p.bioavailability is None
    &&& crate::models::params_in_range(p)
}

/// The value relations imply the conditional-validity corollary.
pub proof fn lemma_relations_imply_consistent(
    p: IndividualParameters,
    obs: Seq<Observation>,
    methods: Seq<AucMethod>,
    h: crate::models::LloqHandling,
    dose: int,
)
    requires
        params_relations(p, obs, methods, h, dose),
    ensures
        derived_consistent(p),
{
}

pub struct NcaAnalyzer;

impl NcaAnalyzer {
    /// Analyze one subject: order the observations, require at least three
    /// quantifiable points, compute primary parameters and one comparison
    /// entry per configured AUC method, and collect warnings.
    ///
    /// The subject fails with InsufficientData exactly when it has fewer
    /// than three quantifiable observations; the only other failure is a
    /// mandatory quantity outside the fixed-point range.
    pub fn analyze_subject(subject: &Subject, config: &AnalysisConfig) -> (r: Result<
        (NcaResults, Vec<String>),
        NcaError,
    >)
        requires
            subject_wf(*subject),
            config_wf(*config),
        ensures
            match r {
                Ok(t) => {
                    &&& count_quantifiable(subject.observations@) >= 3
                    &&& t.0.subject_id@ == subject.id@
                    &&& derived_consistent(t.0.individual_parameters)
                    &&& t.0.method_comparisons@.len() <= config.auc_methods@.len()
                    &&& forall|k: int|
                        0 <= k < t.0.method_comparisons@.len() ==> derived_consistent(
                            (#[trigger] t.0.method_comparisons@[k]).1,
                        )
                    &&& exists|ss: Seq<Observation>|
                        #![trigger sorted_by_time(ss)]
                        {
                            &&& sorted_by_time(ss)
                            &&& ss.to_multiset() == subject.observations@.to_multiset()
                            &&& ss.len() == subject.observations@.len()
                            &&& params_relations(
                                t.0.individual_parameters,
                                ss,
                                config.auc_methods@,
                                config.lloq_handling,
                                total_dose_spec(subject.dosing_events@),
                            )
                            &&& forall|k: int|
                                0 <= k < t.0.method_comparisons@.len() ==> params_relations(
                                    (#[trigger] t.0.method_comparisons@[k]).1,
                                    ss,
                                    seq![t.0.method_comparisons@[k].0],
                                    config.lloq_handling,
                                    total_dose_spec(subject.dosing_events@),
                                )
                        }
                    &&& forall|k: int|
                        0 <= k < t.0.method_comparisons@.len() ==> exists|j: int|
                            0 <= j < config.auc_methods@.len() && (
                            #[trigger] t.0.method_comparisons@[k]).0 == config.auc_methods@[j]
                },
                Err(e) => {
                    &&& ((e matches NcaError::InsufficientData(_)) <==> count_quantifiable(
                        subject.observations@,
                    ) < 3)
                    &&& ((e matches NcaError::InsufficientData(_)) || (e
                        matches NcaError::MathError(_)))
                    &&& ((e matches NcaError::MathError(_)) ==> ordered_range_failure(
                        *subject,
                        config.auc_methods@,
                        config.lloq_handling,
                    ))
                    &&& e.message_spec().len() > 0
                    &&& ((e matches NcaError::InsufficientData(_)) ==> e.message_spec()
                        == "Too few quantifiable concentrations (minimum 3 required)"@)
                },
            },
    {
        let observations = &subject.observations;
        let quantifiable_count = count_quant(observations);
        if quantifiable_count < 3 {
            proof {
                reveal_strlit("Too few quantifiable concentrations (minimum 3 required)");
            }
            return Err(
                NcaError::InsufficientData(
                    "Too few quantifiable concentrations (minimum 3 required)".to_owned(),
                ),
            );
        }
        let sorted_obs = sort_observations(observations);
        proof {
            lemma_sorted_obs_in_range(sorted_obs@, observations@);
            lemma_count_quant_permutation(observations@, sorted_obs@);
        }
        let total_dose = calculate_total_dose(subject);
        let individual_params = match Self::calculate_individual_parameters(
            &sorted_obs,
            total_dose,
            config,
        ) {
            Ok(p) => p,
            Err(e) => {
                proof {
                    reveal(ordered_range_failure);
                    assert(sorted_by_time(sorted_obs@) && sorted_obs@.to_multiset()
                        == subject.observations@.to_multiset() && subject_range_failure(
                        sorted_obs@,
                        config.auc_methods@,
                        config.lloq_handling,
                    ));
                }
                return Err(e);
            },
        };
        let mut method_comparisons: Vec<(AucMethod, IndividualParameters)> = Vec::new();
        let mut j: usize = 0;
        while j < config.auc_methods.len()
            invariant
                0 <= j <= config.auc_methods@.len(),
                subject_wf(*subject),
                config_wf(*config),
                0 <= total_dose <= VAL_LIMIT,
                total_dose == total_dose_spec(subject.dosing_events@),
                sorted_obs@.len() == subject.observations@.len(),
                count_quantifiable(sorted_obs@) >= 3,
                forall|i: int| 0 <= i < sorted_obs@.len() ==> obs_in_range(#[trigger] sorted_obs@[i]),
                method_comparisons@.len() <= j,
                forall|k: int|
                    0 <= k < method_comparisons@.len() ==> params_relations(
                        (#[trigger] method_comparisons@[k]).1,
                        sorted_obs@,
                        seq![method_comparisons@[k].0],
                        config.lloq_handling,
                        total_dose as int,
                    ) && derived_consistent(method_comparisons@[k].1),
                forall|k: int|
                    0 <= k < method_comparisons@.len() ==> exists|j2: int|
                        0 <= j2 < config.auc_methods@.len() && (
                        #[trigger] method_comparisons@[k]).0 == config.auc_methods@[j2],
            decreases config.auc_methods@.len() - j,
        {
            let m = config.auc_methods[j];
            let mut one_method: Vec<AucMethod> = Vec::new();
            one_method.push(m);
            let method_config = AnalysisConfig {
                auc_methods: one_method,
                lambda_z_selection: clone_selection(&config.lambda_z_selection),
                interpolation_method: config.interpolation_method,
                output_path: String::new(),
                lloq_handling: config.lloq_handling,
                time_units: String::new(),
                concentration_units: String::new(),
                stratification: None,
                perform_covariate_analysis: false,
                dose_normalization: false,
            };
            match Self::calculate_individual_parameters(&sorted_obs, total_dose, &method_config) {
                Ok(p) => {
                    proof {
                        assert(method_config.auc_methods@ =~= seq![m]);
                        lemma_relations_imply_consistent(
                            p,
                            sorted_obs@,
                            seq![m],
                            config.lloq_handling,
                            total_dose as int,
                        );
                    }
                    method_comparisons.push((m, p));
                    proof {
                        let ghost jw: int = j as int;
                        assert(0 <= jw < config.auc_methods@.len() && method_comparisons@[
                        method_comparisons@.len() - 1].0 == config.auc_methods@[jw]);
                    }
                },
                Err(_) => {},
            }
            j = j + 1;
        }
        proof {
            lemma_relations_imply_consistent(
                individual_params,
                sorted_obs@,
                config.auc_methods@,
                config.lloq_handling,
                total_dose as int,
            );
        }
        let results = NcaResults {
            subject_id: subject.id.clone(),
            individual_parameters: individual_params,
            method_comparisons,
        };
        let warnings = Self::check_parameter_completeness(&results);
        Ok((results, warnings))
    }

    /// Primary parameter computation over a time-ordered series with at
    /// least three quantifiable points. Every optional parameter degrades to
    /// absent when its own preconditions fail; the result is an error only
    /// when a mandatory quantity leaves the representable range.
    fn calculate_individual_parameters(
        observations: &Vec<Observation>,
        total_dose: i128,
        config: &AnalysisConfig,
    ) -> (r: Result<IndividualParameters, NcaError>)
        requires
            observations@.len() <= MAX_OBS as int,
            forall|i: int|
                0 <= i < observations@.len() ==> obs_in_range(#[trigger] observations@[i]),
            count_quantifiable(observations@) >= 3,
            0 <= total_dose <= VAL_LIMIT,
            config_wf(*config),
        ensures
            match r {
                Ok(p) => params_relations(
                    p,
                    observations@,
                    config.auc_methods@,
                    config.lloq_handling,
                    total_dose as int,
                ),
                Err(e) => (e matches NcaError::MathError(_)) && subject_range_failure(
                    observations@,
                    config.auc_methods@,
                    config.lloq_handling,
                ) && e.message_spec().len() > 0,
            },
    {
        proof {
            lemma_count_quant_bound(observations@);
            crate::parameters::lemma_quant_tlast_some(observations@);
        }
        let (cmax, tmax) = match ParameterCalculator::calculate_cmax_tmax(observations) {
            Ok(t) => t,
            Err(e) => {
                proof {
                    reveal_strlit("No observations available");
                }
                return Err(NcaError::MathError("No observations available".to_owned()));
            },
        };
        let (tlast, clast) = match ParameterCalculator::find_tlast_clast(observations) {
            Some(t) => t,
            None => {
                proof {
                    reveal_strlit("No quantifiable concentrations");
                }
                return Err(NcaError::MathError("No quantifiable concentrations".to_owned()));
            },
        };
        proof {
            lemma_tlast_in_range(observations@);
            lemma_cmax_in_range(observations@, observations@.len() as int);
            lemma_blq_filter_shape(observations@, config.lloq_handling);
        }
        let auc_methods = match AucCalculator::calculate_all_methods(observations, config) {
            Ok(v) => v,
            Err(e) => {
                proof {
                    lemma_blq_filter_shape(observations@, config.lloq_handling);
                    reveal_strlit("AUC outside the representable range");
                }
                return Err(NcaError::MathError("AUC outside the representable range".to_owned()));
            },
        };
        let mut pick: usize = 0;
        let mut j: usize = 0;
        while j < config.auc_methods.len()
            invariant
                0 <= j <= config.auc_methods@.len(),
                config_wf(*config),
                (pick == 0 && forall|k: int|
                    0 <= k < j ==> (#[trigger] config.auc_methods@[k])
                        != AucMethod::LinearTrapezoidal) || (pick < j
                    && config.auc_methods@[pick as int] == AucMethod::LinearTrapezoidal),
            decreases config.auc_methods@.len() - j,
        {
            if config.auc_methods[j] == AucMethod::LinearTrapezoidal && pick == 0 {
                pick = j;
            }
            j = j + 1;
        }
        proof {
            assert(config.auc_methods@[pick as int] == primary_method(config.auc_methods@));
        }
        let auc_last = auc_methods[pick].1;
        let (lambda_z, lambda_z_r_squared) = match ParameterCalculator::calculate_lambda_z(
            observations,
            &config.lambda_z_selection,
        ) {
            Ok(t) => (t.0, t.1),
            Err(_) => (0, 0),
        };
        let (auc_inf, auc_inf_pred) = if lambda_z > 0 {
            match AucCalculator::calculate_auc_inf(auc_last, clast, lambda_z) {
                Ok(v) => (Some(v), Some(v)),
                Err(_) => (None, None),
            }
        } else {
            (None, None)
        };
        let auc_percent_extrap = match auc_inf {
            Some(auc_inf_val) => {
                match ParameterCalculator::calculate_auc_percent_extrap(auc_last, auc_inf_val) {
                    Ok(v) => Some(v),
                    Err(_) => None,
                }
            },
            None => None,
        };
        let aumc_last = match AucCalculator::calculate_aumc(observations) {
            Ok(v) => v,
            Err(e) => {
                proof {
                    reveal_strlit("AUMC outside the representable range");
                }
                return Err(
                    NcaError::MathError("AUMC outside the representable range".to_owned()),
                );
            },
        };
        let aumc_inf = if lambda_z > 0 {
            match AucCalculator::calculate_aumc_inf(aumc_last, tlast, clast, lambda_z) {
                Ok(v) => Some(v),
                Err(_) => None,
            }
        } else {
            None
        };
        let half_life = if lambda_z > 0 {
            match ParameterCalculator::calculate_half_life(lambda_z) {
                Ok(v) => Some(v),
                Err(_) => None,
            }
        } else {
            None
        };
        let mrt = match (aumc_inf, auc_inf) {
            (Some(aumc_inf_val), Some(auc_inf_val)) => {
                match ParameterCalculator::calculate_mrt(aumc_inf_val, auc_inf_val) {
                    Ok(v) => Some(v),
                    Err(_) => None,
                }
            },
            _ => None,
        };
        let (clearance, volume_steady_state, volume_terminal) =
            Self::calculate_clearance_and_volumes(total_dose, auc_inf, lambda_z, mrt);
        proof {
            if half_life is Some {
                crate::fixed::lemma_tdiv_bounds(
                    LN2_FIXED as int * SCALE as int,
                    lambda_z as int,
                );
            }
        }
        Ok(
            IndividualParameters {
                auc_last: Some(auc_last),
                auc_inf,
                auc_inf_pred,
                auc_percent_extrap,
                aumc_last: Some(aumc_last),
                aumc_inf,
                cmax: Some(cmax),
                tmax: Some(tmax),
                tlast: Some(tlast),
                clast: Some(clast),
                half_life,
                lambda_z: if lambda_z > 0 {
                    Some(lambda_z)
                } else {
                    None
                },
                lambda_z_r_squared: if lambda_z_r_squared > 0 {
                    Some(lambda_z_r_squared)
                } else {
                    None
                },
                clearance,
                volume_steady_state,
                volume_terminal,
                mrt,
                bioavailability: None,
            },
        )
    }

    /// Clearance and the two volumes; each absent exactly when its own
    /// preconditions fail or its value would leave the range.
    fn calculate_clearance_and_volumes(
        total_dose: i128,
        auc_inf: Option<i128>,
        lambda_z: i128,
        mrt: Option<i128>,
    ) -> (r: (Option<i128>, Option<i128>, Option<i128>))
        requires
            0 <= total_dose <= VAL_LIMIT,
            auc_inf is Some ==> in_range(auc_inf->0 as int),
            in_range(lambda_z as int),
            mrt is Some ==> in_range(mrt->0 as int),
        ensures
            ({
                let cl_f = tdiv(total_dose * SCALE as int, auc_inf->0 as int);
                let vss_f = tdiv(r.0->0 * mrt->0, SCALE as int);
                let vz_f = tdiv_any(r.0->0 * SCALE as int, lambda_z as int);
                &&& (r.0 is Some <==> auc_inf is Some && auc_inf->0 > 0 && in_range(cl_f))
                &&& (r.0 is Some ==> r.0->0 == cl_f && r.0->0 >= 0 && in_range(r.0->0 as int))
                &&& (r.1 is Some <==> r.0 is Some && mrt is Some && r.0->0 > 0 && mrt->0 > 0
                    && in_range(vss_f))
                &&& (r.1 is Some ==> r.1->0 == vss_f && r.1->0 >= 0 && in_range(r.1->0 as int))
                &&& (r.2 is Some <==> r.0 is Some && lambda_z > 0 && r.0->0 > 0 && in_range(vz_f))
                &&& (r.2 is Some ==> r.2->0 == vz_f && r.2->0 >= 0 && in_range(r.2->0 as int))
            }),
    {
        let clearance: Option<i128> = match auc_inf {
            Some(auc_inf_val) => {
                if auc_inf_val > 0 {
                    match ParameterCalculator::calculate_clearance_iv(total_dose, auc_inf_val) {
                        Ok(v) => {
                            proof {
                                crate::fixed::lemma_tdiv_bounds(
                                    total_dose * SCALE as int,
                                    auc_inf_val as int,
                                );
                            }
                            Some(v)
                        },
                        Err(_) => None,
                    }
                } else {
                    None
                }
            },
            None => None,
        };
        let volume_steady_state: Option<i128> = match (clearance, mrt) {
            (Some(cl), Some(mrt_val)) => {
                match ParameterCalculator::calculate_vss(cl, mrt_val) {
                    Ok(v) => {
                        proof {
                            crate::fixed::lemma_tdiv_bounds(
                                cl as int * mrt_val as int,
                                SCALE as int,
                            );
                            assert(cl as int * mrt_val as int >= 0) by (nonlinear_arith)
                                requires
                                    cl > 0,
                                    mrt_val > 0,
                            ;
                        }
                        Some(v)
                    },
                    Err(_) => None,
                }
            },
            _ => None,
        };
        let volume_terminal: Option<i128> = match clearance {
            Some(cl) => {
                if lambda_z > 0 {
                    match ParameterCalculator::calculate_vz(cl, lambda_z) {
                        Ok(v) => {
                            proof {
                                crate::fixed::lemma_tdiv_bounds(
                                    cl as int * SCALE as int,
                                    lambda_z as int,
                                );
                                assert(cl as int * SCALE as int >= 0) by (nonlinear_arith)
                                    requires
                                        cl > 0,
                                ;
                            }
                            Some(v)
                        },
                        Err(_) => None,
                    }
                } else {
                    None
                }
            },
            None => None,
        };
        (clearance, volume_steady_state, volume_terminal)
    }

    /// Warnings about parameters that could not be computed or look
    /// unreliable.
    fn check_parameter_completeness(results: &NcaResults) -> (r: Vec<String>)
        ensures
            r@.len() <= 7,
    {
        let mut warnings: Vec<String> = Vec::new();
        let params = &results.individual_parameters;
        if params.auc_inf.is_none() {
            warnings.push(
                "AUC_inf could not be calculated - insufficient terminal phase data".to_owned(),
            );
        }
        if params.lambda_z.is_none() {
            warnings.push(
                "Lambda_z could not be calculated - poor terminal phase fit".to_owned(),
            );
        }
        if params.half_life.is_none() {
            warnings.push(
                "Half-life could not be calculated - lambda_z unavailable".to_owned(),
            );
        }
        if params.clearance.is_none() {
            warnings.push("Clearance could not be calculated - AUC_inf unavailable".to_owned());
        }
        if params.mrt.is_none() {
            warnings.push(
                "MRT could not be calculated - AUMC_inf or AUC_inf unavailable".to_owned(),
            );
        }
        match params.auc_percent_extrap {
            Some(extrap) => {
                if extrap > 20 * SCALE {
                    warnings.push(
                        "High AUC extrapolation - results may be unreliable".to_owned(),
                    );
                }
            },
            None => {},
        }
        match params.lambda_z_r_squared {
            Some(r_sq) => {
                if r_sq < crate::parameters::R2_AUTO_THRESHOLD {
                    warnings.push(
                        "Poor terminal phase fit - lambda_z may be unreliable".to_owned(),
                    );
                }
            },
            None => {},
        }
        warnings
    }

    /// Quality-control warnings over a finished result.
    pub fn validate_results(results: &NcaResults) -> (r: Vec<String>)
        ensures
            r@.len() <= 3,
            r@.len() == validate_warning_count(results.individual_parameters),
    {
        let mut warnings: Vec<String> = Vec::new();
        let params = &results.individual_parameters;
        match params.auc_percent_extrap {
            Some(extrap) => {
                if extrap > 20 * SCALE {
                    warnings.push(
                        "High AUC extrapolation for subject ".to_owned().concat(
                            results.subject_id.as_str(),
                        ),
                    );
                }
            },
            None => {},
        }
        match params.lambda_z_r_squared {
            Some(r_sq) => {
                if r_sq < crate::parameters::R2_AUTO_THRESHOLD {
                    warnings.push(
                        "Poor terminal phase fit for subject ".to_owned().concat(
                            results.subject_id.as_str(),
                        ),
                    );
                }
            },
            None => {},
        }
        match params.half_life {
            Some(t_half) => {
                if t_half < SCALE / 10 || t_half > 1000 * SCALE {
                    warnings.push(
                        "Unusual half-life outside the plausible range for subject "
                            .to_owned().concat(results.subject_id.as_str()),
                    );
                }
            },
            None => {},
        }
        warnings
    }
}

/// How many quality-control warnings a bundle triggers.
pub open spec fn validate_warning_count(p: IndividualParameters) -> int {
    (if p.auc_percent_extrap is Some && p.auc_percent_extrap->0 > 20 * SCALE as int {
        1int
    } else {
        0int
    }) + (if p.lambda_z_r_squared is Some && p.lambda_z_r_squared->0
        < crate::parameters::R2_AUTO_THRESHOLD as int {
        1int
    } else {
        0int
    }) + (if p.half_life is Some && (p.half_life->0 < SCALE as int / 10 || p.half_life->0 > 1000
        * SCALE as int) {
        1int
    } else {
        0int
    })
}

/// Count the quantifiable observations of a series.
pub fn count_quant(observations: &Vec<Observation>) -> (r: usize)
    ensures
        r == count_quantifiable(observations@),
        r <= observations@.len(),
{
    let mut c: usize = 0;
    let mut i: usize = 0;
    proof {
        assert(observations@.take(0) =~= Seq::<Observation>::empty());
        lemma_count_quant_bound(observations@.take(0));
    }
    while i < observations.len()
        invariant
            0 <= i <= observations@.len(),
            c == count_quantifiable(observations@.take(i as int)),
            c <= i,
        decreases observations@.len() - i,
    {
        proof {
            assert(observations@.take(i as int + 1).drop_last() =~= observations@.take(i as int));
        }
        let o = observations[i];
        if o.concentration > 0 && !o.bloq {
            c = c + 1;
        }
        i = i + 1;
    }
    proof {
        assert(observations@.take(observations@.len() as int) =~= observations@);
    }
    c
}

/// Quantifiable counts never exceed the length.
proof fn lemma_count_quant_bound(obs: Seq<Observation>)
    ensures
        0 <= count_quantifiable(obs) <= obs.len(),
    decreases obs.len(),
{
    if obs.len() > 0 {
        lemma_count_quant_bound(obs.drop_last());
    }
}

/// The total administered dose of a subject.
fn calculate_total_dose(subject: &Subject) -> (r: i128)
    requires
        subject_wf(*subject),
    ensures
        0 <= r <= VAL_LIMIT,
        r == total_dose_spec(subject.dosing_events@),
{
    let mut total: i128 = 0;
    let mut i: usize = 0;
    proof {
        assert(subject.dosing_events@.take(0) =~= Seq::<DosingEvent>::empty());
    }
    while i < subject.dosing_events.len()
        invariant
            subject_wf(*subject),
            0 <= i <= subject.dosing_events@.len(),
            0 <= total <= (i as int) * (MAX_CONC as int),
            total == total_dose_spec(subject.dosing_events@.take(i as int)),
        decreases subject.dosing_events@.len() - i,
    {
        proof {
            assert(subject.dosing_events@.take(i as int + 1).drop_last() =~= subject.dosing_events@.take(
                i as int,
            ));
            assert((i as int) * (MAX_CONC as int) + MAX_CONC as int == (i as int + 1) * (
            MAX_CONC as int)) by (nonlinear_arith);
            assert((i as int + 1) * (MAX_CONC as int) <= (MAX_OBS as int) * (MAX_CONC as int))
                by (nonlinear_arith)
                requires
                    i as int + 1 <= MAX_OBS as int,
            ;
        }
        total = total + subject.dosing_events[i].dose;
        i = i + 1;
    }
    proof {
        assert(subject.dosing_events@.take(subject.dosing_events@.len() as int)
            =~= subject.dosing_events@);
        assert((subject.dosing_events@.len() as int) * (MAX_CONC as int) <= (MAX_OBS as int) * (
        MAX_CONC as int)) by (nonlinear_arith)
            requires
                subject.dosing_events@.len() as int <= MAX_OBS as int,
        ;
    }
    total
}

/// Copy a selection so that a per-method configuration can be built.
fn clone_selection(s: &LambdaZSelection) -> (r: LambdaZSelection)
    requires
        config_selection_wf(*s),
    ensures
        config_selection_wf(r),
{
    match s {
        LambdaZSelection::Auto => LambdaZSelection::Auto,
        LambdaZSelection::Manual(idxs) => {
            let mut copied: Vec<usize> = Vec::new();
            let mut i: usize = 0;
            while i < idxs.len()
                invariant
                    0 <= i <= idxs@.len(),
                    copied@ == idxs@.take(i as int),
                decreases idxs@.len() - i,
            {
                copied.push(idxs[i]);
                i = i + 1;
            }
            proof {
                assert(idxs@.take(idxs@.len() as int) =~= idxs@);
            }
            LambdaZSelection::Manual(copied)
        },
        LambdaZSelection::BestFit { min_points, r_squared_threshold } => LambdaZSelection::BestFit {
            min_points: *min_points,
            r_squared_threshold: *r_squared_threshold,
        },
    }
}

/// A permutation of in-range observations is in range.
proof fn lemma_sorted_obs_in_range(s: Seq<Observation>, obs: Seq<Observation>)
    requires
        s.to_multiset() == obs.to_multiset(),
        forall|i: int| 0 <= i < obs.len() ==> obs_in_range(#[trigger] obs[i]),
    ensures
        forall|i: int| 0 <= i < s.len() ==> obs_in_range(#[trigger] s[i]),
{
    assert forall|i: int| 0 <= i < s.len() implies obs_in_range(#[trigger] s[i]) by {
        vstd::seq_lib::to_multiset_contains(s, s[i]);
        vstd::seq_lib::to_multiset_contains(obs, s[i]);
        assert(s.contains(s[i]));
        assert(obs.contains(s[i]));
        let j = choose|j: int| 0 <= j < obs.len() && obs[j] == s[i];
        assert(obs_in_range(obs[j]));
    }
}

/// The last quantifiable observation is in range and positive.
proof fn lemma_tlast_in_range(obs: Seq<Observation>)
    requires
        forall|i: int| 0 <= i < obs.len() ==> obs_in_range(#[trigger] obs[i]),
    ensures
        tlast_spec(obs) is Some ==> {
            let t = tlast_spec(obs)->0;
            &&& 0 <= t.0 <= crate::models::MAX_TIME as int
            &&& 0 < t.1 <= MAX_CONC as int
        },
    decreases obs.len(),
{
    if obs.len() > 0 {
        let rest = obs.drop_last();
        assert(forall|i: int| 0 <= i < rest.len() ==> obs_in_range(#[trigger] rest[i]));
        lemma_tlast_in_range(rest);
    }
}

/// The first-maximum index is a valid index.
proof fn lemma_cmax_in_range(obs: Seq<Observation>, k: int)
    requires
        1 <= k <= obs.len(),
    ensures
        0 <= cmax_index(obs, k) < k,
    decreases k,
{
    if k > 1 {
        lemma_cmax_in_range(obs, k - 1);
    }
}

} // verus!
