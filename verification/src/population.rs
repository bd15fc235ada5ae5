//! Population-level aggregation: a data-parallel fan-out of the per-subject
//! analysis with per-unit failure isolation, summary statistics per
//! parameter, and cross-method comparison.

use vstd::prelude::*;
use rayon::iter::{IntoParallelRefIterator, ParallelIterator};
use crate::auc::count_quantifiable;
use crate::sorting::sorted_by_time;
use crate::covariate::CovariateAnalyzer;
use crate::errors::NcaError;
use crate::fixed::{in_range, VAL_LIMIT};
use crate::models::{config_wf, subject_wf, AnalysisConfig, AucMethod, CovariateAnalysis, FailedSubjectAnalysis, IndividualParameters, MethodComparison, NcaResults, ParamKind, PopulationResults, SummaryStatistics, Subject, MAX_SUBJECTS};
use crate::nca::{count_quant, derived_consistent, NcaAnalyzer};
use crate::stats::calculate_parameter_stats;
use crate::SCALE;

verus! {

/// What one subject's unit of work produced.
pub enum SubjectOutcome {
    Analyzed(NcaResults, Vec<String>),
    Failed(FailedSubjectAnalysis),
}

/// What a failure record promises: the true identity and data counts of
/// its subject, and that a real failure condition held — too few
/// quantifiable points, or a mandatory quantity outside the fixed-point
/// range on some time-ordering of the observations.
pub open spec fn failure_record_ok(
    f: FailedSubjectAnalysis,
    s: Subject,
    cfg: AnalysisConfig,
) -> bool {
    &&& f.subject_id@ == s.id@
    &&& f.total_observations == s.observations@.len()
    &&& f.quantifiable_concentrations == count_quantifiable(s.observations@)
    &&& f.failure_reason@.len() > 0
    &&& (count_quantifiable(s.observations@) < 3 ==> f.failure_reason@
        == "Too few quantifiable concentrations (minimum 3 required)"@)
    &&& (count_quantifiable(s.observations@) < 3 || crate::nca::ordered_range_failure(
        s,
        cfg.auc_methods@,
        cfg.lloq_handling,
    ))
}

/// The analyzed payloads of an outcome list, in order.
pub open spec fn analyzed_of(outs: Seq<SubjectOutcome>) -> Seq<NcaResults>
    decreases outs.len(),
{
    if outs.len() == 0 {
        Seq::empty()
    } else {
        analyzed_of(outs.drop_last()) + match outs.last() {
            SubjectOutcome::Analyzed(res, _) => seq![res],
            SubjectOutcome::Failed(_) => Seq::empty(),
        }
    }
}

/// The failure payloads of an outcome list, in order.
pub open spec fn failed_of(outs: Seq<SubjectOutcome>) -> Seq<FailedSubjectAnalysis>
    decreases outs.len(),
{
    if outs.len() == 0 {
        Seq::empty()
    } else {
        failed_of(outs.drop_last()) + match outs.last() {
            SubjectOutcome::Analyzed(_, _) => Seq::empty(),
            SubjectOutcome::Failed(f) => seq![f],
        }
    }
}

/// The subject-to-outcome correspondence of a selected run: each selected
/// index yields exactly one outcome, truthful of its own subject, and the
/// two output lists are exactly the analyzed and failed payloads of that
/// outcome list in order.
pub open spec fn outcome_partition(
    outs: Seq<SubjectOutcome>,
    subjects: Seq<Subject>,
    indices: Seq<usize>,
    cfg: AnalysisConfig,
    analyzed: Seq<NcaResults>,
    failed: Seq<FailedSubjectAnalysis>,
) -> bool {
    &&& outs.len() == indices.len()
    &&& forall|k: int|
        0 <= k < outs.len() ==> subject_outcome_ok(
            subjects[indices[k] as int],
            cfg,
            #[trigger] outs[k],
        )
    &&& analyzed == analyzed_of(outs)
    &&& failed == failed_of(outs)
}

/// The whole-population form: one outcome per subject, in subject order.
pub open spec fn population_partition(
    outs: Seq<SubjectOutcome>,
    subjects: Seq<Subject>,
    cfg: AnalysisConfig,
    analyzed: Seq<NcaResults>,
    failed: Seq<FailedSubjectAnalysis>,
) -> bool {
    &&& outs.len() == subjects.len()
    &&& forall|k: int|
        0 <= k < outs.len() ==> subject_outcome_ok(subjects[k], cfg, #[trigger] outs[k])
    &&& analyzed == analyzed_of(outs)
    &&& failed == failed_of(outs)
}

/// The record truthfully describes some subject of the list.
pub open spec fn has_failure_source(
    f: FailedSubjectAnalysis,
    subjects: Seq<Subject>,
    cfg: AnalysisConfig,
) -> bool {
    exists|j: int|
        #![trigger subjects[j]]
        0 <= j < subjects.len() && failure_record_ok(f, subjects[j], cfg)
}

/// The guarantee every outcome of the per-subject unit satisfies: a subject
/// with too little data never appears analyzed, an analyzed result carries
/// consistent parameters under the subject's identity, and a failure record
/// is truthful.
pub open spec fn subject_outcome_ok(s: Subject, cfg: AnalysisConfig, outcome: SubjectOutcome) -> bool {
    &&& (count_quantifiable(s.observations@) < 3 ==> outcome is Failed)
    &&& match outcome {
        SubjectOutcome::Analyzed(res, _) => {
            &&& res.subject_id@ == s.id@
            &&& count_quantifiable(s.observations@) >= 3
            &&& derived_consistent(res.individual_parameters)
            &&& forall|k: int|
                0 <= k < res.method_comparisons@.len() ==> derived_consistent(
                    (#[trigger] res.method_comparisons@[k]).1,
                )
        },
        SubjectOutcome::Failed(f) => failure_record_ok(f, s, cfg),
    }
}

pub struct PopulationAnalyzer;

impl PopulationAnalyzer {
    /// One subject's unit of work: analysis, validation warnings, or a
    /// failure record carrying the data counts.
    pub fn process_subject(subject: &Subject, config: &AnalysisConfig) -> (r: SubjectOutcome)
        requires
            subject_wf(*subject),
            config_wf(*config),
        ensures
            subject_outcome_ok(*subject, *config, r),
    {
        match NcaAnalyzer::analyze_subject(subject, config) {
            Ok((result, warnings)) => {
                let validation = NcaAnalyzer::validate_results(&result);
                let mut all = warnings;
                let mut i: usize = 0;
                while i < validation.len()
                    invariant
                        0 <= i <= validation@.len(),
                    decreases validation@.len() - i,
                {
                    all.push(validation[i].clone());
                    i = i + 1;
                }
                SubjectOutcome::Analyzed(result, all)
            },
            Err(e) => {
                let quantifiable = count_quant(&subject.observations);
                let mut failed_params: Vec<String> = Vec::new();
                failed_params.push("All parameters".to_owned());
                SubjectOutcome::Failed(
                    FailedSubjectAnalysis {
                        subject_id: subject.id.clone(),
                        failure_reason: e.message(),
                        quantifiable_concentrations: quantifiable,
                        total_observations: subject.observations.len(),
                        failed_parameters: failed_params,
                    },
                )
            },
        }
    }

    /// Relies on rayon's par_iter / map / collect: applies the verified
    /// per-subject unit to the selected subjects in parallel, preserving the
    /// order of the index list in the collected output.
    #[verifier::external_body]
    fn fan_out(subjects: &Vec<Subject>, indices: &Vec<usize>, config: &AnalysisConfig) -> (r: Vec<
        SubjectOutcome,
    >)
        requires
            forall|i: int|
                0 <= i < indices@.len() ==> (#[trigger] indices@[i]) < subjects@.len(),
            forall|i: int| 0 <= i < subjects@.len() ==> subject_wf(#[trigger] subjects@[i]),
            config_wf(*config),
        ensures
            r@.len() == indices@.len(),
            forall|k: int|
                0 <= k < r@.len() ==> subject_outcome_ok(
                    subjects@[indices@[k] as int],
                    *config,
                    #[trigger] r@[k],
                ),
    {
        indices.par_iter().map(|i: &usize| Self::process_subject(&subjects[*i], config)).collect()
    }

    /// Analyze the selected subjects: fan out, partition successes and
    /// failures, and aggregate.
    pub fn analyze_selected(
        subjects: &Vec<Subject>,
        indices: &Vec<usize>,
        config: &AnalysisConfig,
    ) -> (r: (Vec<NcaResults>, Vec<FailedSubjectAnalysis>, SummaryStatistics, MethodComparison))
        requires
            forall|i: int|
                0 <= i < indices@.len() ==> (#[trigger] indices@[i]) < subjects@.len(),
            forall|i: int| 0 <= i < subjects@.len() ==> subject_wf(#[trigger] subjects@[i]),
            config_wf(*config),
            indices@.len() <= MAX_SUBJECTS as int,
        ensures
            exists|outs: Seq<SubjectOutcome>| #![trigger analyzed_of(outs)] outcome_partition(
                outs,
                subjects@,
                indices@,
                *config,
                r.0@,
                r.1@,
            ),
            r.0@.len() + r.1@.len() == indices@.len(),
            forall|k: int|
                0 <= k < r.0@.len() ==> derived_consistent(
                    (#[trigger] r.0@[k]).individual_parameters,
                ),
            forall|k: int|
                0 <= k < r.0@.len() ==> exists|j: int|
                    0 <= j < indices@.len() && (#[trigger] r.0@[k]).subject_id@
                        == subjects@[indices@[j] as int].id@ && count_quantifiable(
                        subjects@[indices@[j] as int].observations@,
                    ) >= 3,
            forall|k: int|
                0 <= k < r.1@.len() ==> has_failure_source(#[trigger] r.1@[k], subjects@, *config),
            r.0@.len() > 0 ==> r.2.parameter_stats@.len() > 0,
    {
        let mut outcomes = Self::fan_out(subjects, indices, config);
        let ghost outs0 = outcomes@;
        let ghost total = outcomes@.len();
        let mut individual_results: Vec<NcaResults> = Vec::new();
        let mut failed_subjects: Vec<FailedSubjectAnalysis> = Vec::new();
        let ghost mut fail_src: Seq<int> = Seq::empty();
        let mut i: usize = 0;
        proof {
            assert(outs0.skip(0) =~= outs0);
            assert(individual_results@ =~= analyzed_of(outs0.take(0)));
            assert(failed_subjects@ =~= failed_of(outs0.take(0)));
        }
        while outcomes.len() > 0
            invariant
                0 <= i <= total,
                outcomes@ == outs0.skip(i as int),
                outs0.len() == indices@.len(),
                indices@.len() == total,
                forall|k: int|
                    0 <= k < outs0.len() ==> subject_outcome_ok(
                        subjects@[indices@[k] as int],
                        *config,
                        #[trigger] outs0[k],
                    ),
                forall|i2: int|
                    0 <= i2 < indices@.len() ==> (#[trigger] indices@[i2]) < subjects@.len(),
                indices@.len() <= MAX_SUBJECTS as int,
                individual_results@ == analyzed_of(outs0.take(i as int)),
                failed_subjects@ == failed_of(outs0.take(i as int)),
                individual_results@.len() + failed_subjects@.len() == i,
                forall|k: int|
                    0 <= k < individual_results@.len() ==> derived_consistent(
                        (#[trigger] individual_results@[k]).individual_parameters,
                    ),
                forall|k: int|
                    0 <= k < individual_results@.len() ==> exists|j: int|
                        0 <= j < indices@.len() && (#[trigger] individual_results@[k]).subject_id@
                            == subjects@[indices@[j] as int].id@ && count_quantifiable(
                            subjects@[indices@[j] as int].observations@,
                        ) >= 3,
                fail_src.len() == failed_subjects@.len(),
                forall|k: int|
                    0 <= k < failed_subjects@.len() ==> 0 <= #[trigger] fail_src[k]
                        < indices@.len() && failure_record_ok(
                        failed_subjects@[k],
                        subjects@[indices@[fail_src[k]] as int],
                        *config,
                    ),
            decreases outcomes@.len(),
        {
            let ghost pos: int = i as int;
            proof {
                assert(outcomes@[0] == outs0[pos]);
                assert(outs0.take(pos + 1).drop_last() =~= outs0.take(pos));
                assert(outs0.take(pos + 1).last() == outs0[pos]);
                assert(outcomes@.remove(0) =~= outs0.skip(pos + 1));
            }
            match outcomes.remove(0) {
                SubjectOutcome::Analyzed(res, _) => {
                    individual_results.push(res);
                    proof {
                        let k = individual_results@.len() - 1;
                        assert(subject_outcome_ok(
                            subjects@[indices@[pos] as int],
                            *config,
                            outs0[pos],
                        ));
                        assert(individual_results@ =~= analyzed_of(outs0.take(pos + 1)));
                        assert(failed_subjects@ =~= failed_of(outs0.take(pos + 1)));
                        assert(0 <= pos < indices@.len()
                            && individual_results@[k].subject_id@
                            == subjects@[indices@[pos] as int].id@ && count_quantifiable(
                            subjects@[indices@[pos] as int].observations@,
                        ) >= 3);
                    }
                },
                SubjectOutcome::Failed(f) => {
                    failed_subjects.push(f);
                    proof {
                        fail_src = fail_src.push(pos);
                        let k = failed_subjects@.len() - 1;
                        assert(subject_outcome_ok(
                            subjects@[indices@[pos] as int],
                            *config,
                            outs0[pos],
                        ));
                        assert(individual_results@ =~= analyzed_of(outs0.take(pos + 1)));
                        assert(failed_subjects@ =~= failed_of(outs0.take(pos + 1)));
                        assert(fail_src[k] == pos);
                        assert(0 <= pos < indices@.len() && failure_record_ok(
                            failed_subjects@[k],
                            subjects@[indices@[pos] as int],
                            *config,
                        ));
                    }
                },
            }
            i = i + 1;
        }
        proof {
            assert(outs0.take(total as int) =~= outs0);
            assert(outcome_partition(
                outs0,
                subjects@,
                indices@,
                *config,
                individual_results@,
                failed_subjects@,
            ));
            assert forall|k: int| #![trigger failed_subjects@[k]] 0 <= k < failed_subjects@.len()
                implies has_failure_source(failed_subjects@[k], subjects@, *config) by {
                let w = fail_src[k];
                let ghost sj: int = indices@[w] as int;
                assert(0 <= sj < subjects@.len() && failure_record_ok(
                    failed_subjects@[k],
                    subjects@[sj],
                    *config,
                ));
            }
        }
        let summary_statistics = Self::calculate_summary_statistics(&individual_results);
        let method_comparison = Self::perform_method_comparison(&individual_results, config);
        (individual_results, failed_subjects, summary_statistics, method_comparison)
    }

    /// Full population analysis over all subjects: aggregation, stratified
    /// re-analysis, and covariate analysis.
    pub fn analyze_population(subjects: Vec<Subject>, config: &AnalysisConfig) -> (r: Result<
        PopulationResults,
        NcaError,
    >)
        requires
            forall|i: int| 0 <= i < subjects@.len() ==> subject_wf(#[trigger] subjects@[i]),
            config_wf(*config),
            subjects@.len() <= MAX_SUBJECTS as int,
        ensures
            match r {
                Ok(p) => {
                    &&& exists|outs: Seq<SubjectOutcome>|
                        #![trigger analyzed_of(outs)]
                        population_partition(
                            outs,
                            subjects@,
                            *config,
                            p.individual_results@,
                            p.failed_subjects@,
                        )
                    &&& p.individual_results@.len() + p.failed_subjects@.len() == subjects@.len()
                    &&& (p.individual_results@.len() > 0 ==> p.summary_statistics.parameter_stats@.len() > 0)
                    &&& forall|k: int|
                        0 <= k < p.individual_results@.len() ==> derived_consistent(
                            (#[trigger] p.individual_results@[k]).individual_parameters,
                        )
                    &&& forall|k: int|
                        0 <= k < p.individual_results@.len() ==> exists|j: int|
                            0 <= j < subjects@.len() && (
                            #[trigger] p.individual_results@[k]).subject_id@
                                == subjects@[j].id@ && count_quantifiable(
                                subjects@[j].observations@,
                            ) >= 3
                    &&& forall|k: int|
                        0 <= k < p.failed_subjects@.len() ==> has_failure_source(
                            #[trigger] p.failed_subjects@[k],
                            subjects@,
                            *config,
                        )
                    &&& forall|k: int|
                        0 <= k < p.stratified_results@.len() ==> (
                        #[trigger] p.stratified_results@[k]).1.n_subjects
                            >= crate::stratification::min_n_of(*config)
                },
                Err(_) => false,
            },
    {
        let indices = identity_indices(subjects.len());
        let (individual_results, failed_subjects, summary_statistics, method_comparison) =
            Self::analyze_selected(&subjects, &indices, config);
        proof {
            let outs = choose|outs: Seq<SubjectOutcome>| #![trigger analyzed_of(outs)]
                outcome_partition(
                    outs,
                    subjects@,
                    indices@,
                    *config,
                    individual_results@,
                    failed_subjects@,
                );
            assert(outcome_partition(
                outs,
                subjects@,
                indices@,
                *config,
                individual_results@,
                failed_subjects@,
            ));
            assert forall|k: int| 0 <= k < outs.len() implies subject_outcome_ok(
                subjects@[k],
                *config,
                #[trigger] outs[k],
            ) by {
                assert(indices@[k] == k);
                assert(subject_outcome_ok(subjects@[indices@[k] as int], *config, outs[k]));
            }
            assert(population_partition(
                outs,
                subjects@,
                *config,
                individual_results@,
                failed_subjects@,
            ));
            assert forall|k: int|
                0 <= k < individual_results@.len() implies exists|j: int|
                    0 <= j < subjects@.len() && (#[trigger] individual_results@[k]).subject_id@
                        == subjects@[j].id@ && count_quantifiable(subjects@[j].observations@)
                        >= 3 by {
                let j0 = choose|j0: int|
                    0 <= j0 < indices@.len() && individual_results@[k].subject_id@
                        == subjects@[indices@[j0] as int].id@ && count_quantifiable(
                        subjects@[indices@[j0] as int].observations@,
                    ) >= 3;
                assert((indices@[j0] as int) < subjects@.len());
            }

        }
        let stratified_results = crate::stratification::StratificationAnalyzer::analyze_stratified(
            &subjects,
            config,
        );
        let covariate_analysis = if config.perform_covariate_analysis {
            CovariateAnalyzer::analyze_covariates(&individual_results, &subjects)
        } else {
            CovariateAnalysis {
                correlations: Vec::new(),
                regression_analysis: Vec::new(),
                dose_normalized_analysis: None,
            }
        };
        Ok(
            PopulationResults {
                individual_results,
                failed_subjects,
                summary_statistics,
                method_comparison,
                stratified_results,
                covariate_analysis,
            },
        )
    }

    /// Summary statistics per parameter: one truthful entry for each
    /// parameter that at least one subject contributed a value for.
    fn calculate_summary_statistics(results: &Vec<NcaResults>) -> (r: SummaryStatistics)
        requires
            results@.len() <= MAX_SUBJECTS as int,
            forall|k: int|
                0 <= k < results@.len() ==> derived_consistent(
                    (#[trigger] results@[k]).individual_parameters,
                ),
        ensures
            results@.len() > 0 ==> r.parameter_stats@.len() > 0,
            forall|k: int|
                0 <= k < r.parameter_stats@.len() ==> crate::stats::stats_ok(
                    extracted_values(results@, (#[trigger] r.parameter_stats@[k]).0),
                    r.parameter_stats@[k].1,
                ) && extracted_values(results@, r.parameter_stats@[k].0).len() > 0,
            forall|kind: ParamKind|
                #![trigger extracted_values(results@, kind)]
                extracted_values(results@, kind).len() > 0 ==> exists|k: int|
                    0 <= k < r.parameter_stats@.len() && (#[trigger] r.parameter_stats@[k]).0
                        == kind,
    {
        let mut parameter_stats: Vec<(ParamKind, crate::models::ParameterStats)> = Vec::new();
        let kinds = all_param_kinds();
        let ghost mut placed: Seq<int> = Seq::empty();
        let mut ki: usize = 0;
        while ki < kinds.len()
            invariant
                0 <= ki <= kinds@.len(),
                kinds@ =~= seq![
                    ParamKind::AucLast,
                    ParamKind::AucInf,
                    ParamKind::Cmax,
                    ParamKind::Tmax,
                    ParamKind::HalfLife,
                    ParamKind::Clearance,
                    ParamKind::VolumeTerminal,
                    ParamKind::Mrt,
                ],
                kinds@.len() == 8,
                results@.len() <= MAX_SUBJECTS as int,
                forall|k: int|
                    0 <= k < results@.len() ==> derived_consistent(
                        (#[trigger] results@[k]).individual_parameters,
                    ),
                ki >= 1 && results@.len() > 0 ==> parameter_stats@.len() > 0,
                placed.len() == ki,
                forall|k2: int|
                    0 <= k2 < ki && extracted_values(results@, #[trigger] kinds@[k2]).len() > 0
                        ==> 0 <= placed[k2] < parameter_stats@.len() && parameter_stats@[placed[k2]].0
                        == kinds@[k2],
                forall|k: int|
                    0 <= k < parameter_stats@.len() ==> crate::stats::stats_ok(
                        extracted_values(results@, (#[trigger] parameter_stats@[k]).0),
                        parameter_stats@[k].1,
                    ) && extracted_values(results@, parameter_stats@[k].0).len() > 0,
            decreases kinds@.len() - ki,
        {
            let kind = kinds[ki];
            let values = extract_parameter_values(results, &kind);
            if values.len() > 0 {
                let stats = calculate_parameter_stats(&values);
                parameter_stats.push((kind, stats));
                proof {
                    placed = placed.push(parameter_stats@.len() - 1);
                    assert(parameter_stats@[placed[ki as int]].0 == kinds@[ki as int]);
                }
            } else {
                proof {
                    placed = placed.push(-1);
                }
            }
            ki = ki + 1;
        }
        let out = SummaryStatistics { parameter_stats };
        proof {
            assert forall|kind: ParamKind|
                extracted_values(results@, kind).len() > 0 implies exists|k: int|
                0 <= k < out.parameter_stats@.len() && (#[trigger] out.parameter_stats@[k]).0
                    == kind by {
                let k2: int = match kind {
                    ParamKind::AucLast => 0int,
                    ParamKind::AucInf => 1int,
                    ParamKind::Cmax => 2int,
                    ParamKind::Tmax => 3int,
                    ParamKind::HalfLife => 4int,
                    ParamKind::Clearance => 5int,
                    ParamKind::VolumeTerminal => 6int,
                    ParamKind::Mrt => 7int,
                };
                assert(kinds@[k2] == kind);
                let w = placed[k2];
                assert(0 <= w < out.parameter_stats@.len() && out.parameter_stats@[w].0 == kind);
            }
        }
        out
    }

    /// Mean AUC_last per configured method label across the per-method
    /// comparison entries. The correlation matrix and bias analysis remain
    /// the empty placeholders of the design.
    ///
    /// One entry exists for a configured method exactly when some subject
    /// contributed that method's AUC, and its value is the clamped
    /// arithmetic mean of exactly those values.
    fn perform_method_comparison(results: &Vec<NcaResults>, config: &AnalysisConfig) -> (r:
        MethodComparison)
        requires
            results@.len() <= MAX_SUBJECTS as int,
            forall|k: int|
                0 <= k < results@.len() ==> derived_consistent(
                    (#[trigger] results@[k]).individual_parameters,
                ),
        ensures
            r.auc_methods@.len() <= config.auc_methods@.len(),
            forall|e: int|
                0 <= e < r.auc_methods@.len() ==> {
                    let vals = method_values(results@, (#[trigger] r.auc_methods@[e]).0);
                    &&& vals.len() > 0
                    &&& r.auc_methods@[e].1 == crate::fixed::clamp_spec(
                        crate::stats::mean_spec(vals),
                    )
                    &&& exists|j: int|
                        0 <= j < config.auc_methods@.len() && r.auc_methods@[e].0
                            == #[trigger] config.auc_methods@[j]
                },
            forall|j: int|
                0 <= j < config.auc_methods@.len() && method_values(
                    results@,
                    #[trigger] config.auc_methods@[j],
                ).len() > 0 ==> exists|e: int|
                    0 <= e < r.auc_methods@.len() && (#[trigger] r.auc_methods@[e]).0
                        == config.auc_methods@[j],
            r.correlation_matrix@.len() == 0,
            r.bias_analysis@.len() == 0,
    {
        let mut auc_methods: Vec<(AucMethod, i128)> = Vec::new();
        let ghost mut placed: Seq<int> = Seq::empty();
        let mut mi: usize = 0;
        while mi < config.auc_methods.len()
            invariant
                0 <= mi <= config.auc_methods@.len(),
                auc_methods@.len() <= mi,
                results@.len() <= MAX_SUBJECTS as int,
                placed.len() == mi,
                forall|j: int|
                    0 <= j < mi && method_values(results@, #[trigger] config.auc_methods@[j]).len()
                        > 0 ==> 0 <= placed[j] < auc_methods@.len() && auc_methods@[placed[j]].0
                        == config.auc_methods@[j],
                forall|e: int|
                    0 <= e < auc_methods@.len() ==> {
                        let vals = method_values(results@, (#[trigger] auc_methods@[e]).0);
                        &&& vals.len() > 0
                        &&& auc_methods@[e].1 == crate::fixed::clamp_spec(
                            crate::stats::mean_spec(vals),
                        )
                        &&& exists|j: int|
                            0 <= j < config.auc_methods@.len() && auc_methods@[e].0
                                == #[trigger] config.auc_methods@[j]
                    },
                forall|k: int|
                    0 <= k < results@.len() ==> derived_consistent(
                        (#[trigger] results@[k]).individual_parameters,
                    ),
            decreases config.auc_methods@.len() - mi,
        {
            let m = config.auc_methods[mi];
            let mut values: Vec<i128> = Vec::new();
            let mut k: usize = 0;
            proof {
                assert(results@.take(0) =~= Seq::<NcaResults>::empty());
            }
            while k < results.len()
                invariant
                    0 <= k <= results@.len(),
                    results@.len() <= MAX_SUBJECTS as int,
                    values@.len() <= k,
                    values@ == method_values(results@.take(k as int), m),
                    forall|q: int| 0 <= q < values@.len() ==> in_range(#[trigger] values@[q] as int),
                    forall|k2: int|
                        0 <= k2 < results@.len() ==> derived_consistent(
                            (#[trigger] results@[k2]).individual_parameters,
                        ),
                decreases results@.len() - k,
            {
                proof {
                    assert(results@.take(k as int + 1).drop_last() =~= results@.take(k as int));
                    assert(results@.take(k as int + 1).last() == results@[k as int]);
                }
                let comps = &results[k].method_comparisons;
                let mut c: usize = 0;
                let mut found: Option<i128> = None;
                while c < comps.len()
                    invariant
                        0 <= c <= comps@.len(),
                        found == method_auc_upto(comps@, m, c as int),
                        found is Some ==> in_range(found->0 as int),
                    decreases comps@.len() - c,
                {
                    if comps[c].0 == m && found.is_none() {
                        match comps[c].1.auc_last {
                            Some(v) => {
                                if -VAL_LIMIT <= v && v <= VAL_LIMIT {
                                    found = Some(v);
                                }
                            },
                            None => {},
                        }
                    }
                    c = c + 1;
                }
                proof {
                    assert(found == method_auc_of(results@[k as int], m));
                }
                match found {
                    Some(v) => {
                        values.push(v);
                    },
                    None => {},
                }
                k = k + 1;
            }
            proof {
                assert(results@.take(results@.len() as int) =~= results@);
            }
            if values.len() > 0 {
                let stats = calculate_parameter_stats(&values);
                auc_methods.push((m, stats.arithmetic_mean));
                proof {
                    placed = placed.push(auc_methods@.len() - 1);
                    assert(auc_methods@[placed[mi as int]].0 == config.auc_methods@[mi as int]);
                    let ghost jw: int = mi as int;
                    assert(0 <= jw < config.auc_methods@.len() && auc_methods@[auc_methods@.len()
                        - 1].0 == config.auc_methods@[jw]);
                }
            } else {
                proof {
                    placed = placed.push(-1);
                }
            }
            mi = mi + 1;
        }
        let out = MethodComparison {
            auc_methods,
            correlation_matrix: Vec::new(),
            bias_analysis: Vec::new(),
        };
        proof {
            assert forall|j: int|
                0 <= j < config.auc_methods@.len() && method_values(
                    results@,
                    #[trigger] config.auc_methods@[j],
                ).len() > 0 implies exists|e: int|
                0 <= e < out.auc_methods@.len() && (#[trigger] out.auc_methods@[e]).0
                    == config.auc_methods@[j] by {
                let w = placed[j];
                assert(0 <= w < out.auc_methods@.len() && out.auc_methods@[w].0
                    == config.auc_methods@[j]);
            }
        }
        out
    }
}

/// The identity index list 0 .. n.
pub fn identity_indices(n: usize) -> (r: Vec<usize>)
    ensures
        r@.len() == n,
        forall|i: int| 0 <= i < n ==> (#[trigger] r@[i]) == i,
{
    let mut v: Vec<usize> = Vec::new();
    let mut i: usize = 0;
    while i < n
        invariant
            0 <= i <= n,
            v@.len() == i,
            forall|k: int| 0 <= k < i ==> (#[trigger] v@[k]) == k,
        decreases n - i,
    {
        v.push(i);
        i = i + 1;
    }
    v
}

/// The eight summarised parameters, AUC_last first.
fn all_param_kinds() -> (r: Vec<ParamKind>)
    ensures
        r@ =~= seq![
            ParamKind::AucLast,
            ParamKind::AucInf,
            ParamKind::Cmax,
            ParamKind::Tmax,
            ParamKind::HalfLife,
            ParamKind::Clearance,
            ParamKind::VolumeTerminal,
            ParamKind::Mrt,
        ],
        r@.len() == 8,
        r@[0] == ParamKind::AucLast,
{
    let mut v: Vec<ParamKind> = Vec::new();
    v.push(ParamKind::AucLast);
    v.push(ParamKind::AucInf);
    v.push(ParamKind::Cmax);
    v.push(ParamKind::Tmax);
    v.push(ParamKind::HalfLife);
    v.push(ParamKind::Clearance);
    v.push(ParamKind::VolumeTerminal);
    v.push(ParamKind::Mrt);
    v
}

/// The first comparison entry of one result that holds this method's AUC
/// (present and in range), scanning the first k entries.
pub open spec fn method_auc_upto(
    comps: Seq<(AucMethod, IndividualParameters)>,
    m: AucMethod,
    k: int,
) -> Option<i128>
    decreases k,
{
    if k <= 0 {
        None
    } else {
        match method_auc_upto(comps, m, k - 1) {
            Some(v) => Some(v),
            None => {
                if comps[k - 1].0 == m && comps[k - 1].1.auc_last is Some && in_range(
                    comps[k - 1].1.auc_last->0 as int,
                ) {
                    Some(comps[k - 1].1.auc_last->0)
                } else {
                    None
                }
            },
        }
    }
}

/// One result's contribution to a method's AUC comparison.
pub open spec fn method_auc_of(res: NcaResults, m: AucMethod) -> Option<i128> {
    method_auc_upto(res.method_comparisons@, m, res.method_comparisons@.len() as int)
}

/// The AUC values a method collects across the results, in order.
pub open spec fn method_values(results: Seq<NcaResults>, m: AucMethod) -> Seq<i128>
    decreases results.len(),
{
    if results.len() == 0 {
        Seq::empty()
    } else {
        method_values(results.drop_last(), m) + match method_auc_of(results.last(), m) {
            Some(v) => seq![v],
            None => Seq::empty(),
        }
    }
}

/// The field a summary parameter reads from a bundle.
pub open spec fn param_field(p: IndividualParameters, kind: ParamKind) -> Option<i128> {
    match kind {
        ParamKind::AucLast => p.auc_last,
        ParamKind::AucInf => p.auc_inf,
        ParamKind::Cmax => p.cmax,
        ParamKind::Tmax => p.tmax,
        ParamKind::HalfLife => p.half_life,
        ParamKind::Clearance => p.clearance,
        ParamKind::VolumeTerminal => p.volume_terminal,
        ParamKind::Mrt => p.mrt,
    }
}

/// One parameter collected across the results: every present, in-range
/// value, in result order.
pub open spec fn extracted_values(results: Seq<NcaResults>, kind: ParamKind) -> Seq<i128>
    decreases results.len(),
{
    if results.len() == 0 {
        Seq::empty()
    } else {
        extracted_values(results.drop_last(), kind) + {
            match param_field(results.last().individual_parameters, kind) {
                Some(v) => if in_range(v as int) {
                    seq![v]
                } else {
                    Seq::empty()
                },
                None => Seq::empty(),
            }
        }
    }
}

/// Collect one parameter across subjects, keeping only in-range values.
/// AUC_last is present and in range on every consistent bundle, so its
/// list is then full.
pub fn extract_parameter_values(results: &Vec<NcaResults>, kind: &ParamKind) -> (r: Vec<i128>)
    requires
        results@.len() <= MAX_SUBJECTS as int,
    ensures
        r@ == extracted_values(results@, *kind),
        r@.len() <= results@.len(),
        forall|q: int| 0 <= q < r@.len() ==> in_range(#[trigger] r@[q] as int),
        (*kind == ParamKind::AucLast && forall|k: int|
            0 <= k < results@.len() ==> derived_consistent(
                (#[trigger] results@[k]).individual_parameters,
            )) ==> r@.len() == results@.len(),
{
    let mut values: Vec<i128> = Vec::new();
    let mut k: usize = 0;
    proof {
        assert(results@.take(0) =~= Seq::<NcaResults>::empty());
    }
    while k < results.len()
        invariant
            0 <= k <= results@.len(),
            values@.len() <= k,
            values@ == extracted_values(results@.take(k as int), *kind),
            forall|q: int| 0 <= q < values@.len() ==> in_range(#[trigger] values@[q] as int),
            (*kind == ParamKind::AucLast && forall|k2: int|
                0 <= k2 < results@.len() ==> derived_consistent(
                    (#[trigger] results@[k2]).individual_parameters,
                )) ==> values@.len() == k,
        decreases results@.len() - k,
    {
        proof {
            assert(results@.take(k as int + 1).drop_last() =~= results@.take(k as int));
            assert(results@.take(k as int + 1).last() == results@[k as int]);
        }
        let p = &results[k].individual_parameters;
        let field: Option<i128> = match kind {
            ParamKind::AucLast => p.auc_last,
            ParamKind::AucInf => p.auc_inf,
            ParamKind::Cmax => p.cmax,
            ParamKind::Tmax => p.tmax,
            ParamKind::HalfLife => p.half_life,
            ParamKind::Clearance => p.clearance,
            ParamKind::VolumeTerminal => p.volume_terminal,
            ParamKind::Mrt => p.mrt,
        };
        match field {
            Some(v) => {
                if -VAL_LIMIT <= v && v <= VAL_LIMIT {
                    values.push(v);
                }
            },
            None => {},
        }
        k = k + 1;
    }
    proof {
        assert(results@.take(results@.len() as int) =~= results@);
    }
    values
}

} // verus!
