//! Data model: subjects, observations, dosing, configuration, and the
//! result bundles produced by the analysis. All numeric quantities are
//! fixed-point micro-unit `i128` values (see `crate::SCALE`).

use vstd::prelude::*;
use crate::fixed::in_range;

verus! {

/// Largest accepted observation / dosing time (1000 real time units).
pub const MAX_TIME: i128 = 1_000_000_000;

/// Largest accepted concentration, dose or LLOQ magnitude (10^6 real units).
pub const MAX_CONC: i128 = 1_000_000_000_000;

/// Largest accepted demographic covariate value (1000 real units).
pub const MAX_COVARIATE: i128 = 1_000_000_000;

/// Largest accepted number of observations or dosing events per subject.
pub const MAX_OBS: usize = 1000;

/// Largest accepted number of subjects in a population run.
pub const MAX_SUBJECTS: usize = 10000;

#[derive(Debug, Clone, Copy)]
pub struct Observation {
    pub time: i128,
    pub concentration: i128,
    pub lloq: Option<i128>,
    pub bloq: bool,
    pub evid: i32,
    pub dv: i128,
}

#[derive(Debug, Clone, Copy)]
pub struct DosingEvent {
    pub time: i128,
    pub dose: i128,
    pub route: DosingRoute,
    pub infusion_duration: Option<i128>,
    pub evid: i32,
}

#[derive(Debug, Clone, Copy, PartialEq, Eq, Structural)]
pub enum DosingRoute {
    IntravenousBolus,
    IntravenousInfusion,
    Oral,
}

#[derive(Debug, Clone)]
pub struct Demographics {
    pub age: Option<i128>,
    pub weight: Option<i128>,
    pub height: Option<i128>,
    pub sex: Option<String>,
    pub race: Option<String>,
    pub treatment: Option<String>,
    pub study_day: Option<i32>,
    pub period: Option<i32>,
    pub sequence: Option<String>,
    pub formulation: Option<String>,
}

impl Default for Demographics {
    /// A record with every covariate absent.
    fn default() -> (r: Demographics)
        ensures
            r.age is None && r.weight is None && r.height is None,
            r.sex is None && r.race is None && r.treatment is None,
            r.study_day is None && r.period is None,
            r.sequence is None && r.formulation is None,
    {
        Demographics {
            age: None,
            weight: None,
            height: None,
            sex: None,
            race: None,
            treatment: None,
            study_day: None,
            period: None,
            sequence: None,
            formulation: None,
        }
    }
}

#[derive(Debug, Clone)]
pub struct Subject {
    pub id: String,
    pub observations: Vec<Observation>,
    pub dosing_events: Vec<DosingEvent>,
    pub demographics: Demographics,
}

/// An observation whose fields lie in the representable fixed-point range.
pub open spec fn obs_in_range(o: Observation) -> bool {
    &&& 0 <= o.time <= MAX_TIME as int
    &&& -(MAX_CONC as int) <= o.concentration <= MAX_CONC as int
    &&& -(MAX_CONC as int) <= o.dv <= MAX_CONC as int
    &&& (o.lloq is Some ==> 0 <= o.lloq->0 <= MAX_CONC as int)
}

/// A dosing event whose fields lie in the representable range.
pub open spec fn dose_in_range(d: DosingEvent) -> bool {
    &&& 0 <= d.time <= MAX_TIME as int
    &&& 0 <= d.dose <= MAX_CONC as int
    &&& (d.infusion_duration is Some ==> 0 <= d.infusion_duration->0 <= MAX_TIME as int)
}

/// Demographics whose numeric covariates lie in the representable range.
pub open spec fn demographics_in_range(d: Demographics) -> bool {
    &&& (d.age is Some ==> 0 <= d.age->0 <= MAX_COVARIATE as int)
    &&& (d.weight is Some ==> 0 <= d.weight->0 <= MAX_COVARIATE as int)
    &&& (d.height is Some ==> 0 <= d.height->0 <= MAX_COVARIATE as int)
}

/// A subject the analysis accepts: bounded collections of in-range records.
pub open spec fn subject_wf(s: Subject) -> bool {
    &&& s.observations@.len() <= MAX_OBS as int
    &&& forall|i: int|
        0 <= i < s.observations@.len() ==> obs_in_range(#[trigger] s.observations@[i])
    &&& s.dosing_events@.len() <= MAX_OBS as int
    &&& forall|i: int|
        0 <= i < s.dosing_events@.len() ==> dose_in_range(#[trigger] s.dosing_events@[i])
    &&& demographics_in_range(s.demographics)
}

#[derive(Debug, Clone)]
pub struct IndividualParameters {
    pub auc_last: Option<i128>,
    pub auc_inf: Option<i128>,
    pub auc_inf_pred: Option<i128>,
    pub auc_percent_extrap: Option<i128>,
    pub aumc_last: Option<i128>,
    pub aumc_inf: Option<i128>,
    pub cmax: Option<i128>,
    pub tmax: Option<i128>,
    pub tlast: Option<i128>,
    pub clast: Option<i128>,
    pub half_life: Option<i128>,
    pub lambda_z: Option<i128>,
    pub lambda_z_r_squared: Option<i128>,
    pub clearance: Option<i128>,
    pub volume_steady_state: Option<i128>,
    pub volume_terminal: Option<i128>,
    pub mrt: Option<i128>,
    pub bioavailability: Option<i128>,
}

#[derive(Debug, Clone)]
pub struct NcaResults {
    pub subject_id: String,
    pub individual_parameters: IndividualParameters,
    pub method_comparisons: Vec<(AucMethod, IndividualParameters)>,
}

#[derive(Debug, Clone)]
pub struct FailedSubjectAnalysis {
    pub subject_id: String,
    pub failure_reason: String,
    pub quantifiable_concentrations: usize,
    pub total_observations: usize,
    pub failed_parameters: Vec<String>,
}

#[derive(Debug, Clone, Copy, PartialEq, Eq, Structural)]
pub enum ParamKind {
    AucLast,
    AucInf,
    Cmax,
    Tmax,
    HalfLife,
    Clearance,
    VolumeTerminal,
    Mrt,
}

#[derive(Debug, Clone)]
pub struct ParameterStats {
    pub n: usize,
    pub mean: i128,
    pub arithmetic_mean: i128,
    pub arithmetic_std: i128,
    pub arithmetic_cv_percent: i128,
    pub std_dev: i128,
    pub cv_percent: i128,
    pub median: i128,
    pub q25: i128,
    pub q75: i128,
    pub min: i128,
    pub max: i128,
    pub geometric_mean: Option<i128>,
    pub geometric_cv_percent: Option<i128>,
}

#[derive(Debug, Clone)]
pub struct SummaryStatistics {
    pub parameter_stats: Vec<(ParamKind, ParameterStats)>,
}

/// A closed numeric interval, lower and upper end.
#[derive(Debug, Clone, Copy, PartialEq, Eq, Structural)]
pub struct Interval {
    pub lower: i128,
    pub upper: i128,
}

#[derive(Debug, Clone)]
pub struct BiasAnalysis {
    pub mean_difference: i128,
    pub mean_percent_difference: i128,
    pub limits_of_agreement: Interval,
}

#[derive(Debug, Clone)]
pub struct MethodComparison {
    pub auc_methods: Vec<(AucMethod, i128)>,
    pub correlation_matrix: Vec<(AucMethod, Vec<(AucMethod, i128)>)>,
    pub bias_analysis: Vec<(AucMethod, BiasAnalysis)>,
}

#[derive(Debug, Clone)]
pub struct StratifiedResults {
    pub stratum_name: String,
    pub stratum_value: String,
    pub n_subjects: usize,
    pub individual_results: Vec<NcaResults>,
    pub summary_statistics: SummaryStatistics,
    pub method_comparison: MethodComparison,
}

#[derive(Debug, Clone, Copy, PartialEq, Eq, Structural)]
pub enum CovariateKind {
    Age,
    Weight,
    Height,
}

#[derive(Debug, Clone)]
pub struct CovariateCorrelation {
    pub covariate_name: String,
    pub parameter_correlations: Vec<(ParamKind, i128)>,
    pub p_values: Vec<(ParamKind, i128)>,
}

#[derive(Debug, Clone)]
pub struct RegressionResults {
    pub parameter: String,
    pub covariate: String,
    pub slope: i128,
    pub intercept: i128,
    pub r_squared: i128,
    pub p_value: i128,
    pub confidence_interval: Interval,
}

#[derive(Debug, Clone)]
pub struct LinearityAssessment {
    pub slope: i128,
    pub r_squared: i128,
    pub linearity_conclusion: String,
}

#[derive(Debug, Clone)]
pub struct DoseNormalizedAnalysis {
    pub dose_normalized_auc: Vec<(String, ParameterStats)>,
    pub dose_normalized_cmax: Vec<(String, ParameterStats)>,
    pub dose_linearity_assessment: Vec<(String, LinearityAssessment)>,
}

#[derive(Debug, Clone)]
pub struct CovariateAnalysis {
    pub correlations: Vec<(CovariateKind, CovariateCorrelation)>,
    pub regression_analysis: Vec<((ParamKind, CovariateKind), RegressionResults)>,
    pub dose_normalized_analysis: Option<DoseNormalizedAnalysis>,
}

#[derive(Debug, Clone)]
pub struct PopulationResults {
    pub individual_results: Vec<NcaResults>,
    pub failed_subjects: Vec<FailedSubjectAnalysis>,
    pub summary_statistics: SummaryStatistics,
    pub method_comparison: MethodComparison,
    pub stratified_results: Vec<(String, StratifiedResults)>,
    pub covariate_analysis: CovariateAnalysis,
}

#[derive(Debug, Clone)]
pub struct StratificationConfig {
    pub stratify_columns: Vec<String>,
    pub include_interactions: bool,
    pub minimum_n_per_stratum: usize,
    pub perform_statistical_tests: bool,
}

#[derive(Debug, Clone, Copy, PartialEq, Eq, Structural)]
pub enum AucMethod {
    LinearTrapezoidal,
    LogTrapezoidal,
    LinearLogTrapezoidal,
    LinearUpLogDown,
}

#[derive(Debug, Clone)]
pub enum LambdaZSelection {
    Auto,
    Manual(Vec<usize>),
    BestFit { min_points: usize, r_squared_threshold: i128 },
}

#[derive(Debug, Clone, Copy, PartialEq, Eq, Structural)]
pub enum InterpolationMethod {
    Linear,
    LogLinear,
}

#[derive(Debug, Clone, Copy, PartialEq, Eq, Structural)]
pub enum LloqHandling {
    Zero,
    Drop,
    HalfLloq,
}

#[derive(Debug, Clone)]
pub struct AnalysisConfig {
    pub auc_methods: Vec<AucMethod>,
    pub lambda_z_selection: LambdaZSelection,
    pub interpolation_method: InterpolationMethod,
    pub output_path: String,
    pub lloq_handling: LloqHandling,
    pub time_units: String,
    pub concentration_units: String,
    pub stratification: Option<StratificationConfig>,
    pub perform_covariate_analysis: bool,
    pub dose_normalization: bool,
}

/// A lambda_z selection the analysis accepts: a best-fit window needs at
/// least one point and an in-range threshold.
pub open spec fn config_selection_wf(s: LambdaZSelection) -> bool {
    match s {
        LambdaZSelection::BestFit { min_points, r_squared_threshold } => {
            &&& 1 <= min_points <= MAX_OBS as int
            &&& 0 <= r_squared_threshold <= crate::SCALE as int
        },
        LambdaZSelection::Manual(idxs) => idxs@.len() <= MAX_OBS as int,
        LambdaZSelection::Auto => true,
    }
}

/// A configuration the analysis accepts.
pub open spec fn config_wf(c: AnalysisConfig) -> bool {
    &&& config_selection_wf(c.lambda_z_selection)
    &&& 1 <= c.auc_methods@.len() <= 8
}

/// The stable text key of an AUC method.
pub open spec fn method_key_spec(m: AucMethod) -> Seq<char> {
    match m {
        AucMethod::LinearTrapezoidal => "linear_trapezoidal"@,
        AucMethod::LogTrapezoidal => "log_trapezoidal"@,
        AucMethod::LinearLogTrapezoidal => "linear_log_trapezoidal"@,
        AucMethod::LinearUpLogDown => "linear_up_log_down"@,
    }
}

/// Explicit method-to-label mapping (kept stable, independent of any
/// runtime type-name formatting).
pub fn method_key(m: &AucMethod) -> (r: String)
    ensures
        r@ == method_key_spec(*m),
{
    match m {
        AucMethod::LinearTrapezoidal => "linear_trapezoidal".to_owned(),
        AucMethod::LogTrapezoidal => "log_trapezoidal".to_owned(),
        AucMethod::LinearLogTrapezoidal => "linear_log_trapezoidal".to_owned(),
        AucMethod::LinearUpLogDown => "linear_up_log_down".to_owned(),
    }
}

/// The stable text key of a summary parameter.
pub open spec fn param_key_spec(p: ParamKind) -> Seq<char> {
    match p {
        ParamKind::AucLast => "auc_last"@,
        ParamKind::AucInf => "auc_inf"@,
        ParamKind::Cmax => "cmax"@,
        ParamKind::Tmax => "tmax"@,
        ParamKind::HalfLife => "half_life"@,
        ParamKind::Clearance => "clearance"@,
        ParamKind::VolumeTerminal => "volume_terminal"@,
        ParamKind::Mrt => "mrt"@,
    }
}

/// Explicit parameter-to-label mapping.
pub fn param_key(p: &ParamKind) -> (r: String)
    ensures
        r@ == param_key_spec(*p),
{
    match p {
        ParamKind::AucLast => "auc_last".to_owned(),
        ParamKind::AucInf => "auc_inf".to_owned(),
        ParamKind::Cmax => "cmax".to_owned(),
        ParamKind::Tmax => "tmax".to_owned(),
        ParamKind::HalfLife => "half_life".to_owned(),
        ParamKind::Clearance => "clearance".to_owned(),
        ParamKind::VolumeTerminal => "volume_terminal".to_owned(),
        ParamKind::Mrt => "mrt".to_owned(),
    }
}

/// Every numeric field of a parameter bundle lies in the representable range.
pub open spec fn params_in_range(p: IndividualParameters) -> bool {
    &&& (p.auc_last is Some ==> in_range(p.auc_last->0 as int))
    &&& (p.auc_inf is Some ==> in_range(p.auc_inf->0 as int))
    &&& (p.auc_inf_pred is Some ==> in_range(p.auc_inf_pred->0 as int))
    &&& (p.auc_percent_extrap is Some ==> in_range(p.auc_percent_extrap->0 as int))
    &&& (p.aumc_last is Some ==> in_range(p.aumc_last->0 as int))
    &&& (p.aumc_inf is Some ==> in_range(p.aumc_inf->0 as int))
    &&& (p.cmax is Some ==> in_range(p.cmax->0 as int))
    &&& (p.tmax is Some ==> in_range(p.tmax->0 as int))
    &&& (p.tlast is Some ==> in_range(p.tlast->0 as int))
    &&& (p.clast is Some ==> in_range(p.clast->0 as int))
    &&& (p.half_life is Some ==> in_range(p.half_life->0 as int))
    &&& (p.lambda_z is Some ==> in_range(p.lambda_z->0 as int))
    &&& (p.lambda_z_r_squared is Some ==> in_range(p.lambda_z_r_squared->0 as int))
    &&& (p.clearance is Some ==> in_range(p.clearance->0 as int))
    &&& (p.volume_steady_state is Some ==> in_range(p.volume_steady_state->0 as int))
    &&& (p.volume_terminal is Some ==> in_range(p.volume_terminal->0 as int))
    &&& (p.mrt is Some ==> in_range(p.mrt->0 as int))
    &&& (p.bioavailability is Some ==> in_range(p.bioavailability->0 as int))
}

} // verus!
