// Integration tests of the NCA analysis library. All quantities are
// fixed-point micro-units: 1_000_000 equals one real unit.

use nca_analysis::auc::AucCalculator;
use nca_analysis::models::{
    AnalysisConfig, AucMethod, InterpolationMethod, LambdaZSelection, LloqHandling, Observation,
    StratificationConfig, Subject,
};
use nca_analysis::models::Demographics;
use nca_analysis::models::DosingEvent;
use nca_analysis::models::DosingRoute;
use nca_analysis::nca::NcaAnalyzer;
use nca_analysis::parameters::ParameterCalculator;
use nca_analysis::parser::NonmemParser;
use nca_analysis::population::PopulationAnalyzer;
use nca_analysis::stats::calculate_parameter_stats;
use nca_analysis::errors::NcaError;

const M: i128 = 1_000_000;

fn obs(time: i128, conc: i128) -> Observation {
    Observation {
        time,
        concentration: conc,
        lloq: Some(100_000),
        bloq: false,
        evid: 0,
        dv: conc,
    }
}

fn base_config(methods: Vec<AucMethod>) -> AnalysisConfig {
    AnalysisConfig {
        auc_methods: methods,
        lambda_z_selection: LambdaZSelection::Auto,
        interpolation_method: InterpolationMethod::Linear,
        output_path: String::new(),
        lloq_handling: LloqHandling::HalfLloq,
        time_units: "h".to_string(),
        concentration_units: "ng/mL".to_string(),
        stratification: None,
        perform_covariate_analysis: false,
        dose_normalization: false,
    }
}

fn subject_with(id: &str, observations: Vec<Observation>) -> Subject {
    Subject {
        id: id.to_string(),
        observations,
        dosing_events: vec![DosingEvent {
            time: 0,
            dose: 100 * M,
            route: DosingRoute::IntravenousBolus,
            infusion_duration: None,
            evid: 1,
        }],
        demographics: Demographics::default(),
    }
}

fn decaying_subject(id: &str) -> Subject {
    // About 100 * exp(-0.5 t) at t = 0, 1, 2, 3 (in micro-units).
    subject_with(
        id,
        vec![
            obs(0, 100_000_000),
            obs(1 * M, 60_653_066),
            obs(2 * M, 36_787_944),
            obs(3 * M, 22_313_016),
        ],
    )
}

#[test]
fn test_auc_calculation_methods() {
    let observations = vec![
        obs(0, 100 * M),
        obs(1 * M, 75 * M),
        obs(2 * M, 50 * M),
        obs(4 * M, 25 * M),
    ];
    let config = base_config(vec![AucMethod::LinearTrapezoidal]);
    let auc_results = AucCalculator::calculate_all_methods(&observations, &config).unwrap();
    assert!(auc_results.iter().any(|e| e.0 == "linear_trapezoidal"));
    let linear = auc_results
        .iter()
        .find(|e| e.0 == "linear_trapezoidal")
        .unwrap()
        .1;
    assert!(linear > 0);
    // 87.5 + 62.5 + 75 = 225.0 exactly.
    assert_eq!(linear, 225 * M);
}

#[test]
fn test_parameter_calculation() {
    let observations = vec![obs(0, 0), obs(1 * M, 100 * M), obs(2 * M, 75 * M)];
    let (cmax, tmax) = ParameterCalculator::calculate_cmax_tmax(&observations).unwrap();
    assert_eq!(cmax, 100 * M);
    assert_eq!(tmax, 1 * M);
    // Half-life of lambda_z = 0.1: ln(2) / 0.1 = 6.93147 exactly in micro.
    let half_life = ParameterCalculator::calculate_half_life(100_000).unwrap();
    assert_eq!(half_life, 6_931_470);
}

#[test]
fn test_two_point_linear_trapezoid() {
    let observations = vec![obs(0, 10 * M), obs(2 * M, 30 * M)];
    let config = base_config(vec![AucMethod::LinearTrapezoidal]);
    let auc_results = AucCalculator::calculate_all_methods(&observations, &config).unwrap();
    // (t2 - t1) * (c1 + c2) / 2 = 2 * 40 / 2 = 40.
    assert_eq!(auc_results[0].1, 40 * M);
}

#[test]
fn test_constant_series_methods_agree() {
    let observations = vec![obs(0, 50 * M), obs(1 * M, 50 * M), obs(2 * M, 50 * M)];
    let config = base_config(vec![
        AucMethod::LinearTrapezoidal,
        AucMethod::LogTrapezoidal,
        AucMethod::LinearLogTrapezoidal,
        AucMethod::LinearUpLogDown,
    ]);
    let auc_results = AucCalculator::calculate_all_methods(&observations, &config).unwrap();
    assert_eq!(auc_results.len(), 4);
    for entry in &auc_results {
        assert_eq!(entry.1, 100 * M);
    }
}

#[test]
fn test_rising_series_hybrids_agree_with_linear() {
    let observations = vec![obs(0, 10 * M), obs(1 * M, 20 * M), obs(2 * M, 40 * M)];
    let config = base_config(vec![
        AucMethod::LinearTrapezoidal,
        AucMethod::LinearLogTrapezoidal,
        AucMethod::LinearUpLogDown,
    ]);
    let auc_results = AucCalculator::calculate_all_methods(&observations, &config).unwrap();
    let linear = auc_results[0].1;
    assert_eq!(auc_results[1].1, linear);
    assert_eq!(auc_results[2].1, linear);
}

#[test]
fn test_lambda_z_r_squared_in_unit_interval() {
    let subject = decaying_subject("1");
    let (lambda, r2, window) =
        ParameterCalculator::calculate_lambda_z(&subject.observations, &LambdaZSelection::Auto)
            .unwrap();
    assert!(r2 >= 0 && r2 <= M);
    assert!(r2 >= 800_000);
    // The decay constant is about 0.5.
    assert!(lambda > 450_000 && lambda < 550_000);
    assert!(!window.is_empty());
}

#[test]
fn test_half_life_decreases_with_lambda() {
    let h1 = ParameterCalculator::calculate_half_life(100_000).unwrap();
    let h2 = ParameterCalculator::calculate_half_life(200_000).unwrap();
    let h3 = ParameterCalculator::calculate_half_life(400_000).unwrap();
    assert!(h1 > h2 && h2 > h3);
    assert!(ParameterCalculator::calculate_half_life(0).is_err());
    assert!(ParameterCalculator::calculate_half_life(-5).is_err());
}

#[test]
fn test_insufficient_data_subject_fails() {
    let subject = subject_with("2", vec![obs(0, 10 * M), obs(1 * M, 5 * M)]);
    let config = base_config(vec![AucMethod::LinearTrapezoidal]);
    let result = NcaAnalyzer::analyze_subject(&subject, &config);
    match result {
        Err(NcaError::InsufficientData(_)) => {}
        _ => panic!("expected an insufficient-data failure"),
    }
    // And the population run records it as a failure, not a result.
    let pop = PopulationAnalyzer::analyze_population(vec![subject], &config).unwrap();
    assert_eq!(pop.individual_results.len(), 0);
    assert_eq!(pop.failed_subjects.len(), 1);
    assert_eq!(pop.failed_subjects[0].quantifiable_concentrations, 2);
}

#[test]
fn test_dependent_parameters_absent_without_lambda() {
    // Constant concentrations: no declining terminal phase qualifies.
    let subject = subject_with(
        "3",
        vec![obs(0, 50 * M), obs(1 * M, 50 * M), obs(2 * M, 50 * M), obs(3 * M, 50 * M)],
    );
    let config = base_config(vec![AucMethod::LinearTrapezoidal]);
    let (results, _warnings) = NcaAnalyzer::analyze_subject(&subject, &config).unwrap();
    let p = &results.individual_parameters;
    assert!(p.lambda_z.is_none());
    assert!(p.auc_inf.is_none());
    assert!(p.half_life.is_none());
    assert!(p.clearance.is_none());
    assert!(p.volume_steady_state.is_none());
    assert!(p.volume_terminal.is_none());
    assert!(p.mrt.is_none());
    // Present parameters are never negative.
    assert!(p.auc_last.unwrap() >= 0);
    assert!(p.cmax.unwrap() >= 0);
}

#[test]
fn test_derived_parameters_present_with_terminal_phase() {
    let subject = decaying_subject("4");
    let config = base_config(vec![AucMethod::LinearTrapezoidal]);
    let (results, _warnings) = NcaAnalyzer::analyze_subject(&subject, &config).unwrap();
    let p = &results.individual_parameters;
    assert!(p.lambda_z.unwrap() > 0);
    assert!(p.auc_inf.unwrap() > p.auc_last.unwrap());
    assert!(p.clearance.unwrap() > 0);
    assert!(p.volume_terminal.unwrap() > 0);
    assert!(p.half_life.unwrap() > 0);
    assert!(p.mrt.unwrap() > 0);
}

#[test]
fn test_stratum_below_minimum_is_excluded() {
    let mut s1 = decaying_subject("5");
    s1.demographics.sex = Some("M".to_string());
    let mut s2 = decaying_subject("6");
    s2.demographics.sex = Some("M".to_string());
    let mut s3 = decaying_subject("7");
    s3.demographics.sex = Some("M".to_string());
    let mut s4 = decaying_subject("8");
    s4.demographics.sex = Some("F".to_string());
    let mut config = base_config(vec![AucMethod::LinearTrapezoidal]);
    config.stratification = Some(StratificationConfig {
        stratify_columns: vec!["SEX".to_string()],
        include_interactions: false,
        minimum_n_per_stratum: 3,
        perform_statistical_tests: false,
    });
    let pop = PopulationAnalyzer::analyze_population(vec![s1, s2, s3, s4], &config).unwrap();
    // The three-male stratum survives; the single-female stratum is dropped.
    assert_eq!(pop.stratified_results.len(), 1);
    assert_eq!(pop.stratified_results[0].1.n_subjects, 3);
    assert_eq!(pop.stratified_results[0].1.stratum_value, "M");
}

#[test]
fn test_geometric_stats_only_for_positive_values() {
    let all_positive = vec![1 * M, 2 * M, 4 * M];
    let stats = calculate_parameter_stats(&all_positive);
    assert!(stats.geometric_mean.is_some());
    assert!(stats.geometric_cv_percent.is_some());
    assert_eq!(stats.n, 3);
    assert_eq!(stats.min, 1 * M);
    assert_eq!(stats.max, 4 * M);
    assert_eq!(stats.median, 2 * M);
    // Mean of 1, 2, 4 is 7/3 = 2.333333 truncated.
    assert_eq!(stats.arithmetic_mean, 2_333_333);

    let with_zero = vec![0, 2 * M, 4 * M];
    let stats0 = calculate_parameter_stats(&with_zero);
    assert!(stats0.geometric_mean.is_none());
    assert!(stats0.geometric_cv_percent.is_none());

    let with_negative = vec![-1 * M, 2 * M, 4 * M];
    let statsn = calculate_parameter_stats(&with_negative);
    assert!(statsn.geometric_mean.is_none());
    assert!(statsn.geometric_cv_percent.is_none());
}

#[test]
fn test_population_end_to_end_five_subjects() {
    // Five synthetic subjects: three analyzable, two with too little data.
    let subjects = vec![
        decaying_subject("s1"),
        decaying_subject("s2"),
        decaying_subject("s3"),
        subject_with("s4", vec![obs(0, 10 * M)]),
        subject_with("s5", vec![obs(0, 10 * M), obs(1 * M, 5 * M)]),
    ];
    let config = base_config(vec![AucMethod::LinearTrapezoidal, AucMethod::LinearUpLogDown]);
    let pop = PopulationAnalyzer::analyze_population(subjects, &config).unwrap();
    assert_eq!(pop.individual_results.len() + pop.failed_subjects.len(), 5);
    assert_eq!(pop.individual_results.len(), 3);
    assert_eq!(pop.failed_subjects.len(), 2);
    assert!(!pop.summary_statistics.parameter_stats.is_empty());
    assert!(!pop.method_comparison.auc_methods.is_empty());
}

#[test]
fn test_auc_inf_extrapolation() {
    // AUC_inf = AUC_last + Clast / lambda_z: 100 + 10 / 0.5 = 120.
    let v = AucCalculator::calculate_auc_inf(100 * M, 10 * M, 500_000).unwrap();
    assert_eq!(v, 120 * M);
    assert!(AucCalculator::calculate_auc_inf(100 * M, 10 * M, 0).is_err());
}

#[test]
fn test_aumc_and_mrt() {
    // AUMC of (0, 10), (2, 10): (2 - 0) * (0 * 10 + 2 * 10) / 2 = 20.
    let observations = vec![obs(0, 10 * M), obs(2 * M, 10 * M)];
    let aumc = AucCalculator::calculate_aumc(&observations).unwrap();
    assert_eq!(aumc, 20 * M);
    // MRT = AUMC_inf / AUC_inf = 20 / 10 = 2.
    let mrt = ParameterCalculator::calculate_mrt(20 * M, 10 * M).unwrap();
    assert_eq!(mrt, 2 * M);
    assert!(ParameterCalculator::calculate_mrt(20 * M, 0).is_err());
}

#[test]
fn test_clearance_and_volumes() {
    // CL = dose / AUC_inf = 100 / 50 = 2.
    let cl = ParameterCalculator::calculate_clearance_iv(100 * M, 50 * M).unwrap();
    assert_eq!(cl, 2 * M);
    assert!(ParameterCalculator::calculate_clearance_iv(100 * M, 0).is_err());
    // Vss = CL * MRT = 2 * 3 = 6.
    let vss = ParameterCalculator::calculate_vss(2 * M, 3 * M).unwrap();
    assert_eq!(vss, 6 * M);
    assert!(ParameterCalculator::calculate_vss(0, 3 * M).is_err());
    // Vz = CL / lambda_z = 2 / 0.5 = 4.
    let vz = ParameterCalculator::calculate_vz(2 * M, 500_000).unwrap();
    assert_eq!(vz, 4 * M);
    assert!(ParameterCalculator::calculate_vz(2 * M, 0).is_err());
}

#[test]
fn test_percent_extrapolated() {
    // (120 - 100) / 120 * 100 = 16.666666 % truncated.
    let v = ParameterCalculator::calculate_auc_percent_extrap(100 * M, 120 * M).unwrap();
    assert_eq!(v, 16_666_666);
    assert!(ParameterCalculator::calculate_auc_percent_extrap(100 * M, 0).is_err());
}

#[test]
fn test_tlast_clast_scans_from_the_end() {
    let mut observations = vec![obs(0, 10 * M), obs(1 * M, 5 * M)];
    observations.push(Observation {
        time: 2 * M,
        concentration: 50_000,
        lloq: Some(100_000),
        bloq: true,
        evid: 0,
        dv: 50_000,
    });
    let (tlast, clast) = ParameterCalculator::find_tlast_clast(&observations).unwrap();
    assert_eq!(tlast, 1 * M);
    assert_eq!(clast, 5 * M);
    let none = ParameterCalculator::find_tlast_clast(&Vec::new());
    assert!(none.is_none());
}

#[test]
fn test_blq_policies() {
    let mut observations = vec![obs(0, 10 * M)];
    observations.push(Observation {
        time: 1 * M,
        concentration: 50_000,
        lloq: Some(100_000),
        bloq: true,
        evid: 0,
        dv: 50_000,
    });
    let dropped = AucCalculator::filter_observations(&observations, &LloqHandling::Drop);
    assert_eq!(dropped.len(), 1);
    let zeroed = AucCalculator::filter_observations(&observations, &LloqHandling::Zero);
    assert_eq!(zeroed.len(), 2);
    assert_eq!(zeroed[1].concentration, 0);
    let halved = AucCalculator::filter_observations(&observations, &LloqHandling::HalfLloq);
    assert_eq!(halved[1].concentration, 50_000);
}

#[test]
fn test_parse_int_and_bool() {
    assert_eq!(NonmemParser::parse_int("123"), Some(123));
    assert_eq!(NonmemParser::parse_int("-7"), Some(-7));
    assert_eq!(NonmemParser::parse_int(""), None);
    assert_eq!(NonmemParser::parse_int("12a"), None);
    assert_eq!(NonmemParser::parse_bool("1"), Some(true));
    assert_eq!(NonmemParser::parse_bool("TRUE"), Some(true));
    assert_eq!(NonmemParser::parse_bool("Yes"), Some(true));
    assert_eq!(NonmemParser::parse_bool("0"), Some(false));
    assert_eq!(NonmemParser::parse_bool("false"), Some(false));
    assert_eq!(NonmemParser::parse_bool("maybe"), None);
}

#[test]
fn test_parse_fixed_decimal() {
    assert_eq!(NonmemParser::parse_fixed("1.25"), Some(1_250_000));
    assert_eq!(NonmemParser::parse_fixed("100"), Some(100 * M));
    assert_eq!(NonmemParser::parse_fixed("-0.5"), Some(-500_000));
    assert_eq!(NonmemParser::parse_fixed("abc"), None);
    assert_eq!(NonmemParser::parse_fixed(""), None);
}

#[test]
fn test_parse_rows_assembles_subjects() {
    let header_ok_row = |id: &str, time: &str, dv: &str, evid: &str| -> Vec<String> {
        let mut v: Vec<String> = Vec::new();
        // ID TIME DV AMT EVID CMT RATE SS II ADDL MDV BLQ LLOQ AGE WT HT SEX RACE TRT STDAY PERIOD SEQ FORM
        v.push(id.to_string());
        v.push(time.to_string());
        v.push(dv.to_string());
        v.push("0".to_string());
        v.push(evid.to_string());
        v.push("1".to_string());
        v.push("0".to_string());
        v.push("0".to_string());
        v.push("0".to_string());
        v.push("0".to_string());
        v.push("0".to_string());
        v.push("0".to_string());
        v.push("0.1".to_string());
        v.push("30".to_string());
        v.push("70".to_string());
        v.push("170".to_string());
        v.push("M".to_string());
        v.push("White".to_string());
        v.push("Treatment_A".to_string());
        v.push("1".to_string());
        v.push("1".to_string());
        v.push("SEQ1".to_string());
        v.push("Tablet".to_string());
        v
    };
    let rows: Vec<_> = vec![
        NonmemParser::parse_record(&header_ok_row("1", "0", "100", "0")),
        NonmemParser::parse_record(&header_ok_row("1", "1", "75", "0")),
        NonmemParser::parse_record(&header_ok_row("2", "0", "50", "0")),
    ];
    let subjects = NonmemParser::parse_rows(&rows).unwrap();
    assert_eq!(subjects.len(), 2);
    assert_eq!(subjects[0].observations.len(), 2);
    assert_eq!(subjects[0].observations[0].concentration, 100 * M);
    assert_eq!(subjects[1].observations.len(), 1);
    assert_eq!(subjects[0].demographics.weight, Some(70 * M));
}

#[test]
fn test_zero_dose_degrades_volumes_not_subject() {
    // A subject with a clean terminal phase but zero administered dose:
    // clearance is 0, so Vss and Vz cannot be computed; per the error
    // design this degrades to absent fields and never fails the subject.
    let mut subject = decaying_subject("9");
    subject.dosing_events = vec![DosingEvent {
        time: 0,
        dose: 0,
        route: DosingRoute::IntravenousBolus,
        infusion_duration: None,
        evid: 1,
    }];
    let config = base_config(vec![AucMethod::LinearTrapezoidal]);
    let (results, _warnings) = NcaAnalyzer::analyze_subject(&subject, &config).unwrap();
    let p = &results.individual_parameters;
    assert!(p.lambda_z.unwrap() > 0);
    assert_eq!(p.clearance, Some(0));
    assert!(p.volume_steady_state.is_none());
    assert!(p.volume_terminal.is_none());
    assert!(p.mrt.is_some());
}

#[test]
fn test_parse_int_signed_inputs() {
    assert_eq!(NonmemParser::parse_int("+5"), Some(5));
    assert_eq!(NonmemParser::parse_int("-0"), Some(0));
    assert_eq!(NonmemParser::parse_int("-2147483648"), Some(i32::MIN));
    assert_eq!(NonmemParser::parse_int("2147483648"), None);
    assert_eq!(NonmemParser::parse_int("-"), None);
    assert_eq!(NonmemParser::parse_int("+"), None);
}

#[test]
fn test_best_fit_picks_highest_r_squared_window() {
    // Points 0..3 follow a clean exponential decay; the final point breaks
    // it. The best-fit search with a zero-ish threshold must settle on a
    // window whose fit is at least as good as the clean prefix's.
    let observations = vec![
        obs(0, 100_000_000),
        obs(1 * M, 60_653_066),
        obs(2 * M, 36_787_944),
        obs(3 * M, 22_313_016),
        obs(4 * M, 90_000_000),
    ];
    let selection = LambdaZSelection::BestFit {
        min_points: 3,
        r_squared_threshold: 100_000,
    };
    let (lambda, r2, window) =
        ParameterCalculator::calculate_lambda_z(&observations, &selection).unwrap();
    // The clean prefix 0..=3 fits almost perfectly, so the winner must too.
    assert!(r2 >= 990_000);
    assert!(lambda > 0);
    assert!(window.len() >= 3);
    // The last, profile-breaking point is not in the winning window.
    assert!(!window.contains(&4));
}

#[test]
fn test_stratification_matches_names_case_insensitively() {
    let mut s1 = decaying_subject("10");
    s1.demographics.sex = Some("M".to_string());
    let mut s2 = decaying_subject("11");
    s2.demographics.sex = Some("M".to_string());
    let mut s3 = decaying_subject("12");
    s3.demographics.sex = Some("M".to_string());
    let mut config = base_config(vec![AucMethod::LinearTrapezoidal]);
    config.stratification = Some(StratificationConfig {
        stratify_columns: vec!["Sex".to_string()],
        include_interactions: false,
        minimum_n_per_stratum: 3,
        perform_statistical_tests: false,
    });
    let pop = PopulationAnalyzer::analyze_population(vec![s1, s2, s3], &config).unwrap();
    assert_eq!(pop.stratified_results.len(), 1);
    assert_eq!(pop.stratified_results[0].1.stratum_value, "M");
    assert_eq!(pop.stratified_results[0].1.n_subjects, 3);
    assert_eq!(pop.stratified_results[0].0, "Sex_M");
}

#[test]
fn test_parse_int_i32_boundaries() {
    assert_eq!(NonmemParser::parse_int("2147483647"), Some(i32::MAX));
    assert_eq!(NonmemParser::parse_int("+2147483647"), Some(i32::MAX));
    assert_eq!(NonmemParser::parse_int("99999999999"), None);
}

#[test]
fn test_parser_rejects_out_of_range_values() {
    // A time beyond the accepted range is rejected, not silently clamped.
    let row_with_time = |time: &str| -> Vec<String> {
        let mut v: Vec<String> = Vec::new();
        v.push("1".to_string());
        v.push(time.to_string());
        v.push("100".to_string());
        v.push("0".to_string());
        v.push("0".to_string());
        v
    };
    let ok_rows = vec![NonmemParser::parse_record(&row_with_time("10"))];
    assert!(NonmemParser::parse_rows(&ok_rows).is_ok());
    let bad_rows = vec![NonmemParser::parse_record(&row_with_time("2000"))];
    assert!(NonmemParser::parse_rows(&bad_rows).is_err());
}
