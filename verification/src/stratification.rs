//! Stratified re-analysis: partition subjects by a covariate's resolved
//! value, drop strata below the configured minimum size, re-run the
//! aggregation per surviving stratum, and compare strata pairwise with
//! Welch's t-test.

use vstd::prelude::*;
use crate::errors::NcaError;
use crate::fixed::{clamp_range, div_trunc, div_trunc_any, in_range, isqrt, lemma_tdiv_bounds, VAL_LIMIT};
use crate::models::{config_wf, param_key, subject_wf, AnalysisConfig, ParamKind, StratifiedResults, Subject, MAX_SUBJECTS};
use crate::population::PopulationAnalyzer;
use crate::stats::{mean_of, sample_variance};

use crate::SCALE;

verus! {

#[derive(Debug, Clone)]
pub struct StrataComparison {
    pub parameter: String,
    pub pairwise_comparisons: Vec<PairwiseComparison>,
}

#[derive(Debug, Clone)]
pub struct PairwiseComparison {
    pub stratum1_name: String,
    pub stratum2_name: String,
    pub n1: usize,
    pub n2: usize,
    pub mean1: i128,
    pub mean2: i128,
    pub p_value: i128,
    pub test_statistic: i128,
    pub test_type: String,
    pub significant: bool,
    pub effect_size: i128,
}

/// The Welch t statistic the analysis computes over two value lists:
/// the clamped mean difference over the floor-rooted summed per-group
/// variance shares; zero when a group is too small or the spread vanishes.
pub open spec fn welch_t_spec(v1: Seq<i128>, v2: Seq<i128>) -> int {
    if v1.len() < 2 || v2.len() < 2 {
        0
    } else {
        let m1 = crate::fixed::clamp_spec(crate::stats::mean_spec(v1));
        let m2 = crate::fixed::clamp_spec(crate::stats::mean_spec(v2));
        let d1 = crate::fixed::tdiv(crate::stats::variance_spec(v1), v1.len() as int);
        let d2 = crate::fixed::tdiv(crate::stats::variance_spec(v2), v2.len() as int);
        let se2 = crate::fixed::clamp_spec(d1 + d2);
        let se = crate::fixed::sqrt_floor(se2 * crate::SCALE as int);
        if se > 0 {
            crate::fixed::clamp_spec(crate::fixed::tdiv((m1 - m2) * crate::SCALE as int, se))
        } else {
            0
        }
    }
}

/// The pooled standard deviation the effect size uses: the floor root of
/// the clamped pooled sample variance; zero when a group is too small.
pub open spec fn pooled_std_spec(v1: Seq<i128>, v2: Seq<i128>) -> int {
    if v1.len() < 2 || v2.len() < 2 {
        0
    } else {
        let n1 = v1.len() as int;
        let n2 = v2.len() as int;
        let w1_raw = crate::fixed::tdiv(
            (n1 - 1) * crate::SCALE as int * crate::stats::variance_spec(v1),
            crate::SCALE as int,
        );
        let w2_raw = crate::fixed::tdiv(
            (n2 - 1) * crate::SCALE as int * crate::stats::variance_spec(v2),
            crate::SCALE as int,
        );
        let w1 = if crate::fixed::in_range(w1_raw) {
            w1_raw
        } else {
            crate::fixed::VAL_LIMIT as int
        };
        let w2 = if crate::fixed::in_range(w2_raw) {
            w2_raw
        } else {
            crate::fixed::VAL_LIMIT as int
        };
        let pooled_var = crate::fixed::clamp_spec(crate::fixed::tdiv(w1 + w2, n1 + n2 - 2));
        let pv = if pooled_var < 0 {
            0
        } else {
            pooled_var
        };
        crate::fixed::clamp_spec(crate::fixed::sqrt_floor(pv * crate::SCALE as int))
    }
}

/// The Cohen's d effect size: the absolute mean difference over the pooled
/// standard deviation, zero when the pooled spread vanishes.
pub open spec fn effect_size_spec(v1: Seq<i128>, v2: Seq<i128>) -> int {
    let m1 = crate::fixed::clamp_spec(crate::stats::mean_spec(v1));
    let m2 = crate::fixed::clamp_spec(crate::stats::mean_spec(v2));
    let pooled = pooled_std_spec(v1, v2);
    if pooled > 0 {
        let diff = if m1 >= m2 {
            m1 - m2
        } else {
            m2 - m1
        };
        crate::fixed::clamp_spec(crate::fixed::tdiv(diff * crate::SCALE as int, pooled))
    } else {
        0
    }
}

/// Swapping the two groups negates the Welch t statistic.
pub proof fn lemma_welch_t_antisymmetric(v1: Seq<i128>, v2: Seq<i128>)
    ensures
        welch_t_spec(v1, v2) == -welch_t_spec(v2, v1),
{
    if v1.len() < 2 || v2.len() < 2 {
    } else {
        let m1 = crate::fixed::clamp_spec(crate::stats::mean_spec(v1));
        let m2 = crate::fixed::clamp_spec(crate::stats::mean_spec(v2));
        let d1 = crate::fixed::tdiv(crate::stats::variance_spec(v1), v1.len() as int);
        let d2 = crate::fixed::tdiv(crate::stats::variance_spec(v2), v2.len() as int);
        let se = crate::fixed::sqrt_floor((crate::fixed::clamp_spec(d1 + d2)) * crate::SCALE as int);
        if se > 0 {
            assert((m2 - m1) * crate::SCALE as int == -((m1 - m2) * crate::SCALE as int))
                by (nonlinear_arith);
        }
    }
}

/// What every pairwise comparison satisfies on its own: the significance
/// rule, a p-value inside [0, 1], and in-range statistics.
pub open spec fn comparison_ok(c: PairwiseComparison) -> bool {
    &&& c.significant == (c.p_value < 50_000)
    &&& 0 <= c.p_value <= SCALE as int
    &&& in_range(c.test_statistic as int)
    &&& in_range(c.mean1 as int)
    &&& in_range(c.mean2 as int)
    &&& c.effect_size >= 0 && in_range(c.effect_size as int)
}

/// The view of an optional String.
pub open spec fn opt_text(o: Option<String>) -> Option<Seq<char>> {
    match o {
        Some(v) => Some(v@),
        None => None,
    }
}

/// The decimal text of an i32, sign included.
pub open spec fn int_text(n: int) -> Seq<char> {
    if n >= 0 {
        dec_spec(n)
    } else {
        "-"@ + dec_spec(-n)
    }
}

/// Does the variable name match this key, ASCII case-insensitively?
pub open spec fn var_is(v: Seq<char>, key: Seq<char>) -> bool {
    crate::parser::ci_equal(v, key)
}

/// The resolved stratification value of a subject for a variable: the
/// demographic field for the name variables, the fixed bins for the
/// derived groups, nothing for an unknown name.
pub open spec fn stratum_value_spec(s: Subject, v: Seq<char>) -> Option<Seq<char>> {
    let d = s.demographics;
    if var_is(v, "SEX"@) {
        opt_text(d.sex)
    } else if var_is(v, "RACE"@) {
        opt_text(d.race)
    } else if var_is(v, "TREATMENT"@) || var_is(v, "TRT"@) {
        opt_text(d.treatment)
    } else if var_is(v, "PERIOD"@) {
        match d.period {
            Some(p) => Some(int_text(p as int)),
            None => None,
        }
    } else if var_is(v, "SEQUENCE"@) || var_is(v, "SEQ"@) {
        opt_text(d.sequence)
    } else if var_is(v, "FORMULATION"@) || var_is(v, "FORM"@) {
        opt_text(d.formulation)
    } else if var_is(v, "AGE_GROUP"@) {
        match d.age {
            Some(a) => if a < 18 * crate::SCALE {
                Some("Pediatric"@)
            } else if a < 65 * crate::SCALE {
                Some("Adult"@)
            } else {
                Some("Elderly"@)
            },
            None => None,
        }
    } else if var_is(v, "WEIGHT_GROUP"@) {
        match d.weight {
            Some(w) => if w < 60 * crate::SCALE {
                Some("Low"@)
            } else if w < 90 * crate::SCALE {
                Some("Normal"@)
            } else {
                Some("High"@)
            },
            None => None,
        }
    } else if var_is(v, "DOSE_GROUP"@) {
        let total = crate::nca::total_dose_spec(s.dosing_events@);
        if total > 0 {
            if total < 100 * crate::SCALE {
                Some("Low"@)
            } else if total < 500 * crate::SCALE {
                Some("Medium"@)
            } else {
                Some("High"@)
            }
        } else {
            None
        }
    } else {
        None
    }
}

/// A stratum's index list is exactly the (ascending) positions of the
/// subjects whose resolved value is `val`.
pub open spec fn group_exact(
    idxs: Seq<usize>,
    subjects: Seq<Subject>,
    v: Seq<char>,
    val: Seq<char>,
) -> bool {
    &&& forall|m: int|
        0 <= m < idxs.len() ==> ((#[trigger] idxs[m]) as int) < subjects.len()
            && stratum_value_spec(subjects[idxs[m] as int], v) == Some(val)
    &&& forall|m1: int, m2: int|
        0 <= m1 < m2 < idxs.len() ==> #[trigger] idxs[m1] < #[trigger] idxs[m2]
    &&& forall|j: int|
        0 <= j < subjects.len() && stratum_value_spec(#[trigger] subjects[j], v) == Some(val)
            ==> idxs.contains(j as usize)
}

/// How many of the first k subjects resolve to `val` for variable `v`.
pub open spec fn stratum_count(
    subjects: Seq<Subject>,
    v: Seq<char>,
    val: Seq<char>,
    k: int,
) -> int
    decreases k,
{
    if k <= 0 {
        0
    } else {
        stratum_count(subjects, v, val, k - 1) + if stratum_value_spec(subjects[k - 1], v)
            == Some(val) {
            1int
        } else {
            0int
        }
    }
}

/// An exact group's length is the number of subjects that resolve to its
/// value: the ascending enumeration of a set is as long as the set's count.
pub proof fn lemma_group_len_is_count(
    idxs: Seq<usize>,
    subjects: Seq<Subject>,
    v: Seq<char>,
    val: Seq<char>,
    n: int,
)
    requires
        0 <= n <= subjects.len(),
        n <= usize::MAX as int,
        forall|m: int|
            0 <= m < idxs.len() ==> ((#[trigger] idxs[m]) as int) < n && stratum_value_spec(
                subjects[idxs[m] as int],
                v,
            ) == Some(val),
        forall|m1: int, m2: int|
            0 <= m1 < m2 < idxs.len() ==> #[trigger] idxs[m1] < #[trigger] idxs[m2],
        forall|j: int|
            0 <= j < n && stratum_value_spec(#[trigger] subjects[j], v) == Some(val)
                ==> idxs.contains(j as usize),
    ensures
        idxs.len() == stratum_count(subjects, v, val, n),
    decreases n,
{
    if n == 0 {
        if idxs.len() > 0 {
            assert((idxs[0] as int) < 0);
        }
    } else {
        let matched = stratum_value_spec(subjects[n - 1], v) == Some(val);
        if matched {
            assert(idxs.contains((n - 1) as usize));
            assert(exists|m: int| 0 <= m < idxs.len() && idxs[m] == (n - 1) as usize);
            let m = choose|m: int| 0 <= m < idxs.len() && idxs[m] == (n - 1) as usize;
            let last = idxs.len() - 1;
            assert(idxs[last] == (n - 1) as usize) by {
                assert(0 <= m <= last);
                if m < last {
                    assert(idxs[m] < idxs[last]);
                    assert((idxs[last] as int) < n);
                    assert((idxs[m] as int) == n - 1);
                    assert((idxs[m] as int) < (idxs[last] as int));
                    assert(false);
                }
                assert(m == last);
            }
            let rest = idxs.drop_last();
            assert forall|m2: int|
                0 <= m2 < rest.len() implies ((#[trigger] rest[m2]) as int) < n - 1
                && stratum_value_spec(subjects[rest[m2] as int], v) == Some(val) by {
                assert(rest[m2] == idxs[m2]);
                assert(idxs[m2] < idxs[last]);
            }
            assert forall|j: int|
                0 <= j < n - 1 && stratum_value_spec(#[trigger] subjects[j], v) == Some(val)
                implies rest.contains(j as usize) by {
                assert(idxs.contains(j as usize));
                assert(exists|p: int| 0 <= p < idxs.len() && idxs[p] == j as usize);
                let p = choose|p: int| 0 <= p < idxs.len() && idxs[p] == j as usize;
                assert(p < last) by {
                    if p == last {
                        assert(idxs[p] == (n - 1) as usize);
                        assert((idxs[p] as int) == j);
                        assert(j == n - 1);
                        assert(false);
                    }
                }
                assert(rest[p] == j as usize);
            }
            lemma_group_len_is_count(rest, subjects, v, val, n - 1);
        } else {
            assert forall|m2: int|
                0 <= m2 < idxs.len() implies ((#[trigger] idxs[m2]) as int) < n - 1 by {
                if idxs[m2] as int == n - 1 {
                    assert(stratum_value_spec(subjects[idxs[m2] as int], v) == Some(val));
                }
            }
            lemma_group_len_is_count(idxs, subjects, v, val, n - 1);
        }
    }
}

/// The entry's individual results come from one aggregation run over
/// exactly the subjects of its resolved stratum.
pub open spec fn stratum_results_exact(
    sr: StratifiedResults,
    subjects: Seq<Subject>,
    cfg: AnalysisConfig,
) -> bool {
    exists|idxs: Seq<usize>, outs: Seq<crate::population::SubjectOutcome>, fl: Seq<
        crate::models::FailedSubjectAnalysis,
    >|
        #![trigger crate::population::outcome_partition(
            outs,
            subjects,
            idxs,
            cfg,
            sr.individual_results@,
            fl,
        )]
        {
            &&& group_exact(idxs, subjects, sr.stratum_name@, sr.stratum_value@)
            &&& sr.n_subjects == idxs.len()
            &&& crate::population::outcome_partition(
                outs,
                subjects,
                idxs,
                cfg,
                sr.individual_results@,
                fl,
            )
        }
}

/// Keys of interaction strata carry this prefix.
pub open spec fn is_interaction_key(key: Seq<char>) -> bool {
    key.len() >= 12 && key.subrange(0, 12) == "interaction_"@
}

/// What a single-variable stratum entry promises: its name is one of the
/// configured columns, its key combines name and value, its size is the
/// true number of subjects resolving to its value, it meets the minimum,
/// and its results come from aggregating exactly those subjects.
pub open spec fn single_entry_ok(
    key: Seq<char>,
    sr: StratifiedResults,
    subjects: Seq<Subject>,
    columns: Seq<String>,
    min_n: int,
    cfg: AnalysisConfig,
) -> bool {
    &&& exists|vi: int|
        0 <= vi < columns.len() && sr.stratum_name@ == (#[trigger] columns[vi])@
    &&& key == sr.stratum_name@ + "_"@ + sr.stratum_value@
    &&& sr.n_subjects == stratum_count(subjects, sr.stratum_name@, sr.stratum_value@, subjects.len() as int)
    &&& sr.n_subjects >= min_n
    &&& stratum_results_exact(sr, subjects, cfg)
}

/// Some produced entry names this stratum.
pub open spec fn stratum_reported(
    r: Seq<(String, StratifiedResults)>,
    name: Seq<char>,
    val: Seq<char>,
) -> bool {
    exists|k: int|
        0 <= k < r.len() && (#[trigger] r[k]).1.stratum_name@ == name && r[k].1.stratum_value@
            == val
}

/// The configured minimum stratum size, zero when stratification is off.
pub open spec fn min_n_of(c: AnalysisConfig) -> int {
    match c.stratification {
        Some(sc) => sc.minimum_n_per_stratum as int,
        None => 0,
    }
}

pub struct StratificationAnalyzer;

impl StratificationAnalyzer {
    /// Stratified analysis: every produced stratum holds at least the
    /// configured minimum number of subjects.
    pub fn analyze_stratified(subjects: &Vec<Subject>, config: &AnalysisConfig) -> (r: Vec<
        (String, StratifiedResults),
    >)
        requires
            forall|i: int| 0 <= i < subjects@.len() ==> subject_wf(#[trigger] subjects@[i]),
            config_wf(*config),
            subjects@.len() <= MAX_SUBJECTS as int,
        ensures
            forall|k: int|
                0 <= k < r@.len() ==> (#[trigger] r@[k]).1.n_subjects >= min_n_of(*config),
            config.stratification is None ==> r@.len() == 0,
            config.stratification matches Some(sc) ==> {
                &&& forall|k: int|
                    0 <= k < r@.len() && !is_interaction_key((#[trigger] r@[k]).0@)
                        ==> single_entry_ok(
                        r@[k].0@,
                        r@[k].1,
                        subjects@,
                        sc.stratify_columns@,
                        sc.minimum_n_per_stratum as int,
                        *config,
                    )
                &&& forall|vi: int, j: int|
                    0 <= vi < sc.stratify_columns@.len() && 0 <= j < subjects@.len()
                        && stratum_value_spec(
                        #[trigger] subjects@[j],
                        (#[trigger] sc.stratify_columns@[vi])@,
                    ) is Some && stratum_count(
                        subjects@,
                        sc.stratify_columns@[vi]@,
                        stratum_value_spec(subjects@[j], sc.stratify_columns@[vi]@)->0,
                        subjects@.len() as int,
                    ) >= sc.minimum_n_per_stratum ==> stratum_reported(
                        r@,
                        sc.stratify_columns@[vi]@,
                        stratum_value_spec(subjects@[j], sc.stratify_columns@[vi]@)->0,
                    )
            },
    {
        let strat_config = match &config.stratification {
            Some(sc) => sc,
            None => {
                return Vec::new();
            },
        };
        let mut out: Vec<(String, StratifiedResults)> = Vec::new();
        let ghost mut col_rep: Seq<Seq<int>> = Seq::empty();
        let ghost columns = strat_config.stratify_columns@;
        let ghost min_n: int = strat_config.minimum_n_per_stratum as int;
        let mut vi: usize = 0;
        while vi < strat_config.stratify_columns.len()
            invariant
                forall|i: int| 0 <= i < subjects@.len() ==> subject_wf(#[trigger] subjects@[i]),
                config_wf(*config),
                subjects@.len() <= MAX_SUBJECTS as int,
                config.stratification == Some(*strat_config),
                columns == strat_config.stratify_columns@,
                min_n == strat_config.minimum_n_per_stratum as int,
                0 <= vi <= columns.len(),
                forall|k: int|
                    0 <= k < out@.len() ==> (#[trigger] out@[k]).1.n_subjects >= min_n_of(*config),
                forall|k: int|
                    0 <= k < out@.len() ==> single_entry_ok(
                        (#[trigger] out@[k]).0@,
                        out@[k].1,
                        subjects@,
                        columns,
                        min_n,
                        *config,
                    ),
                col_rep.len() == vi,
                forall|v2: int|
                    0 <= v2 < vi ==> (#[trigger] col_rep[v2]).len() == subjects@.len(),
                forall|v2: int, j: int|
                    0 <= v2 < vi && 0 <= j < subjects@.len() && stratum_value_spec(
                        #[trigger] subjects@[j],
                        (#[trigger] columns[v2])@,
                    ) is Some && stratum_count(
                        subjects@,
                        columns[v2]@,
                        stratum_value_spec(subjects@[j], columns[v2]@)->0,
                        subjects@.len() as int,
                    ) >= min_n ==> {
                        let e = col_rep[v2][j];
                        &&& 0 <= e < out@.len()
                        &&& out@[e].1.stratum_name@ == columns[v2]@
                        &&& out@[e].1.stratum_value@ == stratum_value_spec(
                            subjects@[j],
                            columns[v2]@,
                        )->0
                    },
            decreases strat_config.stratify_columns@.len() - vi,
        {
            let variable = &strat_config.stratify_columns[vi];
            let (strata, g_grp) = create_strata(subjects, variable);
            let ghost grp_of = g_grp@;
            let ghost mut ent_of: Seq<int> = Seq::empty();
            let mut si: usize = 0;
            while si < strata.len()
                invariant
                    forall|i: int| 0 <= i < subjects@.len() ==> subject_wf(#[trigger] subjects@[i]),
                    config_wf(*config),
                    subjects@.len() <= MAX_SUBJECTS as int,
                    config.stratification == Some(*strat_config),
                    columns == strat_config.stratify_columns@,
                    min_n == strat_config.minimum_n_per_stratum as int,
                    0 <= vi < columns.len(),
                    variable@ == columns[vi as int]@,
                    0 <= si <= strata@.len(),
                    forall|k: int|
                        0 <= k < strata@.len() ==> stratum_indices_ok(
                            (#[trigger] strata@[k]).1@,
                            subjects@.len() as int,
                        ) && strata@[k].1@.len() <= MAX_SUBJECTS as int,
                    forall|g: int|
                        0 <= g < strata@.len() ==> (#[trigger] strata@[g]).1@.len() > 0
                            && group_exact(strata@[g].1@, subjects@, variable@, strata@[g].0@),
                    forall|k: int|
                        0 <= k < out@.len() ==> (#[trigger] out@[k]).1.n_subjects >= min_n_of(
                            *config,
                        ),
                    forall|k: int|
                        0 <= k < out@.len() ==> single_entry_ok(
                            (#[trigger] out@[k]).0@,
                            out@[k].1,
                            subjects@,
                            columns,
                            min_n,
                            *config,
                        ),
                    ent_of.len() == si,
                    forall|g: int|
                        0 <= g < si && (#[trigger] strata@[g]).1@.len() >= min_n ==> {
                            let e = ent_of[g];
                            &&& 0 <= e < out@.len()
                            &&& out@[e].1.stratum_name@ == variable@
                            &&& out@[e].1.stratum_value@ == strata@[g].0@
                        },
                    col_rep.len() == vi,
                    forall|v2: int|
                        0 <= v2 < vi ==> (#[trigger] col_rep[v2]).len() == subjects@.len(),
                    forall|v2: int, j: int|
                        0 <= v2 < vi && 0 <= j < subjects@.len() && stratum_value_spec(
                            #[trigger] subjects@[j],
                            (#[trigger] columns[v2])@,
                        ) is Some && stratum_count(
                            subjects@,
                            columns[v2]@,
                            stratum_value_spec(subjects@[j], columns[v2]@)->0,
                            subjects@.len() as int,
                        ) >= min_n ==> {
                            let e = col_rep[v2][j];
                            &&& 0 <= e < out@.len()
                            &&& out@[e].1.stratum_name@ == columns[v2]@
                            &&& out@[e].1.stratum_value@ == stratum_value_spec(
                                subjects@[j],
                                columns[v2]@,
                            )->0
                        },
                decreases strata@.len() - si,
            {
                let group_len = strata[si].1.len();
                if group_len >= strat_config.minimum_n_per_stratum {
                    let key = variable.clone().concat("_").concat(strata[si].0.as_str());
                    let sr = analyze_stratum(
                        subjects,
                        &strata[si].1,
                        config,
                        variable,
                        &strata[si].0,
                    );
                    proof {
                        lemma_group_len_is_count(
                            strata@[si as int].1@,
                            subjects@,
                            variable@,
                            strata@[si as int].0@,
                            subjects@.len() as int,
                        );
                        let outs = choose|outs: Seq<crate::population::SubjectOutcome>, fl: Seq<
                            crate::models::FailedSubjectAnalysis,
                        >|
                            #![trigger crate::population::outcome_partition(
                                outs,
                                subjects@,
                                strata@[si as int].1@,
                                *config,
                                sr.individual_results@,
                                fl,
                            )]
                            crate::population::outcome_partition(
                                outs,
                                subjects@,
                                strata@[si as int].1@,
                                *config,
                                sr.individual_results@,
                                fl,
                            );
                        assert(stratum_results_exact(sr, subjects@, *config));
                        assert(single_entry_ok(
                            key@,
                            sr,
                            subjects@,
                            columns,
                            min_n,
                            *config,
                        )) by {
                            let ghost viw: int = vi as int;
                            assert(0 <= viw < columns.len() && sr.stratum_name@ == columns[viw]@);
                        }
                    }
                    out.push((key, sr));
                    proof {
                        ent_of = ent_of.push(out@.len() - 1);
                    }
                } else {
                    proof {
                        ent_of = ent_of.push(-1);
                    }
                }
                si = si + 1;
            }
            proof {
                let rep_vi: Seq<int> = Seq::new(
                    subjects@.len(),
                    |j: int|
                        if 0 <= grp_of[j] < ent_of.len() {
                            ent_of[grp_of[j]]
                        } else {
                            -1
                        },
                );
                assert forall|j: int|
                    0 <= j < subjects@.len() && stratum_value_spec(
                        #[trigger] subjects@[j],
                        variable@,
                    ) is Some && stratum_count(
                        subjects@,
                        variable@,
                        stratum_value_spec(subjects@[j], variable@)->0,
                        subjects@.len() as int,
                    ) >= min_n implies {
                    let e = rep_vi[j];
                    &&& 0 <= e < out@.len()
                    &&& out@[e].1.stratum_name@ == variable@
                    &&& out@[e].1.stratum_value@ == stratum_value_spec(
                        subjects@[j],
                        variable@,
                    )->0
                } by {
                    let g = grp_of[j];
                    assert(0 <= g < strata@.len());
                    assert(strata@[g].0@ == stratum_value_spec(subjects@[j], variable@)->0);
                    lemma_group_len_is_count(
                        strata@[g].1@,
                        subjects@,
                        variable@,
                        strata@[g].0@,
                        subjects@.len() as int,
                    );
                    assert(strata@[g].1@.len() >= min_n);
                    assert(rep_vi[j] == ent_of[g]);
                }
                col_rep = col_rep.push(rep_vi);
            }
            vi = vi + 1;
        }
        if strat_config.include_interactions && strat_config.stratify_columns.len() >= 2 {
            let mut a: usize = 0;
            while a < strat_config.stratify_columns.len()
                invariant
                    forall|i: int| 0 <= i < subjects@.len() ==> subject_wf(#[trigger] subjects@[i]),
                    config_wf(*config),
                    subjects@.len() <= MAX_SUBJECTS as int,
                    config.stratification == Some(*strat_config),
                    columns == strat_config.stratify_columns@,
                    min_n == strat_config.minimum_n_per_stratum as int,
                    forall|k: int|
                        0 <= k < out@.len() ==> (#[trigger] out@[k]).1.n_subjects >= min_n_of(
                            *config,
                        ),
                    forall|k: int|
                        0 <= k < out@.len() && !is_interaction_key((#[trigger] out@[k]).0@)
                            ==> single_entry_ok(
                            out@[k].0@,
                            out@[k].1,
                            subjects@,
                            columns,
                            min_n,
                            *config,
                        ),
                    col_rep.len() == columns.len(),
                    forall|v2: int|
                        0 <= v2 < columns.len() ==> (#[trigger] col_rep[v2]).len()
                            == subjects@.len(),
                    forall|v2: int, j: int|
                        0 <= v2 < columns.len() && 0 <= j < subjects@.len() && stratum_value_spec(
                            #[trigger] subjects@[j],
                            (#[trigger] columns[v2])@,
                        ) is Some && stratum_count(
                            subjects@,
                            columns[v2]@,
                            stratum_value_spec(subjects@[j], columns[v2]@)->0,
                            subjects@.len() as int,
                        ) >= min_n ==> {
                            let e = col_rep[v2][j];
                            &&& 0 <= e < out@.len()
                            &&& out@[e].1.stratum_name@ == columns[v2]@
                            &&& out@[e].1.stratum_value@ == stratum_value_spec(
                                subjects@[j],
                                columns[v2]@,
                            )->0
                        },
                decreases strat_config.stratify_columns@.len() - a,
            {
                let mut b: usize = a + 1;
                while b < strat_config.stratify_columns.len()
                    invariant
                        forall|i: int|
                            0 <= i < subjects@.len() ==> subject_wf(#[trigger] subjects@[i]),
                        config_wf(*config),
                        subjects@.len() <= MAX_SUBJECTS as int,
                        config.stratification == Some(*strat_config),
                        columns == strat_config.stratify_columns@,
                        min_n == strat_config.minimum_n_per_stratum as int,
                        a < strat_config.stratify_columns@.len(),
                        forall|k: int|
                            0 <= k < out@.len() ==> (#[trigger] out@[k]).1.n_subjects >= min_n_of(
                                *config,
                            ),
                        forall|k: int|
                            0 <= k < out@.len() && !is_interaction_key((#[trigger] out@[k]).0@)
                                ==> single_entry_ok(
                                out@[k].0@,
                                out@[k].1,
                                subjects@,
                                columns,
                                min_n,
                                *config,
                            ),
                        col_rep.len() == columns.len(),
                        forall|v2: int|
                            0 <= v2 < columns.len() ==> (#[trigger] col_rep[v2]).len()
                                == subjects@.len(),
                        forall|v2: int, j: int|
                            0 <= v2 < columns.len() && 0 <= j < subjects@.len()
                                && stratum_value_spec(
                                #[trigger] subjects@[j],
                                (#[trigger] columns[v2])@,
                            ) is Some && stratum_count(
                                subjects@,
                                columns[v2]@,
                                stratum_value_spec(subjects@[j], columns[v2]@)->0,
                                subjects@.len() as int,
                            ) >= min_n ==> {
                                let e = col_rep[v2][j];
                                &&& 0 <= e < out@.len()
                                &&& out@[e].1.stratum_name@ == columns[v2]@
                                &&& out@[e].1.stratum_value@ == stratum_value_spec(
                                    subjects@[j],
                                    columns[v2]@,
                                )->0
                            },
                    decreases strat_config.stratify_columns@.len() - b,
                {
                    let var1 = &strat_config.stratify_columns[a];
                    let var2 = &strat_config.stratify_columns[b];
                    let strata = create_interaction_strata(subjects, var1, var2);
                    let mut si: usize = 0;
                    while si < strata.len()
                        invariant
                            forall|i: int|
                                0 <= i < subjects@.len() ==> subject_wf(#[trigger] subjects@[i]),
                            config_wf(*config),
                            subjects@.len() <= MAX_SUBJECTS as int,
                            config.stratification == Some(*strat_config),
                            columns == strat_config.stratify_columns@,
                            min_n == strat_config.minimum_n_per_stratum as int,
                            forall|k: int|
                                0 <= k < strata@.len() ==> stratum_indices_ok(
                                    (#[trigger] strata@[k]).1@,
                                    subjects@.len() as int,
                                ) && strata@[k].1@.len() <= MAX_SUBJECTS as int,
                            forall|k: int|
                                0 <= k < out@.len() ==> (#[trigger] out@[k]).1.n_subjects
                                    >= min_n_of(*config),
                            forall|k: int|
                                0 <= k < out@.len() && !is_interaction_key(
                                    (#[trigger] out@[k]).0@,
                                ) ==> single_entry_ok(
                                    out@[k].0@,
                                    out@[k].1,
                                    subjects@,
                                    columns,
                                    min_n,
                                    *config,
                                ),
                            col_rep.len() == columns.len(),
                            forall|v2: int|
                                0 <= v2 < columns.len() ==> (#[trigger] col_rep[v2]).len()
                                    == subjects@.len(),
                            forall|v2: int, j: int|
                                0 <= v2 < columns.len() && 0 <= j < subjects@.len()
                                    && stratum_value_spec(
                                    #[trigger] subjects@[j],
                                    (#[trigger] columns[v2])@,
                                ) is Some && stratum_count(
                                    subjects@,
                                    columns[v2]@,
                                    stratum_value_spec(subjects@[j], columns[v2]@)->0,
                                    subjects@.len() as int,
                                ) >= min_n ==> {
                                    let e = col_rep[v2][j];
                                    &&& 0 <= e < out@.len()
                                    &&& out@[e].1.stratum_name@ == columns[v2]@
                                    &&& out@[e].1.stratum_value@ == stratum_value_spec(
                                        subjects@[j],
                                        columns[v2]@,
                                    )->0
                                },
                        decreases strata@.len() - si,
                    {
                        if strata[si].1.len() >= strat_config.minimum_n_per_stratum {
                            let joined = var1.clone().concat("_").concat(var2.as_str());
                            let key = "interaction_".to_owned().concat(joined.as_str()).concat(
                                "_",
                            ).concat(strata[si].0.as_str());
                            let sr = analyze_stratum(
                                subjects,
                                &strata[si].1,
                                config,
                                &joined,
                                &strata[si].0,
                            );
                            proof {
                                reveal_strlit("interaction_");
                                assert("interaction_"@.len() == 12);
                                assert(key@.subrange(0, 12) =~= "interaction_"@);
                                assert(is_interaction_key(key@));
                            }
                            out.push((key, sr));
                        }
                        si = si + 1;
                    }
                    b = b + 1;
                }
                a = a + 1;
            }
        }
        proof {
            assert forall|vi2: int, j: int|
                0 <= vi2 < columns.len() && 0 <= j < subjects@.len() && stratum_value_spec(
                    #[trigger] subjects@[j],
                    (#[trigger] columns[vi2])@,
                ) is Some && stratum_count(
                    subjects@,
                    columns[vi2]@,
                    stratum_value_spec(subjects@[j], columns[vi2]@)->0,
                    subjects@.len() as int,
                ) >= min_n implies stratum_reported(
                out@,
                columns[vi2]@,
                stratum_value_spec(subjects@[j], columns[vi2]@)->0,
            ) by {
                let e = col_rep[vi2][j];
                assert(0 <= e < out@.len() && out@[e].1.stratum_name@ == columns[vi2]@
                    && out@[e].1.stratum_value@ == stratum_value_spec(
                    subjects@[j],
                    columns[vi2]@,
                )->0);
            }
        }
        out
    }

    /// Pairwise statistical comparison between all strata for one parameter.
    pub fn compare_strata(
        strata_results: &Vec<(String, StratifiedResults)>,
        parameter: &ParamKind,
    ) -> (r: Result<StrataComparison, NcaError>)
        requires
            forall|k: int|
                0 <= k < strata_results@.len() ==> (#[trigger] strata_results@[k]).1.individual_results@.len()
                    <= MAX_SUBJECTS as int,
        ensures
            match r {
                Ok(sc) => {
                    &&& sc.parameter@ == crate::models::param_key_spec(*parameter)
                    &&& 2 * sc.pairwise_comparisons@.len() == strata_results@.len() * (
                    strata_results@.len() - 1)
                    &&& forall|k: int|
                        0 <= k < sc.pairwise_comparisons@.len() ==> comparison_ok(
                            #[trigger] sc.pairwise_comparisons@[k],
                        )
                },
                Err(_) => false,
            },
    {
        let ghost n: int = strata_results@.len() as int;
        let mut comparisons: Vec<PairwiseComparison> = Vec::new();
        let mut i: usize = 0;
        while i < strata_results.len()
            invariant
                0 <= i <= strata_results@.len(),
                n == strata_results@.len() as int,
                forall|k: int|
                    0 <= k < strata_results@.len() ==> (#[trigger] strata_results@[k]).1.individual_results@.len()
                        <= MAX_SUBJECTS as int,
                2 * comparisons@.len() == i * (2 * n - i - 1),
                forall|k: int|
                    0 <= k < comparisons@.len() ==> comparison_ok(#[trigger] comparisons@[k]),
            decreases strata_results@.len() - i,
        {
            let mut j: usize = i + 1;
            while j < strata_results.len()
                invariant
                    0 <= i < j,
                    j <= strata_results@.len(),
                    i < strata_results@.len(),
                    n == strata_results@.len() as int,
                    forall|k: int|
                        0 <= k < strata_results@.len() ==> (#[trigger] strata_results@[k]).1.individual_results@.len()
                            <= MAX_SUBJECTS as int,
                    2 * comparisons@.len() == i * (2 * n - i - 1) + 2 * (j - i - 1),
                    forall|k: int|
                        0 <= k < comparisons@.len() ==> comparison_ok(#[trigger] comparisons@[k]),
                decreases strata_results@.len() - j,
            {
                let c = perform_statistical_test(
                    &strata_results[i].1,
                    &strata_results[j].1,
                    parameter,
                );
                comparisons.push(c);
                j = j + 1;
            }
            proof {
                assert((i as int) * (2 * n - i - 1) + 2 * (n - i - 1) == (i as int + 1) * (2 * n
                    - i - 2)) by (nonlinear_arith);
            }
            i = i + 1;
        }
        proof {
            assert((n) * (2 * n - n - 1) == n * (n - 1)) by (nonlinear_arith);
        }
        Ok(
            StrataComparison {
                parameter: param_key(parameter),
                pairwise_comparisons: comparisons,
            },
        )
    }
}

/// All indices of a stratum point into the subject list.
pub open spec fn stratum_indices_ok(idxs: Seq<usize>, n: int) -> bool {
    forall|i: int| 0 <= i < idxs.len() ==> (#[trigger] idxs[i]) < n
}

/// Re-run the aggregation over one stratum's subjects.
fn analyze_stratum(
    subjects: &Vec<Subject>,
    indices: &Vec<usize>,
    config: &AnalysisConfig,
    variable: &String,
    value: &String,
) -> (r: StratifiedResults)
    requires
        forall|i: int| 0 <= i < subjects@.len() ==> subject_wf(#[trigger] subjects@[i]),
        config_wf(*config),
        subjects@.len() <= MAX_SUBJECTS as int,
        stratum_indices_ok(indices@, subjects@.len() as int),
        indices@.len() <= MAX_SUBJECTS as int,
    ensures
        r.n_subjects == indices@.len(),
        r.stratum_name@ == variable@,
        r.stratum_value@ == value@,
        exists|outs: Seq<crate::population::SubjectOutcome>, fl: Seq<
            crate::models::FailedSubjectAnalysis,
        >|
            #![trigger crate::population::outcome_partition(
                outs,
                subjects@,
                indices@,
                *config,
                r.individual_results@,
                fl,
            )]
            crate::population::outcome_partition(
                outs,
                subjects@,
                indices@,
                *config,
                r.individual_results@,
                fl,
            ),
{
    let (individual_results, failed, summary_statistics, method_comparison) =
        PopulationAnalyzer::analyze_selected(subjects, indices, config);
    let out = StratifiedResults {
        stratum_name: variable.clone(),
        stratum_value: value.clone(),
        n_subjects: indices.len(),
        individual_results,
        summary_statistics,
        method_comparison,
    };
    proof {
        let outs = choose|outs: Seq<crate::population::SubjectOutcome>|
            #![trigger crate::population::analyzed_of(outs)]
            crate::population::outcome_partition(
                outs,
                subjects@,
                indices@,
                *config,
                out.individual_results@,
                failed@,
            );
        assert(crate::population::outcome_partition(
            outs,
            subjects@,
            indices@,
            *config,
            out.individual_results@,
            failed@,
        ));
    }
    out
}

/// Group subject indices by the resolved value of one variable. Subjects
/// without a value for it are left out. The groups are exactly the
/// resolved equivalence classes: distinct keys, ascending member lists,
/// and the returned ghost map sends each resolved subject to its group.
fn create_strata(subjects: &Vec<Subject>, variable: &String) -> (r: (
    Vec<(String, Vec<usize>)>,
    Ghost<Seq<int>>,
))
    requires
        forall|i: int| 0 <= i < subjects@.len() ==> subject_wf(#[trigger] subjects@[i]),
        subjects@.len() <= MAX_SUBJECTS as int,
    ensures
        forall|k: int|
            0 <= k < r.0@.len() ==> stratum_indices_ok(
                (#[trigger] r.0@[k]).1@,
                subjects@.len() as int,
            ) && r.0@[k].1@.len() <= MAX_SUBJECTS as int,
        forall|g: int|
            0 <= g < r.0@.len() ==> (#[trigger] r.0@[g]).1@.len() > 0 && group_exact(
                r.0@[g].1@,
                subjects@,
                variable@,
                r.0@[g].0@,
            ),
        forall|g1: int, g2: int|
            0 <= g1 < g2 < r.0@.len() ==> (#[trigger] r.0@[g1]).0@ != (#[trigger] r.0@[g2]).0@,
        r.1@.len() == subjects@.len(),
        forall|j: int|
            0 <= j < subjects@.len() ==> (stratum_value_spec(
                #[trigger] subjects@[j],
                variable@,
            ) is Some <==> 0 <= r.1@[j] < r.0@.len()),
        forall|j: int|
            0 <= j < subjects@.len() && stratum_value_spec(#[trigger] subjects@[j], variable@)
                is Some ==> r.0@[r.1@[j]].0@ == stratum_value_spec(subjects@[j], variable@)->0,
{
    let mut groups: Vec<(String, Vec<usize>)> = Vec::new();
    let ghost mut grp_of: Seq<int> = Seq::empty();
    let mut i: usize = 0;
    while i < subjects.len()
        invariant
            0 <= i <= subjects@.len(),
            subjects@.len() <= MAX_SUBJECTS as int,
            forall|i2: int| 0 <= i2 < subjects@.len() ==> subject_wf(#[trigger] subjects@[i2]),
            forall|k: int|
                0 <= k < groups@.len() ==> stratum_indices_ok(
                    (#[trigger] groups@[k]).1@,
                    subjects@.len() as int,
                ) && groups@[k].1@.len() <= i,
            forall|g: int|
                0 <= g < groups@.len() ==> (#[trigger] groups@[g]).1@.len() > 0,
            forall|g: int, m: int|
                0 <= g < groups@.len() && 0 <= m < (#[trigger] groups@[g]).1@.len() ==> ((
                #[trigger] groups@[g].1@[m]) as int) < i && stratum_value_spec(
                    subjects@[groups@[g].1@[m] as int],
                    variable@,
                ) == Some(groups@[g].0@),
            forall|g: int, m1: int, m2: int|
                0 <= g < groups@.len() && 0 <= m1 < m2 < (#[trigger] groups@[g]).1@.len()
                    ==> #[trigger] groups@[g].1@[m1] < #[trigger] groups@[g].1@[m2],
            forall|g1: int, g2: int|
                0 <= g1 < g2 < groups@.len() ==> (#[trigger] groups@[g1]).0@ != (
                #[trigger] groups@[g2]).0@,
            grp_of.len() == i,
            forall|j: int|
                0 <= j < i && stratum_value_spec(#[trigger] subjects@[j], variable@) is Some ==> 0
                    <= grp_of[j] < groups@.len(),
            forall|j: int|
                0 <= j < i && stratum_value_spec(#[trigger] subjects@[j], variable@) is None
                    ==> grp_of[j] == -1,
            forall|j: int|
                0 <= j < i && stratum_value_spec(#[trigger] subjects@[j], variable@) is Some ==> {
                    &&& groups@[grp_of[j]].0@ == stratum_value_spec(subjects@[j], variable@)->0
                    &&& groups@[grp_of[j]].1@.contains(j as usize)
                },
        decreases subjects@.len() - i,
    {
        match get_stratum_value(&subjects[i], variable) {
            Some(value) => {
                let ghost pre = groups@;
                let g = push_into_group(&mut groups, value, i, Ghost(subjects@.len() as int));
                proof {
                    grp_of = grp_of.push(g@);
                    assert(groups@[g@].1@.contains(i as usize)) by {
                        let last = groups@[g@].1@.len() - 1;
                        assert(groups@[g@].1@[last] == i);
                    }
                    assert forall|j: int|
                        0 <= j < i && stratum_value_spec(#[trigger] subjects@[j], variable@)
                            is Some implies {
                        &&& groups@[grp_of[j]].0@ == stratum_value_spec(
                            subjects@[j],
                            variable@,
                        )->0
                        &&& groups@[grp_of[j]].1@.contains(j as usize)
                    } by {
                        let gj = grp_of[j];
                        assert(pre[gj].1@.contains(j as usize));
                        if gj == g@ {
                            lemma_contains_push(pre[gj].1@, i as usize, j as usize);
                        } else {
                            assert(groups@[gj] == pre[gj]);
                        }
                    }
                }
            },
            None => {
                proof {
                    grp_of = grp_of.push(-1);
                }
            },
        }
        i = i + 1;
    }
    proof {
        assert forall|g: int|
            0 <= g < groups@.len() implies (#[trigger] groups@[g]).1@.len() > 0 && group_exact(
            groups@[g].1@,
            subjects@,
            variable@,
            groups@[g].0@,
        ) by {
            assert forall|j: int|
                0 <= j < subjects@.len() && stratum_value_spec(#[trigger] subjects@[j], variable@)
                    == Some(groups@[g].0@) implies groups@[g].1@.contains(j as usize) by {
                let gj = grp_of[j];
                assert(0 <= gj < groups@.len());
                assert(groups@[gj].0@ == groups@[g].0@);
                assert(gj == g) by {
                    if gj < g {
                        assert(groups@[gj].0@ != groups@[g].0@);
                    }
                    if g < gj {
                        assert(groups@[g].0@ != groups@[gj].0@);
                    }
                }
            }
        }
    }
    (groups, Ghost(grp_of))
}

/// Containment survives a push.
proof fn lemma_contains_push(s: Seq<usize>, x: usize, y: usize)
    requires
        s.contains(y),
    ensures
        s.push(x).contains(y),
{
    let p = choose|p: int| 0 <= p < s.len() && s[p] == y;
    assert(s.push(x)[p] == y);
}

/// Group subject indices by the joint value of two variables./// Group subject indices by the joint value of two variables.
fn create_interaction_strata(subjects: &Vec<Subject>, var1: &String, var2: &String) -> (r: Vec<
    (String, Vec<usize>),
>)
    requires
        forall|i: int| 0 <= i < subjects@.len() ==> subject_wf(#[trigger] subjects@[i]),
        subjects@.len() <= MAX_SUBJECTS as int,
    ensures
        forall|k: int|
            0 <= k < r@.len() ==> stratum_indices_ok((#[trigger] r@[k]).1@, subjects@.len() as int)
                && r@[k].1@.len() <= MAX_SUBJECTS as int,
{
    let mut groups: Vec<(String, Vec<usize>)> = Vec::new();
    let mut i: usize = 0;
    while i < subjects.len()
        invariant
            0 <= i <= subjects@.len(),
            subjects@.len() <= MAX_SUBJECTS as int,
            forall|i2: int| 0 <= i2 < subjects@.len() ==> subject_wf(#[trigger] subjects@[i2]),
            forall|k: int|
                0 <= k < groups@.len() ==> stratum_indices_ok(
                    (#[trigger] groups@[k]).1@,
                    subjects@.len() as int,
                ) && groups@[k].1@.len() <= i,
        decreases subjects@.len() - i,
    {
        let v1 = get_stratum_value(&subjects[i], var1);
        let v2 = get_stratum_value(&subjects[i], var2);
        match (v1, v2) {
            (Some(a), Some(b)) => {
                let joint = a.concat("-").concat(b.as_str());
                let _g = push_into_group(&mut groups, joint, i, Ghost(subjects@.len() as int));
            },
            _ => {},
        }
        i = i + 1;
    }
    groups
}

/// Append index i to the group keyed by `value`, creating it if absent.
pub fn push_into_group(
    groups: &mut Vec<(String, Vec<usize>)>,
    value: String,
    i: usize,
    Ghost(n): Ghost<int>,
) -> (g: Ghost<int>)
    requires
        forall|k: int|
            0 <= k < old(groups)@.len() ==> stratum_indices_ok((#[trigger] old(groups)@[k]).1@, n)
                && old(groups)@[k].1@.len() <= i,
        i < n,
    ensures
        forall|k: int|
            0 <= k < final(groups)@.len() ==> stratum_indices_ok(
                (#[trigger] final(groups)@[k]).1@,
                n,
            ) && final(groups)@[k].1@.len() <= i + 1,
        0 <= g@ <= old(groups)@.len(),
        g@ < final(groups)@.len(),
        final(groups)@[g@].0@ == value@,
        g@ < old(groups)@.len() ==> {
            &&& final(groups)@.len() == old(groups)@.len()
            &&& final(groups)@[g@].0 == old(groups)@[g@].0
            &&& old(groups)@[g@].0@ == value@
            &&& final(groups)@[g@].1@ == old(groups)@[g@].1@.push(i)
            &&& forall|k: int|
                0 <= k < old(groups)@.len() && k != g@ ==> #[trigger] final(groups)@[k]
                    == old(groups)@[k]
        },
        g@ == old(groups)@.len() ==> {
            &&& final(groups)@.len() == old(groups)@.len() + 1
            &&& final(groups)@[g@].1@ == seq![i]
            &&& forall|k: int|
                0 <= k < old(groups)@.len() ==> #[trigger] final(groups)@[k] == old(groups)@[k]
            &&& forall|k: int|
                0 <= k < old(groups)@.len() ==> (#[trigger] old(groups)@[k]).0@ != value@
        },
{
    let mut g: usize = 0;
    let mut found: Option<usize> = None;
    while g < groups.len()
        invariant
            0 <= g <= groups@.len(),
            found is None ==> forall|k: int| 0 <= k < g ==> (#[trigger] groups@[k]).0@ != value@,
            found is Some ==> found->0 < groups@.len() && groups@[found->0 as int].0@ == value@,
        decreases groups@.len() - g,
    {
        if found.is_none() && groups[g].0 == value {
            found = Some(g);
        }
        g = g + 1;
    }
    match found {
        Some(gi) => {
            let ghost pre = groups@;
            let mut entry = groups.remove(gi);
            entry.1.push(i);
            groups.insert(gi, entry);
            proof {
                assert(groups@ =~= pre.update(
                    gi as int,
                    (pre[gi as int].0, groups@[gi as int].1),
                ));
                assert(groups@[gi as int].1@ == pre[gi as int].1@.push(i));
                assert forall|k: int|
                    0 <= k < pre.len() && k != gi as int implies #[trigger] groups@[k]
                    == pre[k] by {}
            }
            Ghost(gi as int)
        },
        None => {
            let mut fresh: Vec<usize> = Vec::new();
            fresh.push(i);
            let ghost pre = groups@;
            groups.push((value, fresh));
            proof {
                assert(groups@[pre.len() as int].1@ =~= seq![i]);
            }
            Ghost(pre.len() as int)
        },
    }
}

/// The resolved stratification value of one subject for a variable,
/// exactly `stratum_value_spec`; variable names match ASCII
/// case-insensitively.
fn get_stratum_value(subject: &Subject, variable: &String) -> (r: Option<String>)
    requires
        subject_wf(*subject),
    ensures
        opt_text(r) == stratum_value_spec(*subject, variable@),
{
    let d = &subject.demographics;
    let v = variable.as_str();
    if crate::parser::eq_ci(v, "SEX") {
        clone_opt_string(&d.sex)
    } else if crate::parser::eq_ci(v, "RACE") {
        clone_opt_string(&d.race)
    } else if crate::parser::eq_ci(v, "TREATMENT") || crate::parser::eq_ci(v, "TRT") {
        clone_opt_string(&d.treatment)
    } else if crate::parser::eq_ci(v, "PERIOD") {
        match d.period {
            Some(p) => Some(int_to_string(p)),
            None => None,
        }
    } else if crate::parser::eq_ci(v, "SEQUENCE") || crate::parser::eq_ci(v, "SEQ") {
        clone_opt_string(&d.sequence)
    } else if crate::parser::eq_ci(v, "FORMULATION") || crate::parser::eq_ci(v, "FORM") {
        clone_opt_string(&d.formulation)
    } else if crate::parser::eq_ci(v, "AGE_GROUP") {
        match d.age {
            Some(a) => {
                if a < 18 * SCALE {
                    Some("Pediatric".to_owned())
                } else if a < 65 * SCALE {
                    Some("Adult".to_owned())
                } else {
                    Some("Elderly".to_owned())
                }
            },
            None => None,
        }
    } else if crate::parser::eq_ci(v, "WEIGHT_GROUP") {
        match d.weight {
            Some(w) => {
                if w < 60 * SCALE {
                    Some("Low".to_owned())
                } else if w < 90 * SCALE {
                    Some("Normal".to_owned())
                } else {
                    Some("High".to_owned())
                }
            },
            None => None,
        }
    } else if crate::parser::eq_ci(v, "DOSE_GROUP") {
        let mut total: i128 = 0;
        let mut k: usize = 0;
        proof {
            assert(subject.dosing_events@.take(0) =~= Seq::<crate::models::DosingEvent>::empty());
        }
        while k < subject.dosing_events.len()
            invariant
                subject_wf(*subject),
                0 <= k <= subject.dosing_events@.len(),
                0 <= total <= (k as int) * (crate::models::MAX_CONC as int),
                total == crate::nca::total_dose_spec(subject.dosing_events@.take(k as int)),
            decreases subject.dosing_events@.len() - k,
        {
            proof {
                assert(subject.dosing_events@.take(k as int + 1).drop_last()
                    =~= subject.dosing_events@.take(k as int));
                assert((k as int) * (crate::models::MAX_CONC as int)
                    + crate::models::MAX_CONC as int == (k as int + 1) * (
                crate::models::MAX_CONC as int)) by (nonlinear_arith);
                assert((k as int + 1) * (crate::models::MAX_CONC as int) <= (
                crate::models::MAX_OBS as int) * (crate::models::MAX_CONC as int))
                    by (nonlinear_arith)
                    requires
                        k as int + 1 <= crate::models::MAX_OBS as int,
                ;
            }
            total = total + subject.dosing_events[k].dose;
            k = k + 1;
        }
        proof {
            assert(subject.dosing_events@.take(subject.dosing_events@.len() as int)
                =~= subject.dosing_events@);
        }
        if total > 0 {
            if total < 100 * SCALE {
                Some("Low".to_owned())
            } else if total < 500 * SCALE {
                Some("Medium".to_owned())
            } else {
                Some("High".to_owned())
            }
        } else {
            None
        }
    } else {
        None
    }
}

/// Clone an optional String.
fn clone_opt_string(s: &Option<String>) -> (r: Option<String>)
    ensures
        r is Some <==> s is Some,
        r is Some ==> r->0@ == s->0@,
{
    match s {
        Some(v) => Some(v.clone()),
        None => None,
    }
}

/// The decimal text of a non-negative number.
pub open spec fn dec_spec(n: int) -> Seq<char>
    decreases n,
{
    if n < 0 {
        Seq::empty()
    } else if n < 10 {
        digit_spec(n)
    } else {
        dec_spec(n / 10) + digit_spec(n % 10)
    }
}

/// One decimal digit's text.
pub open spec fn digit_spec(d: int) -> Seq<char> {
    if d == 0 {
        "0"@
    } else if d == 1 {
        "1"@
    } else if d == 2 {
        "2"@
    } else if d == 3 {
        "3"@
    } else if d == 4 {
        "4"@
    } else if d == 5 {
        "5"@
    } else if d == 6 {
        "6"@
    } else if d == 7 {
        "7"@
    } else if d == 8 {
        "8"@
    } else {
        "9"@
    }
}

/// Decimal rendering of an i32 (with a leading minus sign when negative):
/// exactly `int_text`.
pub fn int_to_string(n: i32) -> (r: String)
    ensures
        r@ == int_text(n as int),
{
    if n >= 0 {
        uint_to_string(n as u32)
    } else {
        let mag: u32 = if n == i32::MIN {
            2147483648u32
        } else {
            (-n) as u32
        };
        proof {
            assert(mag as int == -(n as int));
        }
        let mut s = "-".to_owned();
        s.append(uint_to_string(mag).as_str());
        s
    }
}

/// Decimal rendering of a u32, matching `dec_spec`.
pub fn uint_to_string(n: u32) -> (r: String)
    ensures
        r@ == dec_spec(n as int),
    decreases n,
{
    if n < 10 {
        digit_str(n)
    } else {
        proof {
            vstd::arithmetic::div_mod::lemma_div_pos_is_pos(n as int, 10);
        }
        let mut head = uint_to_string(n / 10);
        let tail = digit_str(n % 10);
        head.append(tail.as_str());
        head
    }
}

/// One digit as text.
fn digit_str(d: u32) -> (r: String)
    requires
        d < 10,
    ensures
        r@ == digit_spec(d as int),
{
    if d == 0 {
        "0".to_owned()
    } else if d == 1 {
        "1".to_owned()
    } else if d == 2 {
        "2".to_owned()
    } else if d == 3 {
        "3".to_owned()
    } else if d == 4 {
        "4".to_owned()
    } else if d == 5 {
        "5".to_owned()
    } else if d == 6 {
        "6".to_owned()
    } else if d == 7 {
        "7".to_owned()
    } else if d == 8 {
        "8".to_owned()
    } else {
        "9".to_owned()
    }
}

/// Welch's unequal-variance t statistic and its approximate p-value: the
/// statistic is exactly `welch_t_spec`; the p-value is the approximate
/// t-distribution tail, within [0, 1].
fn welch_t_test(values1: &Vec<i128>, values2: &Vec<i128>) -> (r: (i128, i128))
    requires
        values1@.len() <= MAX_SUBJECTS as int,
        values2@.len() <= MAX_SUBJECTS as int,
        forall|i: int| 0 <= i < values1@.len() ==> in_range(#[trigger] values1@[i] as int),
        forall|i: int| 0 <= i < values2@.len() ==> in_range(#[trigger] values2@[i] as int),
    ensures
        in_range(r.0 as int),
        0 <= r.1 <= SCALE as int,
        r.0 == welch_t_spec(values1@, values2@),
        (values1@.len() < 2 || values2@.len() < 2) ==> r.1 == SCALE,
{
    let n1 = values1.len();
    let n2 = values2.len();
    if n1 < 2 || n2 < 2 {
        return (0, SCALE);
    }
    let m1 = mean_of(values1);
    let m2 = mean_of(values2);
    let var1 = sample_variance(values1);
    let var2 = sample_variance(values2);
    proof {
        lemma_tdiv_bounds(var1 as int, n1 as int);
        lemma_tdiv_bounds(var2 as int, n2 as int);
    }
    let d1 = div_trunc(var1, n1 as i128);
    let d2 = div_trunc(var2, n2 as i128);
    let se2 = clamp_range(d1 + d2);
    proof {
        assert(0 <= se2 * SCALE <= (VAL_LIMIT as int) * (SCALE as int)) by (nonlinear_arith)
            requires
                0 <= se2 <= VAL_LIMIT,
        ;
    }
    let se = isqrt(se2 * SCALE);
    let t_stat = if se > 0 {
        proof {
            assert(-2 * (VAL_LIMIT as int) * (SCALE as int) <= (m1 - m2) * SCALE as int <= 2 * (
            VAL_LIMIT as int) * (SCALE as int)) by (nonlinear_arith)
                requires
                    in_range(m1 as int),
                    in_range(m2 as int),
            ;
            lemma_tdiv_bounds(((m1 - m2) * SCALE) as int, se as int);
        }
        clamp_range(div_trunc((m1 - m2) * SCALE, se))
    } else {
        0
    };
    let df = if var1 > 0 && var2 > 0 {
        let s = clamp_range(d1 + d2);
        let num = match crate::fixed::mul_val(s, s) {
            Some(v) => v,
            None => VAL_LIMIT,
        };
        let t1 = match crate::fixed::mul_val(d1, d1) {
            Some(v) => v,
            None => VAL_LIMIT,
        };
        let t2 = match crate::fixed::mul_val(d2, d2) {
            Some(v) => v,
            None => VAL_LIMIT,
        };
        proof {
            lemma_tdiv_bounds(t1 as int, (n1 - 1) as int);
            lemma_tdiv_bounds(-(t1 as int), (n1 - 1) as int);
            lemma_tdiv_bounds(t2 as int, (n2 - 1) as int);
            lemma_tdiv_bounds(-(t2 as int), (n2 - 1) as int);
        }
        let den = clamp_range(div_trunc(t1, (n1 - 1) as i128) + div_trunc(t2, (n2 - 1) as i128));
        if den >= 1 {
            match crate::fixed::div_val(num, den) {
                Some(v) => v,
                None => VAL_LIMIT,
            }
        } else {
            clamp_range(((n1 + n2) as i128 - 2) * SCALE)
        }
    } else {
        clamp_range(((n1 + n2) as i128 - 2) * SCALE)
    };
    let t_abs = if t_stat < 0 {
        -t_stat
    } else {
        t_stat
    };
    let p = crate::approx::two_tailed_p(t_abs, df);
    (t_stat, p)
}

/// Pooled standard deviation for the effect size: exactly
/// `pooled_std_spec`.
fn calculate_pooled_std(values1: &Vec<i128>, values2: &Vec<i128>) -> (r: i128)
    requires
        values1@.len() <= MAX_SUBJECTS as int,
        values2@.len() <= MAX_SUBJECTS as int,
        forall|i: int| 0 <= i < values1@.len() ==> in_range(#[trigger] values1@[i] as int),
        forall|i: int| 0 <= i < values2@.len() ==> in_range(#[trigger] values2@[i] as int),
    ensures
        0 <= r,
        in_range(r as int),
        r == pooled_std_spec(values1@, values2@),
{
    let n1 = values1.len();
    let n2 = values2.len();
    if n1 < 2 || n2 < 2 {
        return 0;
    }
    let var1 = sample_variance(values1);
    let var2 = sample_variance(values2);
    let w1 = match crate::fixed::mul_val((n1 as i128 - 1) * SCALE, var1) {
        Some(v) => v,
        None => VAL_LIMIT,
    };
    let w2 = match crate::fixed::mul_val((n2 as i128 - 1) * SCALE, var2) {
        Some(v) => v,
        None => VAL_LIMIT,
    };
    proof {
        lemma_tdiv_bounds((w1 + w2) as int, (n1 + n2 - 2) as int);
        lemma_tdiv_bounds(-((w1 + w2) as int), (n1 + n2 - 2) as int);
    }
    let pooled_var = clamp_range(div_trunc(w1 + w2, (n1 + n2 - 2) as i128));
    let pv = if pooled_var < 0 {
        0
    } else {
        pooled_var
    };
    proof {
        assert(0 <= pv * SCALE <= (VAL_LIMIT as int) * (SCALE as int)) by (nonlinear_arith)
            requires
                0 <= pv <= VAL_LIMIT,
        ;
    }
    let root = isqrt(pv * SCALE);
    clamp_range(root)
}

/// Welch's test between two strata for one parameter, with Cohen's d: the
/// group sizes and means are those of the extracted parameter values; the
/// t statistic, approximate p-value and effect size stay in their ranges.
fn perform_statistical_test(
    stratum1: &StratifiedResults,
    stratum2: &StratifiedResults,
    parameter: &ParamKind,
) -> (r: PairwiseComparison)
    requires
        stratum1.individual_results@.len() <= MAX_SUBJECTS as int,
        stratum2.individual_results@.len() <= MAX_SUBJECTS as int,
    ensures
        ({
            let v1 = crate::population::extracted_values(stratum1.individual_results@, *parameter);
            let v2 = crate::population::extracted_values(stratum2.individual_results@, *parameter);
            &&& comparison_ok(r)
            &&& r.n1 == v1.len()
            &&& r.n2 == v2.len()
            &&& ((v1.len() == 0 || v2.len() == 0) <==> r.test_type@ == "insufficient_data"@)
            &&& ((v1.len() == 0 || v2.len() == 0) ==> r.p_value == SCALE && r.test_statistic == 0
                && !r.significant && r.mean1 == 0 && r.mean2 == 0 && r.effect_size == 0)
            &&& ((v1.len() > 0 && v2.len() > 0) ==> {
                &&& r.test_type@ == "welch_t_test"@
                &&& r.mean1 == crate::fixed::clamp_spec(crate::stats::mean_spec(v1))
                &&& r.mean2 == crate::fixed::clamp_spec(crate::stats::mean_spec(v2))
                &&& r.test_statistic == welch_t_spec(v1, v2)
                &&& r.effect_size == effect_size_spec(v1, v2)
                &&& ((v1.len() < 2 || v2.len() < 2) ==> r.p_value == SCALE)
            })
            &&& r.stratum1_name@ == stratum1.stratum_value@
            &&& r.stratum2_name@ == stratum2.stratum_value@
        }),
{
    let values1 = crate::population::extract_parameter_values(
        &stratum1.individual_results,
        parameter,
    );
    let values2 = crate::population::extract_parameter_values(
        &stratum2.individual_results,
        parameter,
    );
    if values1.len() == 0 || values2.len() == 0 {
        return PairwiseComparison {
            stratum1_name: stratum1.stratum_value.clone(),
            stratum2_name: stratum2.stratum_value.clone(),
            n1: values1.len(),
            n2: values2.len(),
            mean1: 0,
            mean2: 0,
            p_value: SCALE,
            test_statistic: 0,
            test_type: "insufficient_data".to_owned(),
            significant: false,
            effect_size: 0,
        };
    }
    let mean1 = mean_of(&values1);
    let mean2 = mean_of(&values2);
    let (t_stat, p_value) = welch_t_test(&values1, &values2);
    proof {
        reveal_strlit("insufficient_data");
        reveal_strlit("welch_t_test");
    }
    let ghost v1g = crate::population::extracted_values(stratum1.individual_results@, *parameter);
    let ghost v2g = crate::population::extracted_values(stratum2.individual_results@, *parameter);
    let pooled_std = calculate_pooled_std(&values1, &values2);
    proof {
        assert(values1@ == v1g && values2@ == v2g);
        assert(t_stat == welch_t_spec(v1g, v2g));
        assert((v1g.len() < 2 || v2g.len() < 2) ==> p_value == SCALE);
        assert(pooled_std == pooled_std_spec(v1g, v2g));
        assert(mean1 == crate::fixed::clamp_spec(crate::stats::mean_spec(v1g)));
        assert(mean2 == crate::fixed::clamp_spec(crate::stats::mean_spec(v2g)));
        reveal_strlit("insufficient_data");
        reveal_strlit("welch_t_test");
        assert("welch_t_test"@.len() == 12);
        assert("insufficient_data"@.len() == 17);
        assert("welch_t_test"@ != "insufficient_data"@);
    }
    let effect_size = if pooled_std > 0 {
        let diff = if mean1 >= mean2 {
            mean1 - mean2
        } else {
            mean2 - mean1
        };
        proof {
            assert(0 <= diff * SCALE <= 2 * (VAL_LIMIT as int) * (SCALE as int))
                by (nonlinear_arith)
                requires
                    0 <= diff,
                    diff <= 2 * VAL_LIMIT,
            ;
            lemma_tdiv_bounds((diff * SCALE) as int, pooled_std as int);
        }
        clamp_range(div_trunc(diff * SCALE, pooled_std))
    } else {
        0
    };
    PairwiseComparison {
        stratum1_name: stratum1.stratum_value.clone(),
        stratum2_name: stratum2.stratum_value.clone(),
        n1: values1.len(),
        n2: values2.len(),
        mean1,
        mean2,
        p_value,
        test_statistic: t_stat,
        test_type: "welch_t_test".to_owned(),
        significant: p_value < 50_000,
        effect_size,
    }
}

} // verus!
