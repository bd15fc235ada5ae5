//! Terminal-phase (lambda_z) selection and regression, and the simple
//! derived parameters: Cmax/Tmax, Tlast/Clast, half-life, clearance,
//! volumes, mean residence time and extrapolation percentage.

use vstd::prelude::*;
use crate::errors::NcaError;
use crate::fixed::{clamp_spec, clamp_range, div_trunc, div_trunc_any, in_range, lemma_tdiv_bounds, tdiv, tdiv_any, VAL_LIMIT};
use crate::math::{ln_fixed, ln_fixed_spec, LN2_FIXED, LN_ABS_BOUND};
use crate::models::{obs_in_range, LambdaZSelection, Observation, MAX_OBS, MAX_TIME};
use crate::regression::{reg_dxx, reg_dyy, reg_num, reg_r2, reg_slope, sum_x, sum_xx, sum_xy, sum_y, sum_yy, R2_REDUCE};
use crate::SCALE;

verus! {

/// The auto-selection acceptance threshold on R-squared: 0.8.
pub const R2_AUTO_THRESHOLD: i128 = 800_000;

/// The regression points a set of indices selects: in-bounds indices with a
/// positive concentration contribute (time, ln concentration).
pub open spec fn reg_points(obs: Seq<Observation>, idxs: Seq<usize>) -> Seq<(int, int)>
    decreases idxs.len(),
{
    if idxs.len() == 0 {
        Seq::empty()
    } else {
        reg_points(obs, idxs.drop_last()) + {
            let i = idxs.last() as int;
            if 0 <= i < obs.len() && obs[i].concentration > 0 {
                seq![(obs[i].time as int, ln_fixed_spec(obs[i].concentration as int))]
            } else {
                Seq::empty()
            }
        }
    }
}

/// The consecutive index window [start, end).
pub open spec fn idx_window(start: int, end: int) -> Seq<usize> {
    Seq::new((end - start) as nat, |i: int| (start + i) as usize)
}

/// A window's fit succeeds when it has two points and a spread time axis.
pub open spec fn fit_ok(pts: Seq<(int, int)>) -> bool {
    pts.len() >= 2 && reg_dxx(pts) >= 1
}

/// The lambda the fit reports: the negated slope, clamped into range.
pub open spec fn fit_lambda(pts: Seq<(int, int)>) -> int {
    clamp_spec(-reg_slope(pts))
}

/// The window [s, e) qualifies for selection: its fit succeeds and its
/// goodness of fit reaches the threshold and beats the initial zero.
pub open spec fn window_qualifies(obs: Seq<Observation>, s: int, e: int, thr: int) -> bool {
    let pts = reg_points(obs, idx_window(s, e));
    &&& fit_ok(pts)
    &&& reg_r2(pts) >= thr
    &&& reg_r2(pts) > 0
}

/// The outcome of the automatic selection: the returned values are the fit
/// of a qualifying suffix window whose goodness of fit no qualifying suffix
/// exceeds, and that no earlier qualifying suffix matches - the earliest
/// window with the strictly highest qualifying fit wins.
pub open spec fn auto_selected(
    obs: Seq<Observation>,
    lam: int,
    r2: int,
    idxs: Seq<usize>,
    thr: int,
) -> bool {
    let n = obs.len() as int;
    exists|s: int|
        #![trigger idx_window(s, n)]
        {
            &&& 0 <= s <= n - 3
            &&& window_qualifies(obs, s, n, thr)
            &&& idxs == idx_window(s, n)
            &&& lam == fit_lambda(reg_points(obs, idx_window(s, n)))
            &&& r2 == reg_r2(reg_points(obs, idx_window(s, n)))
            &&& forall|s2: int|
                0 <= s2 <= n - 3 && window_qualifies(obs, s2, n, thr) ==> reg_r2(
                    reg_points(obs, #[trigger] idx_window(s2, n)),
                ) <= r2
            &&& forall|s2: int|
                0 <= s2 < s && window_qualifies(obs, s2, n, thr) ==> reg_r2(
                    reg_points(obs, #[trigger] idx_window(s2, n)),
                ) < r2
        }
}

/// Lexicographic order on window corners: ascending start, then end.
pub open spec fn window_lex_before(s2: int, e2: int, s: int, e: int) -> bool {
    s2 < s || (s2 == s && e2 < e)
}

/// The outcome of the best-fit selection over all contiguous windows of at
/// least m points: the strictly highest qualifying goodness of fit, the
/// lexicographically first window on ties.
pub open spec fn best_fit_selected(
    obs: Seq<Observation>,
    lam: int,
    r2: int,
    idxs: Seq<usize>,
    m: int,
    thr: int,
) -> bool {
    let n = obs.len() as int;
    exists|s: int, e: int|
        #![trigger idx_window(s, e)]
        {
            &&& 0 <= s && s + m <= e <= n
            &&& window_qualifies(obs, s, e, thr)
            &&& idxs == idx_window(s, e)
            &&& lam == fit_lambda(reg_points(obs, idx_window(s, e)))
            &&& r2 == reg_r2(reg_points(obs, idx_window(s, e)))
            &&& forall|s2: int, e2: int|
                0 <= s2 && s2 + m <= e2 <= n && window_qualifies(obs, s2, e2, thr) ==> reg_r2(
                    reg_points(obs, #[trigger] idx_window(s2, e2)),
                ) <= r2
            &&& forall|s2: int, e2: int|
                0 <= s2 && s2 + m <= e2 <= n && window_lex_before(s2, e2, s, e)
                    && window_qualifies(obs, s2, e2, thr) ==> reg_r2(
                    reg_points(obs, #[trigger] idx_window(s2, e2)),
                ) < r2
        }
}

pub struct ParameterCalculator;

impl ParameterCalculator {
    /// Terminal elimination rate constant under the configured selection.
    pub fn calculate_lambda_z(
        observations: &Vec<Observation>,
        selection: &LambdaZSelection,
    ) -> (r: Result<(i128, i128, Vec<usize>), NcaError>)
        requires
            observations@.len() <= MAX_OBS as int,
            forall|i: int|
                0 <= i < observations@.len() ==> obs_in_range(#[trigger] observations@[i]),
            crate::models::config_selection_wf(*selection),
        ensures
            r is Ok ==> 0 <= r->Ok_0.1 <= SCALE as int && in_range(r->Ok_0.0 as int),
            match selection {
                LambdaZSelection::Auto => match r {
                    Ok(t) => t.1 >= R2_AUTO_THRESHOLD as int && auto_selected(
                        observations@,
                        t.0 as int,
                        t.1 as int,
                        t.2@,
                        R2_AUTO_THRESHOLD as int,
                    ),
                    Err(e) => {
                        &&& ((e matches NcaError::InsufficientData(_)) <==> observations@.len()
                            < 3)
                        &&& ((e matches NcaError::CalculationError(_)) <==> (observations@.len()
                            >= 3 && forall|s2: int|
                            0 <= s2 <= observations@.len() - 3 ==> !(
                            #[trigger] window_qualifies(
                                observations@,
                                s2,
                                observations@.len() as int,
                                R2_AUTO_THRESHOLD as int,
                            ))))
                        &&& ((e matches NcaError::InsufficientData(_)) || (e
                            matches NcaError::CalculationError(_)))
                    },
                },
                LambdaZSelection::Manual(idxs) => match r {
                    Ok(t) => {
                        let pts = reg_points(observations@, idxs@);
                        &&& fit_ok(pts)
                        &&& t.0 == fit_lambda(pts)
                        &&& t.1 == reg_r2(pts)
                        &&& t.2@ == idxs@
                    },
                    Err(e) => {
                        let pts = reg_points(observations@, idxs@);
                        &&& ((e matches NcaError::InsufficientData(_)) <==> pts.len() < 2)
                        &&& ((e matches NcaError::CalculationError(_)) <==> (pts.len() >= 2
                            && reg_dxx(pts) < 1))
                        &&& ((e matches NcaError::InsufficientData(_)) || (e
                            matches NcaError::CalculationError(_)))
                    },
                },
                LambdaZSelection::BestFit { min_points, r_squared_threshold } => match r {
                    Ok(t) => t.1 >= (*r_squared_threshold) as int && best_fit_selected(
                        observations@,
                        t.0 as int,
                        t.1 as int,
                        t.2@,
                        (*min_points) as int,
                        (*r_squared_threshold) as int,
                    ),
                    Err(e) => {
                        &&& ((e matches NcaError::InsufficientData(_)) <==> observations@.len()
                            < (*min_points))
                        &&& ((e matches NcaError::CalculationError(_)) <==> (observations@.len()
                            >= (*min_points) && forall|s2: int, e2: int|
                            0 <= s2 && s2 + (*min_points) <= e2 <= observations@.len() ==> !(
                            #[trigger] window_qualifies(
                                observations@,
                                s2,
                                e2,
                                (*r_squared_threshold) as int,
                            ))))
                        &&& ((e matches NcaError::InsufficientData(_)) || (e
                            matches NcaError::CalculationError(_)))
                    },
                },
            },
    {
        match selection {
            LambdaZSelection::Auto => Self::auto_lambda_z_selection(observations),
            LambdaZSelection::Manual(indices) => Self::manual_lambda_z_selection(
                observations,
                indices,
            ),
            LambdaZSelection::BestFit { min_points, r_squared_threshold } => Self::best_fit_lambda_z_selection(
                observations,
                *min_points,
                *r_squared_threshold,
            ),
        }
    }

    /// Fixed right edge at the last observation, left edge swept from the
    /// start: the window with the strictly highest qualifying R-squared wins,
    /// earlier windows first on ties.
    fn auto_lambda_z_selection(observations: &Vec<Observation>) -> (r: Result<
        (i128, i128, Vec<usize>),
        NcaError,
    >)
        requires
            observations@.len() <= MAX_OBS as int,
            forall|i: int|
                0 <= i < observations@.len() ==> obs_in_range(#[trigger] observations@[i]),
        ensures
            match r {
                Ok(t) => R2_AUTO_THRESHOLD as int <= t.1 <= SCALE as int && in_range(t.0 as int)
                    && auto_selected(
                    observations@,
                    t.0 as int,
                    t.1 as int,
                    t.2@,
                    R2_AUTO_THRESHOLD as int,
                ),
                Err(e) => {
                    &&& ((e matches NcaError::InsufficientData(_)) <==> observations@.len() < 3)
                    &&& ((e matches NcaError::CalculationError(_)) <==> (observations@.len() >= 3
                        && forall|s2: int|
                        0 <= s2 <= observations@.len() - 3 ==> !window_qualifies(
                            observations@,
                            s2,
                            observations@.len() as int,
                            R2_AUTO_THRESHOLD as int,
                        )))
                    &&& ((e matches NcaError::InsufficientData(_)) || (e
                        matches NcaError::CalculationError(_)))
                },
            },
    {
        let n = observations.len();
        if n < 3 {
            return Err(
                NcaError::InsufficientData(
                    "Need at least 3 points for lambda_z calculation".to_owned(),
                ),
            );
        }
        let ghost n_int: int = observations@.len() as int;
        let ghost thr: int = R2_AUTO_THRESHOLD as int;
        let mut best_r2: i128 = 0;
        let mut best_lambda: i128 = 0;
        let mut best_indices: Vec<usize> = Vec::new();
        let ghost mut best_s: int = 0;
        let mut start: usize = 0;
        while start <= n - 3
            invariant
                3 <= n == observations@.len() <= MAX_OBS as int,
                n_int == observations@.len() as int,
                thr == R2_AUTO_THRESHOLD as int,
                forall|i: int|
                    0 <= i < observations@.len() ==> obs_in_range(#[trigger] observations@[i]),
                0 <= start <= n - 2,
                best_indices@.len() > 0 ==> {
                    let pts = reg_points(observations@, idx_window(best_s, n_int));
                    &&& 0 <= best_s <= n_int - 3
                    &&& best_s < start
                    &&& window_qualifies(observations@, best_s, n_int, thr)
                    &&& best_lambda == fit_lambda(pts)
                    &&& best_r2 == reg_r2(pts)
                    &&& best_indices@ == idx_window(best_s, n_int)
                    &&& R2_AUTO_THRESHOLD as int <= best_r2 <= SCALE as int
                    &&& in_range(best_lambda as int)
                    &&& forall|s2: int|
                        0 <= s2 < start && window_qualifies(observations@, s2, n_int, thr)
                            ==> reg_r2(
                            reg_points(observations@, #[trigger] idx_window(s2, n_int)),
                        ) <= best_r2
                    &&& forall|s2: int|
                        0 <= s2 < best_s && window_qualifies(observations@, s2, n_int, thr)
                            ==> reg_r2(
                            reg_points(observations@, #[trigger] idx_window(s2, n_int)),
                        ) < best_r2
                },
                best_indices@.len() == 0 ==> best_r2 == 0 && forall|s2: int|
                    0 <= s2 < start ==> !(#[trigger] window_qualifies(
                        observations@,
                        s2,
                        n_int,
                        thr,
                    )),
            decreases n - start,
        {
            let indices = build_window(start, n);
            match fit_lambda_z(observations, &indices) {
                Ok((lambda, r2)) => {
                    if r2 > best_r2 && r2 >= R2_AUTO_THRESHOLD {
                        best_r2 = r2;
                        best_lambda = lambda;
                        best_indices = indices;
                        proof {
                            best_s = start as int;
                            assert(window_qualifies(observations@, best_s, n_int, thr));
                        }
                        assert(best_indices@.len() > 0);
                    } else {
                        proof {
                            if best_indices@.len() == 0 {
                                assert(!window_qualifies(observations@, start as int, n_int, thr));
                            } else {
                                if window_qualifies(observations@, start as int, n_int, thr) {
                                    assert(reg_r2(
                                        reg_points(observations@, idx_window(start as int, n_int)),
                                    ) <= best_r2);
                                }
                            }
                        }
                    }
                },
                Err(_) => {
                    proof {
                        assert(!fit_ok(reg_points(observations@, idx_window(start as int, n_int))));
                        assert(!window_qualifies(observations@, start as int, n_int, thr));
                    }
                },
            }
            start = start + 1;
        }
        if best_indices.len() == 0 {
            proof {
                assert forall|s2: int| 0 <= s2 <= observations@.len() - 3 implies !window_qualifies(
                    observations@,
                    s2,
                    observations@.len() as int,
                    R2_AUTO_THRESHOLD as int,
                ) by {
                    assert(!window_qualifies(observations@, s2, n_int, thr));
                }
            }
            return Err(
                NcaError::CalculationError(
                    "Could not find suitable points for lambda_z calculation".to_owned(),
                ),
            );
        }
        proof {
            assert(auto_selected(
                observations@,
                best_lambda as int,
                best_r2 as int,
                best_indices@,
                R2_AUTO_THRESHOLD as int,
            )) by {
                assert(0 <= best_s <= n_int - 3 && window_qualifies(observations@, best_s, n_int, thr)
                    && best_indices@ == idx_window(best_s, n_int) && best_lambda == fit_lambda(
                    reg_points(observations@, idx_window(best_s, n_int)),
                ) && best_r2 == reg_r2(reg_points(observations@, idx_window(best_s, n_int))));
                assert(forall|s2: int|
                    0 <= s2 <= n_int - 3 && window_qualifies(observations@, s2, n_int, thr)
                        ==> reg_r2(reg_points(observations@, #[trigger] idx_window(s2, n_int)))
                        <= best_r2);
                assert(forall|s2: int|
                    0 <= s2 < best_s && window_qualifies(observations@, s2, n_int, thr) ==> reg_r2(
                        reg_points(observations@, #[trigger] idx_window(s2, n_int)),
                    ) < best_r2);
            }
        }
        Ok((best_lambda, best_r2, best_indices))
    }

    /// A single fit over caller-supplied indices.
    fn manual_lambda_z_selection(observations: &Vec<Observation>, indices: &Vec<usize>) -> (r:
        Result<(i128, i128, Vec<usize>), NcaError>)
        requires
            observations@.len() <= MAX_OBS as int,
            forall|i: int|
                0 <= i < observations@.len() ==> obs_in_range(#[trigger] observations@[i]),
            indices@.len() <= MAX_OBS as int,
        ensures
            match r {
                Ok(t) => {
                    let pts = reg_points(observations@, indices@);
                    &&& fit_ok(pts)
                    &&& t.0 == fit_lambda(pts)
                    &&& t.1 == reg_r2(pts)
                    &&& 0 <= t.1 <= SCALE as int
                    &&& in_range(t.0 as int)
                    &&& t.2@ == indices@
                },
                Err(e) => {
                    let pts = reg_points(observations@, indices@);
                    ||| (pts.len() < 2 && e matches NcaError::InsufficientData(_))
                    ||| (pts.len() >= 2 && reg_dxx(pts) < 1 && (e
                        matches NcaError::CalculationError(_)))
                },
            },
    {
        let (lambda, r2) = match fit_lambda_z(observations, indices) {
            Ok(v) => v,
            Err(e) => {
                return Err(e);
            },
        };
        let mut copied: Vec<usize> = Vec::new();
        let mut i: usize = 0;
        while i < indices.len()
            invariant
                0 <= i <= indices@.len(),
                copied@ == indices@.take(i as int),
            decreases indices@.len() - i,
        {
            copied.push(indices[i]);
            i = i + 1;
        }
        proof {
            assert(indices@.take(indices@.len() as int) =~= indices@);
        }
        Ok((lambda, r2, copied))
    }

    /// Every contiguous window of at least `min_points` points is tried in
    /// ascending start-then-end order; the strictly highest R-squared at or
    /// above the threshold wins, the first such window on ties.
    fn best_fit_lambda_z_selection(
        observations: &Vec<Observation>,
        min_points: usize,
        r_squared_threshold: i128,
    ) -> (r: Result<(i128, i128, Vec<usize>), NcaError>)
        requires
            observations@.len() <= MAX_OBS as int,
            forall|i: int|
                0 <= i < observations@.len() ==> obs_in_range(#[trigger] observations@[i]),
            1 <= min_points <= MAX_OBS as int,
            0 <= r_squared_threshold <= SCALE as int,
        ensures
            match r {
                Ok(t) => r_squared_threshold as int <= t.1 <= SCALE as int && in_range(t.0 as int)
                    && best_fit_selected(
                    observations@,
                    t.0 as int,
                    t.1 as int,
                    t.2@,
                    min_points as int,
                    r_squared_threshold as int,
                ),
                Err(e) => {
                    &&& ((e matches NcaError::InsufficientData(_)) <==> observations@.len()
                        < min_points)
                    &&& ((e matches NcaError::CalculationError(_)) <==> (observations@.len()
                        >= min_points && forall|s2: int, e2: int|
                        0 <= s2 && s2 + min_points <= e2 <= observations@.len()
                            ==> !(#[trigger] window_qualifies(
                            observations@,
                            s2,
                            e2,
                            r_squared_threshold as int,
                        ))))
                    &&& ((e matches NcaError::InsufficientData(_)) || (e
                        matches NcaError::CalculationError(_)))
                },
            },
    {
        let n = observations.len();
        if n < min_points {
            return Err(
                NcaError::InsufficientData(
                    "Too few points for the requested lambda_z window".to_owned(),
                ),
            );
        }
        let ghost n_int: int = observations@.len() as int;
        let ghost m: int = min_points as int;
        let ghost thr: int = r_squared_threshold as int;
        let mut best_r2: i128 = 0;
        let mut best_lambda: i128 = 0;
        let mut best_indices: Vec<usize> = Vec::new();
        let ghost mut best_s: int = 0;
        let ghost mut best_e: int = 0;
        let mut start: usize = 0;
        while start + min_points <= n
            invariant
                1 <= min_points,
                min_points <= n == observations@.len() <= MAX_OBS as int,
                n_int == observations@.len() as int,
                m == min_points as int,
                thr == r_squared_threshold as int,
                forall|i: int|
                    0 <= i < observations@.len() ==> obs_in_range(#[trigger] observations@[i]),
                0 <= start <= n,
                0 <= r_squared_threshold <= SCALE as int,
                best_indices@.len() > 0 ==> {
                    let pts = reg_points(observations@, idx_window(best_s, best_e));
                    &&& 0 <= best_s && best_s + m <= best_e <= n_int
                    &&& best_s < start
                    &&& window_qualifies(observations@, best_s, best_e, thr)
                    &&& best_lambda == fit_lambda(pts)
                    &&& best_r2 == reg_r2(pts)
                    &&& best_indices@ == idx_window(best_s, best_e)
                    &&& r_squared_threshold as int <= best_r2 <= SCALE as int
                    &&& in_range(best_lambda as int)
                    &&& forall|s2: int, e2: int|
                        0 <= s2 && s2 < start && s2 + m <= e2 <= n_int && window_qualifies(
                            observations@,
                            s2,
                            e2,
                            thr,
                        ) ==> reg_r2(reg_points(observations@, #[trigger] idx_window(s2, e2)))
                            <= best_r2
                    &&& forall|s2: int, e2: int|
                        0 <= s2 && s2 + m <= e2 <= n_int && window_lex_before(
                            s2,
                            e2,
                            best_s,
                            best_e,
                        ) && window_qualifies(observations@, s2, e2, thr) ==> reg_r2(
                            reg_points(observations@, #[trigger] idx_window(s2, e2)),
                        ) < best_r2
                },
                best_indices@.len() == 0 ==> best_r2 == 0 && forall|s2: int, e2: int|
                    0 <= s2 && s2 < start && s2 + m <= e2 <= n_int ==> !(
                    #[trigger] window_qualifies(observations@, s2, e2, thr)),
            decreases n - start,
        {
            let mut end: usize = start + min_points;
            while end <= n
                invariant
                    1 <= min_points,
                    min_points <= n == observations@.len() <= MAX_OBS as int,
                    n_int == observations@.len() as int,
                    m == min_points as int,
                    thr == r_squared_threshold as int,
                    forall|i: int|
                        0 <= i < observations@.len() ==> obs_in_range(#[trigger] observations@[i]),
                    0 <= start,
                    start + min_points <= n,
                    start + min_points <= end <= n + 1,
                    0 <= r_squared_threshold <= SCALE as int,
                    best_indices@.len() > 0 ==> {
                        let pts = reg_points(observations@, idx_window(best_s, best_e));
                        &&& 0 <= best_s && best_s + m <= best_e <= n_int
                        &&& window_lex_before(best_s, best_e, start as int, end as int)
                        &&& window_qualifies(observations@, best_s, best_e, thr)
                        &&& best_lambda == fit_lambda(pts)
                        &&& best_r2 == reg_r2(pts)
                        &&& best_indices@ == idx_window(best_s, best_e)
                        &&& r_squared_threshold as int <= best_r2 <= SCALE as int
                        &&& in_range(best_lambda as int)
                        &&& forall|s2: int, e2: int|
                            0 <= s2 && s2 + m <= e2 <= n_int && window_lex_before(
                                s2,
                                e2,
                                start as int,
                                end as int,
                            ) && window_qualifies(observations@, s2, e2, thr) ==> reg_r2(
                                reg_points(observations@, #[trigger] idx_window(s2, e2)),
                            ) <= best_r2
                        &&& forall|s2: int, e2: int|
                            0 <= s2 && s2 + m <= e2 <= n_int && window_lex_before(
                                s2,
                                e2,
                                best_s,
                                best_e,
                            ) && window_qualifies(observations@, s2, e2, thr) ==> reg_r2(
                                reg_points(observations@, #[trigger] idx_window(s2, e2)),
                            ) < best_r2
                    },
                    best_indices@.len() == 0 ==> best_r2 == 0 && forall|s2: int, e2: int|
                        0 <= s2 && s2 + m <= e2 <= n_int && window_lex_before(
                            s2,
                            e2,
                            start as int,
                            end as int,
                        ) ==> !(#[trigger] window_qualifies(observations@, s2, e2, thr)),
                decreases n + 1 - end,
            {
                let indices = build_window(start, end);
                match fit_lambda_z(observations, &indices) {
                    Ok((lambda, r2)) => {
                        if r2 > best_r2 && r2 >= r_squared_threshold {
                            best_r2 = r2;
                            best_lambda = lambda;
                            best_indices = indices;
                            proof {
                                best_s = start as int;
                                best_e = end as int;
                                assert(window_qualifies(observations@, best_s, best_e, thr));
                            }
                            assert(best_indices@.len() > 0);
                        } else {
                            proof {
                                if best_indices@.len() == 0 {
                                    assert(!window_qualifies(
                                        observations@,
                                        start as int,
                                        end as int,
                                        thr,
                                    ));
                                } else {
                                    if window_qualifies(
                                        observations@,
                                        start as int,
                                        end as int,
                                        thr,
                                    ) {
                                        assert(reg_r2(
                                            reg_points(
                                                observations@,
                                                idx_window(start as int, end as int),
                                            ),
                                        ) <= best_r2);
                                    }
                                }
                            }
                        }
                    },
                    Err(_) => {
                        proof {
                            assert(!fit_ok(
                                reg_points(observations@, idx_window(start as int, end as int)),
                            ));
                            assert(!window_qualifies(
                                observations@,
                                start as int,
                                end as int,
                                thr,
                            ));
                        }
                    },
                }
                end = end + 1;
            }
            start = start + 1;
        }
        if best_indices.len() == 0 {
            proof {
                assert forall|s2: int, e2: int|
                    0 <= s2 && s2 + min_points <= e2 <= observations@.len() implies !(
                #[trigger] window_qualifies(
                    observations@,
                    s2,
                    e2,
                    r_squared_threshold as int,
                )) by {
                    assert(s2 < start);
                    assert(!window_qualifies(observations@, s2, e2, thr));
                }
            }
            return Err(
                NcaError::CalculationError(
                    "Could not find suitable points above the R-squared threshold".to_owned(),
                ),
            );
        }
        proof {
            assert(best_fit_selected(
                observations@,
                best_lambda as int,
                best_r2 as int,
                best_indices@,
                min_points as int,
                r_squared_threshold as int,
            )) by {
                assert(0 <= best_s && best_s + m <= best_e <= n_int && window_qualifies(
                    observations@,
                    best_s,
                    best_e,
                    thr,
                ) && best_indices@ == idx_window(best_s, best_e) && best_lambda == fit_lambda(
                    reg_points(observations@, idx_window(best_s, best_e)),
                ) && best_r2 == reg_r2(reg_points(observations@, idx_window(best_s, best_e))));
                assert(forall|s2: int, e2: int|
                    0 <= s2 && s2 + m <= e2 <= n_int && window_qualifies(
                        observations@,
                        s2,
                        e2,
                        thr,
                    ) ==> reg_r2(reg_points(observations@, #[trigger] idx_window(s2, e2)))
                        <= best_r2);
                assert(forall|s2: int, e2: int|
                    0 <= s2 && s2 + m <= e2 <= n_int && window_lex_before(s2, e2, best_s, best_e)
                        && window_qualifies(observations@, s2, e2, thr) ==> reg_r2(
                        reg_points(observations@, #[trigger] idx_window(s2, e2)),
                    ) < best_r2);
            }
        }
        Ok((best_lambda, best_r2, best_indices))
    }

    /// Cmax and its time: the first maximal concentration under a forward
    /// scan.
    pub fn calculate_cmax_tmax(observations: &Vec<Observation>) -> (r: Result<
        (i128, i128),
        NcaError,
    >)
        ensures
            match r {
                Ok(t) => observations@.len() > 0 && {
                    let j = cmax_index(observations@, observations@.len() as int);
                    &&& t.0 == observations@[j].concentration
                    &&& t.1 == observations@[j].time
                },
                Err(e) => observations@.len() == 0 && (e matches NcaError::InsufficientData(_)),
            },
    {
        if observations.len() == 0 {
            return Err(NcaError::InsufficientData("No observations available".to_owned()));
        }
        let mut best: usize = 0;
        let mut i: usize = 1;
        while i < observations.len()
            invariant
                1 <= i <= observations@.len(),
                0 <= best < i,
                best == cmax_index(observations@, i as int),
            decreases observations@.len() - i,
        {
            if observations[i].concentration > observations[best].concentration {
                best = i;
            }
            i = i + 1;
        }
        Ok((observations[best].concentration, observations[best].time))
    }

    /// Half-life: ln 2 over lambda_z.
    pub fn calculate_half_life(lambda_z: i128) -> (r: Result<i128, NcaError>)
        requires
            in_range(lambda_z as int),
        ensures
            match r {
                Ok(v) => lambda_z > 0 && v == tdiv(
                    LN2_FIXED as int * SCALE as int,
                    lambda_z as int,
                ) && 0 <= v <= LN2_FIXED as int * SCALE as int,
                Err(e) => lambda_z <= 0 && (e matches NcaError::CalculationError(_)),
            },
    {
        if lambda_z <= 0 {
            return Err(
                NcaError::CalculationError(
                    "Lambda_z must be positive for half-life calculation".to_owned(),
                ),
            );
        }
        proof {
            lemma_tdiv_bounds(LN2_FIXED as int * SCALE as int, lambda_z as int);
        }
        Ok(div_trunc(LN2_FIXED * SCALE, lambda_z))
    }

    /// Clearance after intravenous dosing: dose over AUC to infinity.
    pub fn calculate_clearance_iv(dose: i128, auc_inf: i128) -> (r: Result<i128, NcaError>)
        requires
            in_range(dose as int),
            in_range(auc_inf as int),
        ensures
            match r {
                Ok(v) => auc_inf > 0 && v == tdiv(dose * SCALE as int, auc_inf as int) && in_range(
                    v as int,
                ),
                Err(e) => {
                    ||| (auc_inf <= 0 && (e matches NcaError::CalculationError(_)))
                    ||| (auc_inf > 0 && (e matches NcaError::MathError(_)) && !in_range(
                        tdiv(dose * SCALE as int, auc_inf as int),
                    ))
                },
            },
    {
        if auc_inf <= 0 {
            return Err(
                NcaError::CalculationError(
                    "AUC_inf must be positive for clearance calculation".to_owned(),
                ),
            );
        }
        proof {
            assert(-(VAL_LIMIT as int) * (SCALE as int) <= dose * SCALE as int <= (
            VAL_LIMIT as int) * (SCALE as int)) by (nonlinear_arith)
                requires
                    in_range(dose as int),
            ;
            lemma_tdiv_bounds(dose * SCALE as int, auc_inf as int);
        }
        let v = div_trunc(dose * SCALE, auc_inf);
        if -VAL_LIMIT <= v && v <= VAL_LIMIT {
            Ok(v)
        } else {
            Err(NcaError::MathError("Clearance outside the representable range".to_owned()))
        }
    }

    /// Apparent oral clearance: CL/F over bioavailability when known.
    pub fn calculate_clearance_oral(dose: i128, auc_inf: i128, bioavailability: Option<i128>) -> (r:
        Result<i128, NcaError>)
        requires
            in_range(dose as int),
            in_range(auc_inf as int),
            bioavailability is Some ==> in_range(bioavailability->0 as int),
        ensures
            ({
                let cl = tdiv(dose * SCALE as int, auc_inf as int);
                let adjusts = bioavailability is Some && bioavailability->0 > 0;
                let adjusted = tdiv_any(cl * SCALE as int, bioavailability->0 as int);
                match r {
                    Ok(v) => auc_inf > 0 && in_range(v as int) && (if adjusts {
                        in_range(cl) && v == adjusted
                    } else {
                        v == cl
                    }),
                    Err(e) => {
                        ||| (auc_inf <= 0 && (e matches NcaError::CalculationError(_)))
                        ||| (auc_inf > 0 && (e matches NcaError::MathError(_)) && (!in_range(cl)
                            || (adjusts && !in_range(adjusted))))
                    },
                }
            }),
    {
        let cl = match Self::calculate_clearance_iv(dose, auc_inf) {
            Ok(v) => v,
            Err(e) => {
                return Err(e);
            },
        };
        match bioavailability {
            Some(f) => {
                if f > 0 {
                    match crate::fixed::div_val(cl, f) {
                        Some(v) => Ok(v),
                        None => Err(
                            NcaError::MathError(
                                "Clearance outside the representable range".to_owned(),
                            ),
                        ),
                    }
                } else {
                    Ok(cl)
                }
            },
            None => Ok(cl),
        }
    }

    /// Volume of distribution at steady state: clearance times MRT.
    pub fn calculate_vss(clearance: i128, mrt: i128) -> (r: Result<i128, NcaError>)
        requires
            in_range(clearance as int),
            in_range(mrt as int),
        ensures
            match r {
                Ok(v) => clearance > 0 && mrt > 0 && v == tdiv(clearance * mrt, SCALE as int)
                    && v >= 0 && in_range(v as int),
                Err(e) => {
                    ||| ((clearance <= 0 || mrt <= 0) && (e matches NcaError::CalculationError(_)))
                    ||| (clearance > 0 && mrt > 0 && (e matches NcaError::MathError(_))
                        && !in_range(tdiv(clearance * mrt, SCALE as int)))
                },
            },
    {
        if clearance <= 0 || mrt <= 0 {
            return Err(
                NcaError::CalculationError(
                    "Clearance and MRT must be positive for Vss calculation".to_owned(),
                ),
            );
        }
        match crate::fixed::mul_val(clearance, mrt) {
            Some(v) => Ok(v),
            None => Err(NcaError::MathError("Vss outside the representable range".to_owned())),
        }
    }

    /// Terminal volume of distribution: clearance over lambda_z.
    pub fn calculate_vz(clearance: i128, lambda_z: i128) -> (r: Result<i128, NcaError>)
        requires
            in_range(clearance as int),
            in_range(lambda_z as int),
        ensures
            match r {
                Ok(v) => clearance > 0 && lambda_z > 0 && v == tdiv_any(
                    clearance * SCALE as int,
                    lambda_z as int,
                ) && v >= 0 && in_range(v as int),
                Err(e) => {
                    ||| ((clearance <= 0 || lambda_z <= 0) && (e
                        matches NcaError::CalculationError(_)))
                    ||| (clearance > 0 && lambda_z > 0 && (e matches NcaError::MathError(_))
                        && !in_range(tdiv_any(clearance * SCALE as int, lambda_z as int)))
                },
            },
    {
        if clearance <= 0 || lambda_z <= 0 {
            return Err(
                NcaError::CalculationError(
                    "Clearance and lambda_z must be positive for Vz calculation".to_owned(),
                ),
            );
        }
        match crate::fixed::div_val(clearance, lambda_z) {
            Some(v) => Ok(v),
            None => Err(NcaError::MathError("Vz outside the representable range".to_owned())),
        }
    }

    /// Mean residence time: AUMC_inf over AUC_inf.
    pub fn calculate_mrt(aumc_inf: i128, auc_inf: i128) -> (r: Result<i128, NcaError>)
        requires
            in_range(aumc_inf as int),
            in_range(auc_inf as int),
        ensures
            match r {
                Ok(v) => auc_inf > 0 && v == tdiv_any(aumc_inf * SCALE as int, auc_inf as int)
                    && in_range(v as int),
                Err(e) => {
                    ||| (auc_inf <= 0 && (e matches NcaError::CalculationError(_)))
                    ||| (auc_inf > 0 && (e matches NcaError::MathError(_)) && !in_range(
                        tdiv_any(aumc_inf * SCALE as int, auc_inf as int),
                    ))
                },
            },
    {
        if auc_inf <= 0 {
            return Err(
                NcaError::CalculationError(
                    "AUC_inf must be positive for MRT calculation".to_owned(),
                ),
            );
        }
        match crate::fixed::div_val(aumc_inf, auc_inf) {
            Some(v) => Ok(v),
            None => Err(NcaError::MathError("MRT outside the representable range".to_owned())),
        }
    }

    /// The last observation with a positive, non-BLQ concentration.
    pub fn find_tlast_clast(observations: &Vec<Observation>) -> (r: Option<(i128, i128)>)
        ensures
            r == tlast_spec(observations@),
    {
        let mut i: usize = observations.len();
        proof {
            assert(observations@.take(observations@.len() as int) =~= observations@);
        }
        while i > 0
            invariant
                0 <= i <= observations@.len(),
                tlast_spec(observations@) == tlast_spec(observations@.take(i as int)),
            decreases i,
        {
            let o = observations[i - 1];
            proof {
                assert(observations@.take(i as int).drop_last() =~= observations@.take(
                    i as int - 1,
                ));
                assert(observations@.take(i as int).last() == observations@[i as int - 1]);
            }
            if o.concentration > 0 && !o.bloq {
                return Some((o.time, o.concentration));
            }
            i = i - 1;
        }
        proof {
            assert(observations@.take(0) =~= Seq::<Observation>::empty());
        }
        None
    }

    /// Percentage of the infinite AUC that was extrapolated.
    pub fn calculate_auc_percent_extrap(auc_last: i128, auc_inf: i128) -> (r: Result<
        i128,
        NcaError,
    >)
        requires
            in_range(auc_last as int),
            in_range(auc_inf as int),
        ensures
            match r {
                Ok(v) => auc_inf > 0 && v == tdiv(
                    (auc_inf - auc_last) * (100 * SCALE as int),
                    auc_inf as int,
                ) && in_range(v as int),
                Err(e) => {
                    ||| (auc_inf <= 0 && (e matches NcaError::CalculationError(_)))
                    ||| (auc_inf > 0 && (e matches NcaError::MathError(_)) && !in_range(
                        tdiv((auc_inf - auc_last) * (100 * SCALE as int), auc_inf as int),
                    ))
                },
            },
    {
        if auc_inf <= 0 {
            return Err(NcaError::CalculationError("AUC_inf must be positive".to_owned()));
        }
        proof {
            assert(-(VAL_LIMIT as int) * (200 * SCALE as int) <= (auc_inf - auc_last) * (100
                * SCALE as int) <= (VAL_LIMIT as int) * (200 * SCALE as int)) by (nonlinear_arith)
                requires
                    in_range(auc_last as int),
                    in_range(auc_inf as int),
            ;
            lemma_tdiv_bounds((auc_inf - auc_last) * (100 * SCALE as int), auc_inf as int);
        }
        let v = div_trunc((auc_inf - auc_last) * (100 * SCALE), auc_inf);
        if -VAL_LIMIT <= v && v <= VAL_LIMIT {
            Ok(v)
        } else {
            Err(
                NcaError::MathError(
                    "Extrapolated percentage outside the representable range".to_owned(),
                ),
            )
        }
    }
}

/// Index of the first maximal concentration among the first k observations.
pub open spec fn cmax_index(obs: Seq<Observation>, k: int) -> int
    decreases k,
{
    if k <= 1 {
        0
    } else {
        let p = cmax_index(obs, k - 1);
        if obs[k - 1].concentration > obs[p].concentration {
            k - 1
        } else {
            p
        }
    }
}

/// Time and concentration of the last quantifiable observation.
pub open spec fn tlast_spec(obs: Seq<Observation>) -> Option<(i128, i128)>
    decreases obs.len(),
{
    if obs.len() == 0 {
        None
    } else if obs.last().concentration > 0 && !obs.last().bloq {
        Some((obs.last().time, obs.last().concentration))
    } else {
        tlast_spec(obs.drop_last())
    }
}

/// A series with a quantifiable observation has a last quantifiable one.
pub proof fn lemma_quant_tlast_some(obs: Seq<Observation>)
    requires
        crate::auc::count_quantifiable(obs) > 0,
    ensures
        tlast_spec(obs) is Some,
        (tlast_spec(obs)->0).1 > 0,
    decreases obs.len(),
{
    if obs.len() > 0 {
        if obs.last().concentration > 0 && !obs.last().bloq {
        } else {
            lemma_quant_tlast_some(obs.drop_last());
        }
    }
}

/// Half-life decreases as lambda_z grows; strictly when the two rates are
/// small enough that a whole micro-unit separates the quotients.
pub proof fn lemma_half_life_monotone(l1: i128, l2: i128)
    requires
        0 < l1 < l2,
        in_range(l2 as int),
    ensures
        tdiv(LN2_FIXED as int * SCALE as int, l1 as int) >= tdiv(
            LN2_FIXED as int * SCALE as int,
            l2 as int,
        ),
        l1 as int * l2 as int <= LN2_FIXED as int * SCALE as int ==> tdiv(
            LN2_FIXED as int * SCALE as int,
            l1 as int,
        ) > tdiv(LN2_FIXED as int * SCALE as int, l2 as int),
{
    let a = LN2_FIXED as int * SCALE as int;
    vstd::arithmetic::div_mod::lemma_div_is_ordered_by_denominator(a, l1 as int, l2 as int);
    if l1 as int * l2 as int <= a {
        crate::fixed::lemma_tdiv_strict(a, l1 as int, l2 as int);
    }
}

/// Build the index window [start, end) as a vector.
fn build_window(start: usize, end: usize) -> (r: Vec<usize>)
    requires
        start < end,
    ensures
        r@ == idx_window(start as int, end as int),
        r@.len() > 0,
{
    let mut v: Vec<usize> = Vec::new();
    let mut i: usize = start;
    while i < end
        invariant
            start <= i <= end,
            v@ == idx_window(start as int, i as int),
        decreases end - i,
    {
        v.push(i);
        proof {
            assert(v@ =~= idx_window(start as int, i as int + 1));
        }
        i = i + 1;
    }
    v
}

/// One ordinary least-squares fit of ln(concentration) on time over the
/// selected points: the negated slope and the clamped goodness of fit.
fn fit_lambda_z(observations: &Vec<Observation>, indices: &Vec<usize>) -> (r: Result<
    (i128, i128),
    NcaError,
>)
    requires
        observations@.len() <= MAX_OBS as int,
        forall|i: int|
            0 <= i < observations@.len() ==> obs_in_range(#[trigger] observations@[i]),
        indices@.len() <= MAX_OBS as int,
    ensures
        match r {
            Ok(t) => {
                let pts = reg_points(observations@, indices@);
                &&& fit_ok(pts)
                &&& t.0 == fit_lambda(pts)
                &&& t.1 == reg_r2(pts)
                &&& 0 <= t.1 <= SCALE as int
                &&& in_range(t.0 as int)
            },
            Err(e) => {
                let pts = reg_points(observations@, indices@);
                ||| (pts.len() < 2 && (e matches NcaError::InsufficientData(_)))
                ||| (pts.len() >= 2 && reg_dxx(pts) < 1 && (e
                    matches NcaError::CalculationError(_)))
            },
        },
{
    let mut cnt: i128 = 0;
    let mut sx: i128 = 0;
    let mut sy: i128 = 0;
    let mut sxy: i128 = 0;
    let mut sxx: i128 = 0;
    let mut syy: i128 = 0;
    let mut j: usize = 0;
    proof {
        assert(indices@.take(0) =~= Seq::<usize>::empty());
    }
    while j < indices.len()
        invariant
            0 <= j <= indices@.len(),
            indices@.len() <= MAX_OBS as int,
            observations@.len() <= MAX_OBS as int,
            forall|i: int|
                0 <= i < observations@.len() ==> obs_in_range(#[trigger] observations@[i]),
            cnt == reg_points(observations@, indices@.take(j as int)).len(),
            0 <= cnt <= j,
            sx == sum_x(reg_points(observations@, indices@.take(j as int))),
            sy == sum_y(reg_points(observations@, indices@.take(j as int))),
            sxy == sum_xy(reg_points(observations@, indices@.take(j as int))),
            sxx == sum_xx(reg_points(observations@, indices@.take(j as int))),
            syy == sum_yy(reg_points(observations@, indices@.take(j as int))),
            0 <= sx <= cnt * (MAX_TIME as int),
            -cnt * (LN_ABS_BOUND as int) <= sy <= cnt * (LN_ABS_BOUND as int),
            -cnt * (MAX_TIME as int) * (LN_ABS_BOUND as int) <= sxy <= cnt * (MAX_TIME as int) * (
            LN_ABS_BOUND as int),
            0 <= sxx <= cnt * (MAX_TIME as int) * (MAX_TIME as int),
            0 <= syy <= cnt * (LN_ABS_BOUND as int) * (LN_ABS_BOUND as int),
        decreases indices@.len() - j,
    {
        let idx = indices[j];
        let ghost pre = reg_points(observations@, indices@.take(j as int));
        proof {
            assert(indices@.take(j as int + 1).drop_last() =~= indices@.take(j as int));
            assert(indices@.take(j as int + 1).last() == indices@[j as int]);
        }
        if idx < observations.len() && observations[idx].concentration > 0 {
            let o = observations[idx];
            let x = o.time;
            let y = ln_fixed(o.concentration);
            let ghost post = reg_points(observations@, indices@.take(j as int + 1));
            proof {
                assert(post =~= pre + seq![(x as int, y as int)]);
                assert(post.drop_last() =~= pre);
                assert(post.last() == (x as int, y as int));
                lemma_step_bounds(cnt as int, x as int, y as int);
            }
            cnt = cnt + 1;
            sx = sx + x;
            sy = sy + y;
            sxy = sxy + x * y;
            sxx = sxx + x * x;
            syy = syy + y * y;
        } else {
            proof {
                assert(reg_points(observations@, indices@.take(j as int + 1)) =~= pre);
            }
        }
        j = j + 1;
    }
    proof {
        assert(indices@.take(indices@.len() as int) =~= indices@);
    }
    let ghost pts = reg_points(observations@, indices@);
    if cnt < 2 {
        return Err(
            NcaError::InsufficientData(
                "Need at least 2 positive concentrations for lambda_z".to_owned(),
            ),
        );
    }
    proof {
        lemma_final_bounds(cnt as int, sx as int, sy as int, sxy as int, sxx as int, syy as int);
    }
    let num = cnt * sxy - sx * sy;
    let dxx = cnt * sxx - sx * sx;
    let dyy = cnt * syy - sy * sy;
    if dxx < 1 {
        return Err(
            NcaError::CalculationError(
                "Observation times in the window do not spread".to_owned(),
            ),
        );
    }
    proof {
        assert(num == reg_num(pts) && dxx == reg_dxx(pts) && dyy == reg_dyy(pts));
        assert(-400_000_000_000_000_000_000_000_000_000int <= num * SCALE as int
            <= 400_000_000_000_000_000_000_000_000_000int) by (nonlinear_arith)
            requires
                -400_000_000_000_000_000_000_000int <= num <= 400_000_000_000_000_000_000_000int,
                SCALE == 1_000_000i128,
        ;
        lemma_tdiv_bounds(num * SCALE as int, dxx as int);
        lemma_tdiv_bounds(-(num * SCALE as int), dxx as int);
    }
    let slope = div_trunc_any(num * SCALE, dxx);
    let lambda = clamp_range(-slope);
    let a = if num >= 0 {
        num
    } else {
        -num
    };
    proof {
        lemma_tdiv_bounds(a as int, R2_REDUCE as int);
    }
    let d = div_trunc(a, R2_REDUCE) + 1;
    proof {
        lemma_tdiv_bounds(a as int, d as int);
        lemma_tdiv_bounds(dxx as int, d as int);
        lemma_tdiv_bounds(dyy as int, d as int);
        lemma_reduced_small(a as int, d as int);
    }
    let ar = div_trunc(a, d);
    let dxxr = div_trunc(dxx, d);
    let dyyr = div_trunc(dyy, d);
    let r2: i128 = if dxxr <= 0 || dyyr <= 0 {
        0
    } else {
        proof {
            assert(0 <= ar * SCALE as int <= R2_REDUCE as int * SCALE as int) by (nonlinear_arith)
                requires
                    0 <= ar <= R2_REDUCE as int,
            ;
            lemma_tdiv_bounds(ar * SCALE as int, dxxr as int);
        }
        let t1 = div_trunc(ar * SCALE, dxxr);
        proof {
            assert(0 <= t1 * ar <= R2_REDUCE as int * SCALE as int * R2_REDUCE as int)
                by (nonlinear_arith)
                requires
                    0 <= t1 <= R2_REDUCE as int * SCALE as int,
                    0 <= ar <= R2_REDUCE as int,
            ;
            lemma_tdiv_bounds(t1 * ar, dyyr as int);
        }
        let raw = div_trunc(t1 * ar, dyyr);
        if raw > SCALE {
            SCALE
        } else {
            raw
        }
    };
    Ok((lambda, r2))
}

/// Per-step growth of the accumulated sums.
proof fn lemma_step_bounds(cnt: int, x: int, y: int)
    requires
        cnt >= 0,
        0 <= x <= MAX_TIME as int,
        -(LN_ABS_BOUND as int) <= y <= LN_ABS_BOUND as int,
    ensures
        -(MAX_TIME as int) * (LN_ABS_BOUND as int) <= x * y <= (MAX_TIME as int) * (
        LN_ABS_BOUND as int),
        0 <= x * x <= (MAX_TIME as int) * (MAX_TIME as int),
        0 <= y * y <= (LN_ABS_BOUND as int) * (LN_ABS_BOUND as int),
        cnt * (MAX_TIME as int) + MAX_TIME as int == (cnt + 1) * (MAX_TIME as int),
        cnt * (LN_ABS_BOUND as int) + LN_ABS_BOUND as int == (cnt + 1) * (LN_ABS_BOUND as int),
        cnt * (MAX_TIME as int) * (LN_ABS_BOUND as int) + (MAX_TIME as int) * (LN_ABS_BOUND as int)
            == (cnt + 1) * (MAX_TIME as int) * (LN_ABS_BOUND as int),
        cnt * (MAX_TIME as int) * (MAX_TIME as int) + (MAX_TIME as int) * (MAX_TIME as int) == (cnt
            + 1) * (MAX_TIME as int) * (MAX_TIME as int),
        cnt * (LN_ABS_BOUND as int) * (LN_ABS_BOUND as int) + (LN_ABS_BOUND as int) * (
        LN_ABS_BOUND as int) == (cnt + 1) * (LN_ABS_BOUND as int) * (LN_ABS_BOUND as int),
{
    assert(-(MAX_TIME as int) * (LN_ABS_BOUND as int) <= x * y <= (MAX_TIME as int) * (
    LN_ABS_BOUND as int)) by (nonlinear_arith)
        requires
            0 <= x <= MAX_TIME as int,
            -(LN_ABS_BOUND as int) <= y <= LN_ABS_BOUND as int,
    ;
    assert(0 <= x * x <= (MAX_TIME as int) * (MAX_TIME as int)) by (nonlinear_arith)
        requires
            0 <= x <= MAX_TIME as int,
    ;
    assert(0 <= y * y <= (LN_ABS_BOUND as int) * (LN_ABS_BOUND as int)) by (nonlinear_arith)
        requires
            -(LN_ABS_BOUND as int) <= y <= LN_ABS_BOUND as int,
    ;
    assert(cnt * (MAX_TIME as int) + MAX_TIME as int == (cnt + 1) * (MAX_TIME as int))
        by (nonlinear_arith);
    assert(cnt * (LN_ABS_BOUND as int) + LN_ABS_BOUND as int == (cnt + 1) * (LN_ABS_BOUND as int))
        by (nonlinear_arith);
    assert(cnt * (MAX_TIME as int) * (LN_ABS_BOUND as int) + (MAX_TIME as int) * (
    LN_ABS_BOUND as int) == (cnt + 1) * (MAX_TIME as int) * (LN_ABS_BOUND as int))
        by (nonlinear_arith);
    assert(cnt * (MAX_TIME as int) * (MAX_TIME as int) + (MAX_TIME as int) * (MAX_TIME as int) == (
    cnt + 1) * (MAX_TIME as int) * (MAX_TIME as int)) by (nonlinear_arith);
    assert(cnt * (LN_ABS_BOUND as int) * (LN_ABS_BOUND as int) + (LN_ABS_BOUND as int) * (
    LN_ABS_BOUND as int) == (cnt + 1) * (LN_ABS_BOUND as int) * (LN_ABS_BOUND as int))
        by (nonlinear_arith);
}

/// The centered combinations of bounded sums stay far inside i128.
proof fn lemma_final_bounds(cnt: int, sx: int, sy: int, sxy: int, sxx: int, syy: int)
    requires
        2 <= cnt <= MAX_OBS as int,
        0 <= sx <= cnt * (MAX_TIME as int),
        -cnt * (LN_ABS_BOUND as int) <= sy <= cnt * (LN_ABS_BOUND as int),
        -cnt * (MAX_TIME as int) * (LN_ABS_BOUND as int) <= sxy <= cnt * (MAX_TIME as int) * (
        LN_ABS_BOUND as int),
        0 <= sxx <= cnt * (MAX_TIME as int) * (MAX_TIME as int),
        0 <= syy <= cnt * (LN_ABS_BOUND as int) * (LN_ABS_BOUND as int),
    ensures
        -200_000_000_000_000_000_000_000int <= cnt * sxy <= 200_000_000_000_000_000_000_000int,
        0 <= sx * sy || sx * sy <= 0,
        -200_000_000_000_000_000_000_000int <= sx * sy <= 200_000_000_000_000_000_000_000int,
        0 <= cnt * sxx <= 2_000_000_000_000_000_000_000_000int,
        0 <= sx * sx <= 2_000_000_000_000_000_000_000_000int,
        0 <= cnt * syy <= 20_000_000_000_000_000_000_000int,
        0 <= sy * sy <= 20_000_000_000_000_000_000_000int,
        -400_000_000_000_000_000_000_000int <= cnt * sxy - sx * sy
            <= 400_000_000_000_000_000_000_000int,
        -4_000_000_000_000_000_000_000_000int <= cnt * sxx - sx * sx
            <= 4_000_000_000_000_000_000_000_000int,
        -40_000_000_000_000_000_000_000int <= cnt * syy - sy * sy
            <= 40_000_000_000_000_000_000_000int,
{
    assert(-200_000_000_000_000_000_000_000int <= cnt * sxy <= 200_000_000_000_000_000_000_000int)
        by (nonlinear_arith)
        requires
            2 <= cnt <= 1000,
            -cnt * (MAX_TIME as int) * (LN_ABS_BOUND as int) <= sxy <= cnt * (MAX_TIME as int) * (
            LN_ABS_BOUND as int),
            MAX_TIME == 1_000_000_000i128,
            LN_ABS_BOUND == 100_000_000i128,
    ;
    assert(-200_000_000_000_000_000_000_000int <= sx * sy <= 200_000_000_000_000_000_000_000int)
        by (nonlinear_arith)
        requires
            2 <= cnt <= 1000,
            0 <= sx <= cnt * (MAX_TIME as int),
            -cnt * (LN_ABS_BOUND as int) <= sy <= cnt * (LN_ABS_BOUND as int),
            MAX_TIME == 1_000_000_000i128,
            LN_ABS_BOUND == 100_000_000i128,
    ;
    assert(0 <= cnt * sxx <= 2_000_000_000_000_000_000_000_000int) by (nonlinear_arith)
        requires
            2 <= cnt <= 1000,
            0 <= sxx <= cnt * (MAX_TIME as int) * (MAX_TIME as int),
            MAX_TIME == 1_000_000_000i128,
    ;
    assert(0 <= sx * sx <= 2_000_000_000_000_000_000_000_000int) by (nonlinear_arith)
        requires
            2 <= cnt <= 1000,
            0 <= sx <= cnt * (MAX_TIME as int),
            MAX_TIME == 1_000_000_000i128,
    ;
    assert(0 <= cnt * syy <= 20_000_000_000_000_000_000_000int) by (nonlinear_arith)
        requires
            2 <= cnt <= 1000,
            0 <= syy <= cnt * (LN_ABS_BOUND as int) * (LN_ABS_BOUND as int),
            LN_ABS_BOUND == 100_000_000i128,
    ;
    assert(0 <= sy * sy <= 20_000_000_000_000_000_000_000int) by (nonlinear_arith)
        requires
            2 <= cnt <= 1000,
            -cnt * (LN_ABS_BOUND as int) <= sy <= cnt * (LN_ABS_BOUND as int),
            LN_ABS_BOUND == 100_000_000i128,
    ;
}

/// After dividing by d = a / R2_REDUCE + 1, the magnitude drops below the
/// reduction constant.
pub proof fn lemma_reduced_small(a: int, d: int)
    requires
        a >= 0,
        d == tdiv(a, R2_REDUCE as int) + 1,
    ensures
        d >= 1,
        0 <= tdiv(a, d) <= R2_REDUCE as int,
{
    lemma_tdiv_bounds(a, R2_REDUCE as int);
    lemma_tdiv_bounds(a, d);
    let q = a / R2_REDUCE as int;
    vstd::arithmetic::div_mod::lemma_fundamental_div_mod(a, R2_REDUCE as int);
    vstd::arithmetic::div_mod::lemma_mod_bound(a, R2_REDUCE as int);
    // a < (q + 1) * R2_REDUCE, so a / (q + 1) < R2_REDUCE.
    assert(a < d * (R2_REDUCE as int)) by (nonlinear_arith)
        requires
            a == (R2_REDUCE as int) * q + a % (R2_REDUCE as int),
            a % (R2_REDUCE as int) < R2_REDUCE as int,
            d == q + 1,
    ;
    vstd::arithmetic::div_mod::lemma_fundamental_div_mod(a, d);
    vstd::arithmetic::div_mod::lemma_mod_bound(a, d);
    assert(a / d <= R2_REDUCE as int) by (nonlinear_arith)
        requires
            a == d * (a / d) + a % d,
            a % d >= 0,
            a < d * (R2_REDUCE as int),
            d >= 1,
            a / d >= 0,
    ;
}

} // verus!
