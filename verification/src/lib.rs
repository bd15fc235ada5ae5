//! Non-compartmental pharmacokinetic (NCA) analysis over exact fixed-point
//! arithmetic: AUC/AUMC integration, terminal-phase regression, derived
//! parameters, population aggregation, stratification and covariate analysis.

use vstd::prelude::*;

pub mod approx;
pub mod covariate;
pub mod errors;
pub mod fixed;
pub mod math;
pub mod models;
pub mod auc;
pub mod regression;
pub mod parameters;
pub mod parser;
pub mod sorting;
pub mod stats;
pub mod nca;
pub mod population;
pub mod stratification;

verus! {

/// All quantities (times, concentrations, doses, derived parameters) are held
/// in fixed-point micro-units: the stored integer is the real value times
/// `SCALE`.
pub const SCALE: i128 = 1_000_000;

} // verus!
