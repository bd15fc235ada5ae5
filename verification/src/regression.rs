//! Ordinary least-squares over fixed-point points, and the algebra that
//! keeps its goodness-of-fit inside [0, 1]: a Cauchy-Schwarz inequality,
//! proved by induction and applied to the centered sums.

use vstd::prelude::*;
use crate::fixed::{lemma_tdiv_bounds, tdiv, tdiv_any};

verus! {

/// Sum of the x coordinates.
pub open spec fn sum_x(pts: Seq<(int, int)>) -> int
    decreases pts.len(),
{
    if pts.len() == 0 {
        0
    } else {
        sum_x(pts.drop_last()) + pts.last().0
    }
}

/// Sum of the y coordinates.
pub open spec fn sum_y(pts: Seq<(int, int)>) -> int
    decreases pts.len(),
{
    if pts.len() == 0 {
        0
    } else {
        sum_y(pts.drop_last()) + pts.last().1
    }
}

/// Sum of the products x * y.
pub open spec fn sum_xy(pts: Seq<(int, int)>) -> int
    decreases pts.len(),
{
    if pts.len() == 0 {
        0
    } else {
        sum_xy(pts.drop_last()) + pts.last().0 * pts.last().1
    }
}

/// Sum of the squares x * x.
pub open spec fn sum_xx(pts: Seq<(int, int)>) -> int
    decreases pts.len(),
{
    if pts.len() == 0 {
        0
    } else {
        sum_xx(pts.drop_last()) + pts.last().0 * pts.last().0
    }
}

/// Sum of the squares y * y.
pub open spec fn sum_yy(pts: Seq<(int, int)>) -> int
    decreases pts.len(),
{
    if pts.len() == 0 {
        0
    } else {
        sum_yy(pts.drop_last()) + pts.last().1 * pts.last().1
    }
}

/// n times the centered covariance: n * sum_xy - sum_x * sum_y.
pub open spec fn reg_num(pts: Seq<(int, int)>) -> int {
    pts.len() * sum_xy(pts) - sum_x(pts) * sum_y(pts)
}

/// n times the centered x variance: n * sum_xx - sum_x^2.
pub open spec fn reg_dxx(pts: Seq<(int, int)>) -> int {
    pts.len() * sum_xx(pts) - sum_x(pts) * sum_x(pts)
}

/// n times the centered y variance: n * sum_yy - sum_y^2.
pub open spec fn reg_dyy(pts: Seq<(int, int)>) -> int {
    pts.len() * sum_yy(pts) - sum_y(pts) * sum_y(pts)
}

/// The fixed-point regression slope, provided reg_dxx is positive.
pub open spec fn reg_slope(pts: Seq<(int, int)>) -> int {
    tdiv_any(reg_num(pts) * crate::SCALE as int, reg_dxx(pts))
}

/// Reduction divisor that keeps the squared numerator inside i128.
pub const R2_REDUCE: i128 = 1_000_000_000_000_000;

/// The reduced two-stage goodness-of-fit evaluation over the three
/// centered sums, clamped into [0, SCALE].
pub open spec fn r2_of(num: int, dxx: int, dyy: int) -> int {
    let a = if num >= 0 {
        num
    } else {
        -num
    };
    let d = tdiv(a, R2_REDUCE as int) + 1;
    let ar = tdiv(a, d);
    let dxxr = tdiv(dxx, d);
    let dyyr = tdiv(dyy, d);
    if dxxr <= 0 || dyyr <= 0 {
        0
    } else {
        let raw = tdiv(tdiv(ar * crate::SCALE as int, dxxr) * ar, dyyr);
        if raw > crate::SCALE as int {
            crate::SCALE as int
        } else {
            raw
        }
    }
}

/// The fixed-point coefficient of determination, in micro-units: the
/// square of the correlation, evaluated after scaling the three centered
/// sums down by a common divisor and clamped into [0, SCALE].
pub open spec fn reg_r2(pts: Seq<(int, int)>) -> int {
    r2_of(reg_num(pts), reg_dxx(pts), reg_dyy(pts))
}

} // verus!
