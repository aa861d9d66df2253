use vstd::prelude::*;

use crate::error::Error;
use crate::fixed::{mul_div, SCALE};

verus! {

/// Whether a spec-level quantity fits the arithmetic range of the executable
/// code; every fixed-point quantity here is non-negative.
pub open spec fn fits(x: int) -> bool {
    x <= u128::MAX
}

/// A two-slope interest curve: below the optimal utilization the borrow rate
/// climbs from `base` along `slope_1`; above it, along the steeper `slope_2`.
/// All four fields are fixed-point decimals in atomic parts.
#[derive(Clone, Copy, Debug, PartialEq, Eq, Structural)]
pub struct InterestRateModel {
    pub optimal_utilization_rate: u128,
    pub base: u128,
    pub slope_1: u128,
    pub slope_2: u128,
}

impl InterestRateModel {
    /// The optimal utilization is a share of the whole, so at most one.
    pub open spec fn wf(self) -> bool {
        self.optimal_utilization_rate <= SCALE
    }
}

/// The borrow rate the curve assigns to a utilization, as an exact
/// floor-division formula. Below the optimal point the rate is
/// `base + slope_1 * utilization / optimal`; at or above it,
/// `base + slope_1 + slope_2 * (utilization - optimal) / (1 - optimal)`;
/// when the optimal point is one itself, the rate tops out at
/// `base + slope_1`.
pub open spec fn spec_borrow_rate(m: InterestRateModel, utilization: int) -> int {
    if utilization < m.optimal_utilization_rate {
        m.base + m.slope_1 * utilization / (m.optimal_utilization_rate as int)
    } else if m.optimal_utilization_rate < SCALE {
        m.base + m.slope_1 + m.slope_2 * (utilization - m.optimal_utilization_rate) / (SCALE
            - m.optimal_utilization_rate)
    } else {
        m.base + m.slope_1
    }
}

/// The rate paid to suppliers: the borrow rate, scaled by utilization and by
/// the share not kept as reserves.
pub open spec fn spec_liquidity_rate(borrow_rate: int, utilization: int, reserve_factor: int) -> int {
    (borrow_rate * utilization / (SCALE as int)) * ((SCALE as int) - reserve_factor) / (
    SCALE as int)
}

/// Whether every intermediate of the borrow-rate computation stays in range.
pub open spec fn borrow_rate_fits(m: InterestRateModel, utilization: u128) -> bool {
    if utilization < m.optimal_utilization_rate {
        fits(m.slope_1 * utilization) && fits(spec_borrow_rate(m, utilization as int))
    } else if m.optimal_utilization_rate < SCALE {
        fits(m.slope_2 * (utilization - m.optimal_utilization_rate)) && fits(
            spec_borrow_rate(m, utilization as int),
        )
    } else {
        fits(spec_borrow_rate(m, utilization as int))
    }
}

/// Whether every intermediate of the full rate computation stays in range.
pub open spec fn rates_fit(m: InterestRateModel, utilization: u128, reserve_factor: u128) -> bool {
    let br = spec_borrow_rate(m, utilization as int);
    &&& borrow_rate_fits(m, utilization)
    &&& fits(br * utilization)
    &&& fits((br * utilization / (SCALE as int)) * (SCALE - reserve_factor))
}

/// Maps a utilization to the pair `(borrow_rate, liquidity_rate)`. Purely
/// arithmetic: the only failure is an intermediate exceeding the range, and
/// exactly then.
pub fn rates(m: &InterestRateModel, utilization: u128, reserve_factor: u128) -> (r: Result<
    (u128, u128),
    Error,
>)
    requires
        m.wf(),
        reserve_factor <= SCALE,
    ensures
        r is Ok <==> rates_fit(*m, utilization, reserve_factor),
        r is Ok ==> r->Ok_0.0 == spec_borrow_rate(*m, utilization as int),
        r is Ok ==> r->Ok_0.1 == spec_liquidity_rate(
            spec_borrow_rate(*m, utilization as int),
            utilization as int,
            reserve_factor as int,
        ),
        r is Err ==> r->Err_0 == Error::Overflow,
{
    let borrow_rate: u128 = if utilization < m.optimal_utilization_rate {
        let steep = mul_div(m.slope_1, utilization, m.optimal_utilization_rate)?;
        match m.base.checked_add(steep) {
            Some(v) => v,
            None => {
                return Err(Error::Overflow);
            },
        }
    } else if m.optimal_utilization_rate < SCALE {
        let steep = mul_div(
            m.slope_2,
            utilization - m.optimal_utilization_rate,
            SCALE - m.optimal_utilization_rate,
        )?;
        let kink = match m.base.checked_add(m.slope_1) {
            Some(v) => v,
            None => {
                return Err(Error::Overflow);
            },
        };
        match kink.checked_add(steep) {
            Some(v) => v,
            None => {
                return Err(Error::Overflow);
            },
        }
    } else {
        match m.base.checked_add(m.slope_1) {
            Some(v) => v,
            None => {
                return Err(Error::Overflow);
            },
        }
    };
    let utilized = mul_div(borrow_rate, utilization, SCALE)?;
    let liquidity_rate = mul_div(utilized, SCALE - reserve_factor, SCALE)?;
    Ok((borrow_rate, liquidity_rate))
}

} // verus!
