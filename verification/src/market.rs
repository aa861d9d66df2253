use vstd::prelude::*;

use crate::error::Error;
use crate::fixed::{mul_div, spec_underlying, SCALE, SECONDS_PER_YEAR};
use crate::interest::{
    fits, rates, rates_fit, spec_borrow_rate, spec_liquidity_rate, InterestRateModel,
};

verus! {

/// Per-asset reserve state. Balances are scaled: a supplier's or borrower's
/// real amount is their scaled balance times the respective index. Both
/// indices start at one (`SCALE` atomic parts) and only ever grow.
#[derive(Clone, Copy, Debug)]
pub struct Market {
    /// Sum of all suppliers' scaled deposits.
    pub scaled_liquidity_total: u128,
    /// Sum of all borrowers' scaled debts.
    pub scaled_debt_total: u128,
    /// Compounded-interest multiplier for deposits, in atomic parts.
    pub liquidity_index: u128,
    /// Compounded-interest multiplier for debts, in atomic parts.
    pub borrow_index: u128,
    /// Timestamp, in seconds, at which the indices were last compounded.
    pub indexes_last_updated: u64,
    pub interest_rate_model: InterestRateModel,
    /// Share of borrow interest withheld from suppliers, at most one.
    pub reserve_factor: u128,
    /// Weight of this asset's collateral toward the borrow limit.
    pub max_loan_to_value: u128,
    /// Weight of this asset's collateral toward the liquidation limit;
    /// at least `max_loan_to_value`, at most one.
    pub liquidation_threshold: u128,
    /// Premium a liquidator receives on seized collateral.
    pub liquidation_bonus: u128,
    /// Upper bound on the market's underlying liquidity, when set.
    pub deposit_cap: Option<u128>,
    pub deposit_enabled: bool,
    pub borrow_enabled: bool,
}

impl Market {
    /// The market invariant: thresholds ordered and at most one, rates in
    /// range, indices at least one.
    pub open spec fn wf(self) -> bool {
        &&& self.max_loan_to_value <= self.liquidation_threshold
        &&& self.liquidation_threshold <= SCALE
        &&& self.reserve_factor <= SCALE
        &&& self.interest_rate_model.wf()
        &&& self.liquidity_index >= SCALE
        &&& self.borrow_index >= SCALE
    }

}

/// What a caller supplies when initializing an asset; the ledger itself
/// starts both indices at one and the totals at zero.
#[derive(Clone, Copy, Debug)]
pub struct AssetParams {
    pub interest_rate_model: InterestRateModel,
    pub reserve_factor: u128,
    pub max_loan_to_value: u128,
    pub liquidation_threshold: u128,
    pub liquidation_bonus: u128,
    pub deposit_cap: Option<u128>,
    pub deposit_enabled: bool,
    pub borrow_enabled: bool,
}

impl AssetParams {
    /// The parameter half of the market invariant.
    pub open spec fn valid(self) -> bool {
        &&& self.max_loan_to_value <= self.liquidation_threshold
        &&& self.liquidation_threshold <= SCALE
        &&& self.reserve_factor <= SCALE
        &&& self.interest_rate_model.wf()
    }
}

/// The market a fresh asset starts as: indices at one, nothing supplied or
/// borrowed yet.
pub open spec fn spec_new_market(params: AssetParams, now: u64) -> Market {
    Market {
        scaled_liquidity_total: 0,
        scaled_debt_total: 0,
        liquidity_index: SCALE,
        borrow_index: SCALE,
        indexes_last_updated: now,
        interest_rate_model: params.interest_rate_model,
        reserve_factor: params.reserve_factor,
        max_loan_to_value: params.max_loan_to_value,
        liquidation_threshold: params.liquidation_threshold,
        liquidation_bonus: params.liquidation_bonus,
        deposit_cap: params.deposit_cap,
        deposit_enabled: params.deposit_enabled,
        borrow_enabled: params.borrow_enabled,
    }
}

/// The market's utilization: underlying debt over underlying liquidity, zero
/// when there is no liquidity.
pub open spec fn spec_utilization(m: Market) -> int {
    let debt = spec_underlying(m.scaled_debt_total as int, m.borrow_index as int);
    let liquidity = spec_underlying(m.scaled_liquidity_total as int, m.liquidity_index as int);
    if liquidity == 0 {
        0
    } else {
        debt * SCALE / liquidity
    }
}

/// Whether the utilization computation stays in range.
pub open spec fn utilization_fits(m: Market) -> bool {
    &&& fits(m.scaled_debt_total * m.borrow_index)
    &&& fits(m.scaled_liquidity_total * m.liquidity_index)
    &&& fits(spec_underlying(m.scaled_debt_total as int, m.borrow_index as int) * SCALE)
}

/// One compounding step: the index grows by `rate * elapsed / SECONDS_PER_YEAR`.
pub open spec fn spec_compounded(index: int, rate: int, elapsed: int) -> int {
    index * (SCALE + rate * elapsed / (SECONDS_PER_YEAR as int)) / (SCALE as int)
}

/// The market's borrow rate at its current utilization.
pub open spec fn spec_market_borrow_rate(m: Market) -> int {
    spec_borrow_rate(m.interest_rate_model, spec_utilization(m))
}

/// The market's liquidity rate at its current utilization.
pub open spec fn spec_market_liquidity_rate(m: Market) -> int {
    spec_liquidity_rate(spec_market_borrow_rate(m), spec_utilization(m), m.reserve_factor as int)
}

/// The borrow index the market carries once accrued to `now`; unchanged when
/// no time has passed.
pub open spec fn spec_accrued_borrow_index(m: Market, now: u64) -> int {
    if now == m.indexes_last_updated {
        m.borrow_index as int
    } else {
        spec_compounded(m.borrow_index as int, spec_market_borrow_rate(m), now - m.indexes_last_updated)
    }
}

/// The liquidity index the market carries once accrued to `now`.
pub open spec fn spec_accrued_liquidity_index(m: Market, now: u64) -> int {
    if now == m.indexes_last_updated {
        m.liquidity_index as int
    } else {
        spec_compounded(
            m.liquidity_index as int,
            spec_market_liquidity_rate(m),
            now - m.indexes_last_updated,
        )
    }
}

/// Whether every intermediate of accruing `m` to `now` stays in range.
pub open spec fn accrual_fits(m: Market, now: u64) -> bool {
    let elapsed = now - m.indexes_last_updated;
    let utilization = spec_utilization(m);
    let br = spec_market_borrow_rate(m);
    let lr = spec_market_liquidity_rate(m);
    now == m.indexes_last_updated || {
        &&& utilization_fits(m)
        &&& rates_fit(m.interest_rate_model, utilization as u128, m.reserve_factor)
        &&& fits(br * elapsed)
        &&& fits(lr * elapsed)
        &&& fits(SCALE + br * elapsed / (SECONDS_PER_YEAR as int))
        &&& fits(SCALE + lr * elapsed / (SECONDS_PER_YEAR as int))
        &&& fits(m.borrow_index * (SCALE + br * elapsed / (SECONDS_PER_YEAR as int)))
        &&& fits(m.liquidity_index * (SCALE + lr * elapsed / (SECONDS_PER_YEAR as int)))
    }
}

/// The market as it stands once accrued to `now`: both indices compounded,
/// the timestamp advanced, everything else untouched.
pub open spec fn spec_accrued_market(m: Market, now: u64) -> Market {
    Market {
        liquidity_index: spec_accrued_liquidity_index(m, now) as u128,
        borrow_index: spec_accrued_borrow_index(m, now) as u128,
        indexes_last_updated: now,
        ..m
    }
}

/// An amount converted through an index and then valued at a price is never
/// negative.
pub proof fn lemma_underlying_value_nonneg(scaled: int, index: int, price: int)
    requires
        scaled >= 0,
        index >= 0,
        price >= 0,
    ensures
        spec_underlying(scaled, index) >= 0,
        spec_underlying(scaled, index) * price / (SCALE as int) >= 0,
{
    vstd::arithmetic::mul::lemma_mul_nonnegative(scaled, index);
    vstd::arithmetic::div_mod::lemma_div_pos_is_pos(scaled * index, SCALE as int);
    vstd::arithmetic::mul::lemma_mul_nonnegative(spec_underlying(scaled, index), price);
    vstd::arithmetic::div_mod::lemma_div_pos_is_pos(
        spec_underlying(scaled, index) * price,
        SCALE as int,
    );
}

/// Compounding never shrinks an index: the growth factor is at least one.
pub proof fn lemma_compounded_nondecreasing(index: int, rate: int, elapsed: int)
    requires
        index >= 0,
        rate >= 0,
        elapsed >= 0,
    ensures
        spec_compounded(index, rate, elapsed) >= index,
{
    vstd::arithmetic::mul::lemma_mul_nonnegative(rate, elapsed);
    vstd::arithmetic::div_mod::lemma_div_pos_is_pos(rate * elapsed, SECONDS_PER_YEAR as int);
    let factor = SCALE + rate * elapsed / (SECONDS_PER_YEAR as int);
    vstd::arithmetic::mul::lemma_mul_inequality(SCALE as int, factor, index);
    vstd::arithmetic::mul::lemma_mul_is_commutative(index, factor);
    vstd::arithmetic::mul::lemma_mul_is_commutative(index, SCALE as int);
    vstd::arithmetic::div_mod::lemma_div_is_ordered(
        index * (SCALE as int),
        index * factor,
        SCALE as int,
    );
    vstd::arithmetic::div_mod::lemma_div_by_multiple(index, SCALE as int);
}

/// The borrow rate is never negative.
pub proof fn lemma_borrow_rate_nonneg(irm: InterestRateModel, utilization: int)
    requires
        irm.wf(),
        utilization >= 0,
    ensures
        spec_borrow_rate(irm, utilization) >= 0,
{
    if utilization < irm.optimal_utilization_rate {
        vstd::arithmetic::mul::lemma_mul_nonnegative(irm.slope_1 as int, utilization);
        vstd::arithmetic::div_mod::lemma_div_pos_is_pos(
            irm.slope_1 * utilization,
            irm.optimal_utilization_rate as int,
        );
    } else if irm.optimal_utilization_rate < SCALE {
        vstd::arithmetic::mul::lemma_mul_nonnegative(
            irm.slope_2 as int,
            utilization - irm.optimal_utilization_rate,
        );
        vstd::arithmetic::div_mod::lemma_div_pos_is_pos(
            irm.slope_2 * (utilization - irm.optimal_utilization_rate),
            SCALE - irm.optimal_utilization_rate,
        );
    }
}

/// The liquidity rate is never negative.
pub proof fn lemma_liquidity_rate_nonneg(borrow_rate: int, utilization: int, reserve_factor: int)
    requires
        borrow_rate >= 0,
        utilization >= 0,
        reserve_factor <= SCALE,
    ensures
        spec_liquidity_rate(borrow_rate, utilization, reserve_factor) >= 0,
{
    vstd::arithmetic::mul::lemma_mul_nonnegative(borrow_rate, utilization);
    vstd::arithmetic::div_mod::lemma_div_pos_is_pos(borrow_rate * utilization, SCALE as int);
    vstd::arithmetic::mul::lemma_mul_nonnegative(
        borrow_rate * utilization / (SCALE as int),
        SCALE - reserve_factor,
    );
    vstd::arithmetic::div_mod::lemma_div_pos_is_pos(
        (borrow_rate * utilization / (SCALE as int)) * (SCALE - reserve_factor),
        SCALE as int,
    );
}

/// The utilization is never negative.
pub proof fn lemma_utilization_nonneg(m: Market)
    ensures
        spec_utilization(m) >= 0,
{
    let debt = spec_underlying(m.scaled_debt_total as int, m.borrow_index as int);
    let liquidity = spec_underlying(m.scaled_liquidity_total as int, m.liquidity_index as int);
    vstd::arithmetic::mul::lemma_mul_nonnegative(m.scaled_debt_total as int, m.borrow_index as int);
    vstd::arithmetic::div_mod::lemma_div_pos_is_pos(
        m.scaled_debt_total * m.borrow_index,
        SCALE as int,
    );
    if liquidity != 0 {
        vstd::arithmetic::mul::lemma_mul_nonnegative(
            m.scaled_liquidity_total as int,
            m.liquidity_index as int,
        );
        vstd::arithmetic::div_mod::lemma_div_pos_is_pos(
            m.scaled_liquidity_total * m.liquidity_index,
            SCALE as int,
        );
        vstd::arithmetic::mul::lemma_mul_nonnegative(debt, SCALE as int);
        vstd::arithmetic::div_mod::lemma_div_pos_is_pos(debt * SCALE, liquidity);
    }
}

/// The pair `(liquidity_index, borrow_index)` the market carries once
/// compounded to `now`, without touching the market. The only failure is an
/// intermediate exceeding the range, and exactly then. Indices never
/// decrease.
pub fn accrued_indices(m: &Market, now: u64) -> (r: Result<(u128, u128), Error>)
    requires
        m.wf(),
        now >= m.indexes_last_updated,
    ensures
        r is Ok <==> accrual_fits(*m, now),
        r is Ok ==> r->Ok_0.0 == spec_accrued_liquidity_index(*m, now) && r->Ok_0.1
            == spec_accrued_borrow_index(*m, now),
        r is Ok ==> r->Ok_0.0 >= m.liquidity_index && r->Ok_0.1 >= m.borrow_index,
        r is Err ==> r->Err_0 == Error::Overflow,
{
    if now == m.indexes_last_updated {
        return Ok((m.liquidity_index, m.borrow_index));
    }
    let elapsed: u64 = now - m.indexes_last_updated;
    let debt = match mul_div(m.scaled_debt_total, m.borrow_index, SCALE) {
        Ok(v) => v,
        Err(e) => {
            return Err(e);
        },
    };
    let liquidity = match mul_div(m.scaled_liquidity_total, m.liquidity_index, SCALE) {
        Ok(v) => v,
        Err(e) => {
            return Err(e);
        },
    };
    let utilization = if liquidity == 0 {
        0u128
    } else {
        match mul_div(debt, SCALE, liquidity) {
            Ok(v) => v,
            Err(e) => {
                return Err(e);
            },
        }
    };
    proof {
        lemma_utilization_nonneg(*m);
    }
    let (borrow_rate, liquidity_rate) = match rates(
        &m.interest_rate_model,
        utilization,
        m.reserve_factor,
    ) {
        Ok(v) => v,
        Err(e) => {
            return Err(e);
        },
    };
    let borrow_growth = match mul_div(borrow_rate, elapsed as u128, SECONDS_PER_YEAR) {
        Ok(v) => v,
        Err(e) => {
            return Err(e);
        },
    };
    let liquidity_growth = match mul_div(liquidity_rate, elapsed as u128, SECONDS_PER_YEAR) {
        Ok(v) => v,
        Err(e) => {
            return Err(e);
        },
    };
    let borrow_factor = match SCALE.checked_add(borrow_growth) {
        Some(v) => v,
        None => {
            return Err(Error::Overflow);
        },
    };
    let liquidity_factor = match SCALE.checked_add(liquidity_growth) {
        Some(v) => v,
        None => {
            return Err(Error::Overflow);
        },
    };
    let new_borrow_index = match mul_div(m.borrow_index, borrow_factor, SCALE) {
        Ok(v) => v,
        Err(e) => {
            return Err(e);
        },
    };
    let new_liquidity_index = match mul_div(m.liquidity_index, liquidity_factor, SCALE) {
        Ok(v) => v,
        Err(e) => {
            return Err(e);
        },
    };
    proof {
        lemma_borrow_rate_nonneg(m.interest_rate_model, spec_utilization(*m));
        lemma_liquidity_rate_nonneg(
            spec_market_borrow_rate(*m),
            spec_utilization(*m),
            m.reserve_factor as int,
        );
        lemma_compounded_nondecreasing(
            m.borrow_index as int,
            spec_market_borrow_rate(*m),
            elapsed as int,
        );
        lemma_compounded_nondecreasing(
            m.liquidity_index as int,
            spec_market_liquidity_rate(*m),
            elapsed as int,
        );
    }
    Ok((new_liquidity_index, new_borrow_index))
}

/// Accrual never shrinks either index of a well-formed market.
pub proof fn lemma_accrued_nondecreasing(m: Market, now: u64)
    requires
        m.wf(),
        m.indexes_last_updated <= now,
    ensures
        spec_accrued_liquidity_index(m, now) >= m.liquidity_index,
        spec_accrued_borrow_index(m, now) >= m.borrow_index,
{
    if now != m.indexes_last_updated {
        lemma_utilization_nonneg(m);
        lemma_borrow_rate_nonneg(m.interest_rate_model, spec_utilization(m));
        lemma_liquidity_rate_nonneg(
            spec_market_borrow_rate(m),
            spec_utilization(m),
            m.reserve_factor as int,
        );
        lemma_compounded_nondecreasing(
            m.borrow_index as int,
            spec_market_borrow_rate(m),
            now - m.indexes_last_updated,
        );
        lemma_compounded_nondecreasing(
            m.liquidity_index as int,
            spec_market_liquidity_rate(m),
            now - m.indexes_last_updated,
        );
    }
}

/// Compounds both indices of `m` up to `now`, in place. Idempotent when no
/// time has passed; on any range failure the market is left untouched. On
/// success the indices follow the exact compounding formulas and never
/// decrease.
pub fn accrue(m: &mut Market, now: u64) -> (r: Result<(), Error>)
    requires
        old(m).wf(),
        now >= old(m).indexes_last_updated,
    ensures
        r is Ok <==> accrual_fits(*old(m), now),
        r is Ok ==> *final(m) == spec_accrued_market(*old(m), now),
        r is Ok ==> final(m).wf() && final(m).liquidity_index >= old(m).liquidity_index
            && final(m).borrow_index >= old(m).borrow_index,
        r is Err ==> *final(m) == *old(m) && r->Err_0 == Error::Overflow,
{
    let (new_liquidity_index, new_borrow_index) = match accrued_indices(m, now) {
        Ok(v) => v,
        Err(e) => {
            return Err(e);
        },
    };
    m.liquidity_index = new_liquidity_index;
    m.borrow_index = new_borrow_index;
    m.indexes_last_updated = now;
    Ok(())
}

} // verus!
