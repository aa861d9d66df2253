use vstd::hash_map::StringHashMap;
use vstd::prelude::*;

use crate::account::Position;
use crate::error::Error;
use crate::fixed::{mul_div, spec_underlying, SCALE};
use crate::interest::fits;
use crate::market::{
    accrual_fits, accrued_indices, spec_accrued_borrow_index, spec_accrued_liquidity_index, Market,
};

verus! {

/// Whether a user may borrow or must be liquidated. A user with no debt has
/// no health factor at all; one with debt carries the two ratios of
/// risk-weighted collateral value to debt value, in atomic parts, where a
/// value below `SCALE` signals a breach.
#[derive(Clone, Copy, Debug, PartialEq, Eq, Structural)]
pub enum HealthStatus {
    NotBorrowing,
    Borrowing { max_ltv_hf: u128, liq_threshold_hf: u128 },
}

/// A computed snapshot of a user's standing across all markets, in the base
/// currency: total collateral value, total debt value, the two risk-weighted
/// collateral values, and the resulting status.
#[derive(Clone, Copy, Debug, PartialEq, Eq, Structural)]
pub struct UserPositionResponse {
    pub total_collateral_value: u128,
    pub total_debt_value: u128,
    pub weighted_max_ltv_collateral: u128,
    pub weighted_liquidation_threshold_collateral: u128,
    pub health_status: HealthStatus,
}

/// A position is liquidatable exactly when it is borrowing and its
/// liquidation-threshold health factor is below one.
pub open spec fn spec_liquidatable(status: HealthStatus) -> bool {
    match status {
        HealthStatus::NotBorrowing => false,
        HealthStatus::Borrowing { liq_threshold_hf, .. } => liq_threshold_hf < SCALE,
    }
}

/// Decides [`spec_liquidatable`] of a computed status.
pub fn is_liquidatable(status: &HealthStatus) -> (r: bool)
    ensures
        r == spec_liquidatable(*status),
{
    match status {
        HealthStatus::NotBorrowing => false,
        HealthStatus::Borrowing { liq_threshold_hf, .. } => *liq_threshold_hf < SCALE,
    }
}

/// A borrow or withdraw is blocked exactly when the account would be
/// borrowing with its max-loan-to-value health factor below one.
pub open spec fn blocks_borrowing(status: HealthStatus) -> bool {
    match status {
        HealthStatus::NotBorrowing => false,
        HealthStatus::Borrowing { max_ltv_hf, .. } => max_ltv_hf < SCALE,
    }
}

/// Whether any entry of the account carries debt; an account without debt
/// needs no health check at all.
pub open spec fn spec_has_debt(ps: Seq<Position>) -> bool {
    exists|i: int| 0 <= i < ps.len() && ps[i].debt_scaled > 0
}

/// Decides [`spec_has_debt`] by linear search.
pub fn has_debt(ps: &Vec<Position>) -> (r: bool)
    ensures
        r == spec_has_debt(ps@),
{
    let mut i: usize = 0;
    while i < ps.len()
        invariant
            i <= ps@.len(),
            forall|j: int| 0 <= j < i ==> ps@[j].debt_scaled == 0,
        decreases ps@.len() - i,
    {
        if ps[i].debt_scaled > 0 {
            return true;
        }
        i = i + 1;
    }
    false
}

/// Whether valuing the entry needs an oracle price: it holds counted
/// collateral or any debt.
pub open spec fn needs_price(p: Position) -> bool {
    (p.collateral_scaled > 0 && p.enabled_as_collateral) || p.debt_scaled > 0
}

/// Every entry that needs a price has one.
pub open spec fn prices_present(ps: Seq<Position>, prices: Map<Seq<char>, u128>) -> bool {
    forall|i: int| 0 <= i < ps.len() && needs_price(#[trigger] ps[i]) ==> prices.contains_key(
        ps[i].denom@,
    )
}

/// The entry's collateral value in base currency: the real collateral amount
/// under the accrued liquidity index, at the oracle price; zero when the
/// collateral is absent or not enabled.
pub open spec fn pos_collateral_value(
    p: Position,
    markets: Map<Seq<char>, Market>,
    prices: Map<Seq<char>, u128>,
    now: u64,
) -> int {
    let li = spec_accrued_liquidity_index(markets[p.denom@], now);
    if p.collateral_scaled > 0 && p.enabled_as_collateral {
        spec_underlying(p.collateral_scaled as int, li) * prices[p.denom@] / (SCALE as int)
    } else {
        0
    }
}

/// The entry's collateral value weighted by its market's maximum loan to
/// value.
pub open spec fn pos_ltv_weighted(
    p: Position,
    markets: Map<Seq<char>, Market>,
    prices: Map<Seq<char>, u128>,
    now: u64,
) -> int {
    if p.collateral_scaled > 0 && p.enabled_as_collateral {
        pos_collateral_value(p, markets, prices, now) * markets[p.denom@].max_loan_to_value / (
        SCALE as int)
    } else {
        0
    }
}

/// The entry's collateral value weighted by its market's liquidation
/// threshold.
pub open spec fn pos_liq_weighted(
    p: Position,
    markets: Map<Seq<char>, Market>,
    prices: Map<Seq<char>, u128>,
    now: u64,
) -> int {
    if p.collateral_scaled > 0 && p.enabled_as_collateral {
        pos_collateral_value(p, markets, prices, now) * markets[p.denom@].liquidation_threshold / (
        SCALE as int)
    } else {
        0
    }
}

/// The entry's debt value in base currency: the real debt amount under the
/// accrued borrow index, at the oracle price; zero when there is no debt.
pub open spec fn pos_debt_value(
    p: Position,
    markets: Map<Seq<char>, Market>,
    prices: Map<Seq<char>, u128>,
    now: u64,
) -> int {
    let bi = spec_accrued_borrow_index(markets[p.denom@], now);
    if p.debt_scaled > 0 {
        spec_underlying(p.debt_scaled as int, bi) * prices[p.denom@] / (SCALE as int)
    } else {
        0
    }
}

/// Sum of [`pos_collateral_value`] over the account.
pub open spec fn total_collateral_value(
    ps: Seq<Position>,
    markets: Map<Seq<char>, Market>,
    prices: Map<Seq<char>, u128>,
    now: u64,
) -> int
    decreases ps.len(),
{
    if ps.len() == 0 {
        0
    } else {
        total_collateral_value(ps.drop_last(), markets, prices, now) + pos_collateral_value(
            ps.last(),
            markets,
            prices,
            now,
        )
    }
}

/// Sum of [`pos_debt_value`] over the account.
pub open spec fn total_debt_value(
    ps: Seq<Position>,
    markets: Map<Seq<char>, Market>,
    prices: Map<Seq<char>, u128>,
    now: u64,
) -> int
    decreases ps.len(),
{
    if ps.len() == 0 {
        0
    } else {
        total_debt_value(ps.drop_last(), markets, prices, now) + pos_debt_value(
            ps.last(),
            markets,
            prices,
            now,
        )
    }
}

/// Sum of [`pos_ltv_weighted`] over the account.
pub open spec fn total_ltv_weighted(
    ps: Seq<Position>,
    markets: Map<Seq<char>, Market>,
    prices: Map<Seq<char>, u128>,
    now: u64,
) -> int
    decreases ps.len(),
{
    if ps.len() == 0 {
        0
    } else {
        total_ltv_weighted(ps.drop_last(), markets, prices, now) + pos_ltv_weighted(
            ps.last(),
            markets,
            prices,
            now,
        )
    }
}

/// Sum of [`pos_liq_weighted`] over the account.
pub open spec fn total_liq_weighted(
    ps: Seq<Position>,
    markets: Map<Seq<char>, Market>,
    prices: Map<Seq<char>, u128>,
    now: u64,
) -> int
    decreases ps.len(),
{
    if ps.len() == 0 {
        0
    } else {
        total_liq_weighted(ps.drop_last(), markets, prices, now) + pos_liq_weighted(
            ps.last(),
            markets,
            prices,
            now,
        )
    }
}

/// Whether valuing the one entry stays in range, its market's accrual
/// included.
pub open spec fn pos_fits(
    p: Position,
    markets: Map<Seq<char>, Market>,
    prices: Map<Seq<char>, u128>,
    now: u64,
) -> bool {
    let m = markets[p.denom@];
    let li = spec_accrued_liquidity_index(m, now);
    let bi = spec_accrued_borrow_index(m, now);
    let c = spec_underlying(p.collateral_scaled as int, li);
    let cv = pos_collateral_value(p, markets, prices, now);
    let d = spec_underlying(p.debt_scaled as int, bi);
    &&& accrual_fits(m, now)
    &&& (p.collateral_scaled > 0 && p.enabled_as_collateral ==> {
        &&& fits(p.collateral_scaled * li)
        &&& fits(c * prices[p.denom@])
        &&& fits(cv * m.max_loan_to_value)
        &&& fits(cv * m.liquidation_threshold)
    })
    &&& (p.debt_scaled > 0 ==> {
        &&& fits(p.debt_scaled * bi)
        &&& fits(d * prices[p.denom@])
    })
}

/// Whether valuing every entry stays in range.
pub open spec fn all_pos_fit(
    ps: Seq<Position>,
    markets: Map<Seq<char>, Market>,
    prices: Map<Seq<char>, u128>,
    now: u64,
) -> bool {
    forall|i: int| 0 <= i < ps.len() ==> pos_fits(#[trigger] ps[i], markets, prices, now)
}

/// Whether the whole snapshot computation stays in range: every entry's
/// valuation, the four running totals, and the final health-factor ratios.
pub open spec fn health_computable(
    ps: Seq<Position>,
    markets: Map<Seq<char>, Market>,
    prices: Map<Seq<char>, u128>,
    now: u64,
) -> bool {
    let dv = total_debt_value(ps, markets, prices, now);
    &&& all_pos_fit(ps, markets, prices, now)
    &&& fits(total_collateral_value(ps, markets, prices, now))
    &&& fits(dv)
    &&& fits(total_ltv_weighted(ps, markets, prices, now))
    &&& fits(total_liq_weighted(ps, markets, prices, now))
    &&& (dv > 0 ==> fits(total_ltv_weighted(ps, markets, prices, now) * SCALE) && fits(
        total_liq_weighted(ps, markets, prices, now) * SCALE,
    ))
}

/// The status the snapshot computation assigns: not borrowing when the debt
/// value is zero, else the two weighted-value-over-debt ratios.
pub open spec fn spec_health_status(
    ps: Seq<Position>,
    markets: Map<Seq<char>, Market>,
    prices: Map<Seq<char>, u128>,
    now: u64,
) -> HealthStatus {
    let dv = total_debt_value(ps, markets, prices, now);
    if dv == 0 {
        HealthStatus::NotBorrowing
    } else {
        HealthStatus::Borrowing {
            max_ltv_hf: (total_ltv_weighted(ps, markets, prices, now) * SCALE / dv) as u128,
            liq_threshold_hf: (total_liq_weighted(ps, markets, prices, now) * SCALE / dv) as u128,
        }
    }
}

/// Requirements the ledger guarantees of an account before a snapshot is
/// taken: every entry's market exists, is well formed, and has not been left
/// behind `now`.
pub open spec fn markets_cover(
    ps: Seq<Position>,
    markets: Map<Seq<char>, Market>,
    now: u64,
) -> bool {
    forall|i: int| 0 <= i < ps.len() ==> {
        &&& markets.contains_key((#[trigger] ps[i]).denom@)
        &&& markets[ps[i].denom@].wf()
        &&& markets[ps[i].denom@].indexes_last_updated <= now
    }
}

/// Each entry's valuation terms are never negative.
pub proof fn lemma_pos_values_nonneg(
    p: Position,
    markets: Map<Seq<char>, Market>,
    prices: Map<Seq<char>, u128>,
    now: u64,
)
    requires
        markets.contains_key(p.denom@),
        markets[p.denom@].wf(),
        markets[p.denom@].indexes_last_updated <= now,
    ensures
        pos_collateral_value(p, markets, prices, now) >= 0,
        pos_debt_value(p, markets, prices, now) >= 0,
        pos_ltv_weighted(p, markets, prices, now) >= 0,
        pos_liq_weighted(p, markets, prices, now) >= 0,
{
    let m = markets[p.denom@];
    let li = spec_accrued_liquidity_index(m, now);
    let bi = spec_accrued_borrow_index(m, now);
    crate::market::lemma_accrued_nondecreasing(m, now);
    if p.collateral_scaled > 0 && p.enabled_as_collateral {
        crate::market::lemma_underlying_value_nonneg(
            p.collateral_scaled as int,
            li,
            prices[p.denom@] as int,
        );
        let cv = pos_collateral_value(p, markets, prices, now);
        vstd::arithmetic::mul::lemma_mul_nonnegative(cv, m.max_loan_to_value as int);
        vstd::arithmetic::div_mod::lemma_div_pos_is_pos(
            cv * m.max_loan_to_value,
            SCALE as int,
        );
        vstd::arithmetic::mul::lemma_mul_nonnegative(cv, m.liquidation_threshold as int);
        vstd::arithmetic::div_mod::lemma_div_pos_is_pos(
            cv * m.liquidation_threshold,
            SCALE as int,
        );
    }
    if p.debt_scaled > 0 {
        crate::market::lemma_underlying_value_nonneg(
            p.debt_scaled as int,
            bi,
            prices[p.denom@] as int,
        );
    }
}

/// The four running totals are never negative.
pub proof fn lemma_totals_nonneg(
    ps: Seq<Position>,
    markets: Map<Seq<char>, Market>,
    prices: Map<Seq<char>, u128>,
    now: u64,
)
    requires
        markets_cover(ps, markets, now),
    ensures
        total_collateral_value(ps, markets, prices, now) >= 0,
        total_debt_value(ps, markets, prices, now) >= 0,
        total_ltv_weighted(ps, markets, prices, now) >= 0,
        total_liq_weighted(ps, markets, prices, now) >= 0,
    decreases ps.len(),
{
    if ps.len() > 0 {
        lemma_totals_nonneg(ps.drop_last(), markets, prices, now);
        lemma_pos_values_nonneg(ps.last(), markets, prices, now);
    }
}

/// A prefix's totals never exceed the whole account's totals: the terms are
/// non-negative.
pub proof fn lemma_totals_prefix_le(
    ps: Seq<Position>,
    markets: Map<Seq<char>, Market>,
    prices: Map<Seq<char>, u128>,
    now: u64,
    i: int,
)
    requires
        0 <= i <= ps.len(),
        markets_cover(ps, markets, now),
    ensures
        total_collateral_value(ps.take(i), markets, prices, now) <= total_collateral_value(
            ps,
            markets,
            prices,
            now,
        ),
        total_debt_value(ps.take(i), markets, prices, now) <= total_debt_value(
            ps,
            markets,
            prices,
            now,
        ),
        total_ltv_weighted(ps.take(i), markets, prices, now) <= total_ltv_weighted(
            ps,
            markets,
            prices,
            now,
        ),
        total_liq_weighted(ps.take(i), markets, prices, now) <= total_liq_weighted(
            ps,
            markets,
            prices,
            now,
        ),
    decreases ps.len() - i,
{
    if i == ps.len() {
        assert(ps.take(i) =~= ps);
    } else {
        lemma_totals_prefix_le(ps, markets, prices, now, i + 1);
        assert(ps.take(i + 1).drop_last() =~= ps.take(i));
        assert(ps.take(i + 1).last() == ps[i]);
        lemma_pos_values_nonneg(ps[i], markets, prices, now);
    }
}

/// Takes the snapshot of an account at `now` against the markets and the
/// stored prices, without touching either. Fails with `NoPriceSource`
/// exactly when some entry that needs a price has none, and with `Overflow`
/// exactly when, all prices present, some intermediate exceeds the range. On
/// success every reported value follows the exact summation formulas.
pub fn compute_position(
    ps: &Vec<Position>,
    markets: &StringHashMap<Market>,
    prices: &StringHashMap<u128>,
    now: u64,
) -> (r: Result<UserPositionResponse, Error>)
    requires
        markets_cover(ps@, markets@, now),
    ensures
        r == Err::<UserPositionResponse, Error>(Error::NoPriceSource) <==> !prices_present(
            ps@,
            prices@,
        ),
        prices_present(ps@, prices@) ==> (r == Err::<UserPositionResponse, Error>(Error::Overflow)
            <==> !health_computable(ps@, markets@, prices@, now)),
        r is Ok <==> prices_present(ps@, prices@) && health_computable(ps@, markets@, prices@, now),
        r is Ok ==> {
            let o = r->Ok_0;
            &&& o.total_collateral_value == total_collateral_value(ps@, markets@, prices@, now)
            &&& o.total_debt_value == total_debt_value(ps@, markets@, prices@, now)
            &&& o.weighted_max_ltv_collateral == total_ltv_weighted(ps@, markets@, prices@, now)
            &&& o.weighted_liquidation_threshold_collateral == total_liq_weighted(
                ps@,
                markets@,
                prices@,
                now,
            )
            &&& o.health_status == spec_health_status(ps@, markets@, prices@, now)
        },
{
    let mut i: usize = 0;
    while i < ps.len()
        invariant
            i <= ps@.len(),
            markets_cover(ps@, markets@, now),
            forall|j: int| 0 <= j < i && needs_price(#[trigger] ps@[j]) ==> prices@.contains_key(
                ps@[j].denom@,
            ),
        decreases ps@.len() - i,
    {
        let p = &ps[i];
        let needed = (p.collateral_scaled > 0 && p.enabled_as_collateral) || p.debt_scaled > 0;
        if needed && !prices.contains_key(p.denom.as_str()) {
            return Err(Error::NoPriceSource);
        }
        i = i + 1;
    }
    let ghost total_cv = total_collateral_value(ps@, markets@, prices@, now);
    let ghost total_dv = total_debt_value(ps@, markets@, prices@, now);
    let ghost total_lw = total_ltv_weighted(ps@, markets@, prices@, now);
    let ghost total_qw = total_liq_weighted(ps@, markets@, prices@, now);
    let mut collateral_value: u128 = 0;
    let mut debt_value: u128 = 0;
    let mut ltv_weighted: u128 = 0;
    let mut liq_weighted: u128 = 0;
    let mut k: usize = 0;
    while k < ps.len()
        invariant
            k <= ps@.len(),
            markets_cover(ps@, markets@, now),
            prices_present(ps@, prices@),
            forall|j: int| 0 <= j < k ==> pos_fits(#[trigger] ps@[j], markets@, prices@, now),
            collateral_value == total_collateral_value(ps@.take(k as int), markets@, prices@, now),
            debt_value == total_debt_value(ps@.take(k as int), markets@, prices@, now),
            ltv_weighted == total_ltv_weighted(ps@.take(k as int), markets@, prices@, now),
            liq_weighted == total_liq_weighted(ps@.take(k as int), markets@, prices@, now),
        decreases ps@.len() - k,
    {
        let ghost prefix = ps@.take(k as int);
        let ghost prefix1 = ps@.take(k as int + 1);
        proof {
            assert(prefix1.drop_last() =~= prefix);
            assert(prefix1.last() == ps@[k as int]);
        }
        let p = &ps[k];
        let ghost m_spec = markets@[p.denom@];
        let m = match markets.get(p.denom.as_str()) {
            Some(m) => *m,
            None => {
                return Err(Error::NoPriceSource);  // unreachable: markets_cover
            },
        };
        let (li, bi) = match accrued_indices(&m, now) {
            Ok(v) => v,
            Err(e) => {
                return Err(e);
            },
        };
        if (p.collateral_scaled > 0 && p.enabled_as_collateral) || p.debt_scaled > 0 {
            let price = match prices.get(p.denom.as_str()) {
                Some(v) => *v,
                None => {
                    return Err(Error::NoPriceSource);  // unreachable: prices checked above
                },
            };
            if p.collateral_scaled > 0 && p.enabled_as_collateral {
                let c = match mul_div(p.collateral_scaled, li, SCALE) {
                    Ok(v) => v,
                    Err(e) => {
                        return Err(e);
                    },
                };
                let cv = match mul_div(c, price, SCALE) {
                    Ok(v) => v,
                    Err(e) => {
                        return Err(e);
                    },
                };
                let lw = match mul_div(cv, m.max_loan_to_value, SCALE) {
                    Ok(v) => v,
                    Err(e) => {
                        return Err(e);
                    },
                };
                let qw = match mul_div(cv, m.liquidation_threshold, SCALE) {
                    Ok(v) => v,
                    Err(e) => {
                        return Err(e);
                    },
                };
                collateral_value = match collateral_value.checked_add(cv) {
                    Some(v) => v,
                    None => {
                        proof {
                            overflow_means_totals_exceed(ps@, markets@, prices@, now, k as int);
                        }
                        return Err(Error::Overflow);
                    },
                };
                ltv_weighted = match ltv_weighted.checked_add(lw) {
                    Some(v) => v,
                    None => {
                        proof {
                            overflow_means_totals_exceed(ps@, markets@, prices@, now, k as int);
                        }
                        return Err(Error::Overflow);
                    },
                };
                liq_weighted = match liq_weighted.checked_add(qw) {
                    Some(v) => v,
                    None => {
                        proof {
                            overflow_means_totals_exceed(ps@, markets@, prices@, now, k as int);
                        }
                        return Err(Error::Overflow);
                    },
                };
            }
            if p.debt_scaled > 0 {
                let d = match mul_div(p.debt_scaled, bi, SCALE) {
                    Ok(v) => v,
                    Err(e) => {
                        return Err(e);
                    },
                };
                let dv = match mul_div(d, price, SCALE) {
                    Ok(v) => v,
                    Err(e) => {
                        return Err(e);
                    },
                };
                debt_value = match debt_value.checked_add(dv) {
                    Some(v) => v,
                    None => {
                        proof {
                            overflow_means_totals_exceed(ps@, markets@, prices@, now, k as int);
                        }
                        return Err(Error::Overflow);
                    },
                };
            }
        }
        k = k + 1;
    }
    proof {
        assert(ps@.take(ps@.len() as int) =~= ps@);
    }
    let status: HealthStatus = if debt_value == 0 {
        HealthStatus::NotBorrowing
    } else {
        let max_ltv_hf = match mul_div(ltv_weighted, SCALE, debt_value) {
            Ok(v) => v,
            Err(e) => {
                return Err(e);
            },
        };
        let liq_threshold_hf = match mul_div(liq_weighted, SCALE, debt_value) {
            Ok(v) => v,
            Err(e) => {
                return Err(e);
            },
        };
        HealthStatus::Borrowing { max_ltv_hf, liq_threshold_hf }
    };
    Ok(
        UserPositionResponse {
            total_collateral_value: collateral_value,
            total_debt_value: debt_value,
            weighted_max_ltv_collateral: ltv_weighted,
            weighted_liquidation_threshold_collateral: liq_weighted,
            health_status: status,
        },
    )
}

/// When a running total no longer fits, the whole account's total does not
/// fit either: the remaining terms are non-negative.
proof fn overflow_means_totals_exceed(
    ps: Seq<Position>,
    markets: Map<Seq<char>, Market>,
    prices: Map<Seq<char>, u128>,
    now: u64,
    k: int,
)
    requires
        0 <= k < ps.len(),
        markets_cover(ps, markets, now),
    ensures
        total_collateral_value(ps.take(k + 1), markets, prices, now) <= total_collateral_value(
            ps,
            markets,
            prices,
            now,
        ),
        total_debt_value(ps.take(k + 1), markets, prices, now) <= total_debt_value(
            ps,
            markets,
            prices,
            now,
        ),
        total_ltv_weighted(ps.take(k + 1), markets, prices, now) <= total_ltv_weighted(
            ps,
            markets,
            prices,
            now,
        ),
        total_liq_weighted(ps.take(k + 1), markets, prices, now) <= total_liq_weighted(
            ps,
            markets,
            prices,
            now,
        ),
        total_collateral_value(ps.take(k + 1), markets, prices, now) == total_collateral_value(
            ps.take(k),
            markets,
            prices,
            now,
        ) + pos_collateral_value(ps[k], markets, prices, now),
        total_debt_value(ps.take(k + 1), markets, prices, now) == total_debt_value(
            ps.take(k),
            markets,
            prices,
            now,
        ) + pos_debt_value(ps[k], markets, prices, now),
        total_ltv_weighted(ps.take(k + 1), markets, prices, now) == total_ltv_weighted(
            ps.take(k),
            markets,
            prices,
            now,
        ) + pos_ltv_weighted(ps[k], markets, prices, now),
        total_liq_weighted(ps.take(k + 1), markets, prices, now) == total_liq_weighted(
            ps.take(k),
            markets,
            prices,
            now,
        ) + pos_liq_weighted(ps[k], markets, prices, now),
{
    lemma_totals_prefix_le(ps, markets, prices, now, k + 1);
    assert(ps.take(k + 1).drop_last() =~= ps.take(k));
    assert(ps.take(k + 1).last() == ps[k]);
}

} // verus!
