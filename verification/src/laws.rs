use vstd::prelude::*;

use crate::fixed::{spec_scaled, spec_underlying, SCALE};
use crate::health::{spec_liquidatable, HealthStatus};
use crate::ledger::Ledger;
use crate::market::{
    accrual_fits, lemma_accrued_nondecreasing, spec_accrued_borrow_index,
    spec_accrued_liquidity_index, spec_accrued_market, Market,
};

verus! {

/// Over any sequence of accruals at non-decreasing timestamps, both of a
/// market's indices are non-decreasing: one accrual never shrinks them, and
/// a second accrual of the result never shrinks them further.
pub proof fn lemma_indices_monotone(m: Market, t1: u64, t2: u64)
    requires
        m.wf(),
        m.indexes_last_updated <= t1,
        t1 <= t2,
        accrual_fits(m, t1),
    ensures
        spec_accrued_liquidity_index(m, t1) >= m.liquidity_index,
        spec_accrued_borrow_index(m, t1) >= m.borrow_index,
        spec_accrued_liquidity_index(spec_accrued_market(m, t1), t2)
            >= spec_accrued_liquidity_index(m, t1),
        spec_accrued_borrow_index(spec_accrued_market(m, t1), t2) >= spec_accrued_borrow_index(
            m,
            t1,
        ),
{
    lemma_accrued_nondecreasing(m, t1);
    let m1 = spec_accrued_market(m, t1);
    lemma_accrued_index_fits(m, t1);
    assert(m1.wf());
    lemma_accrued_nondecreasing(m1, t2);
}

/// Under in-range accrual both compounded indices fit the arithmetic range,
/// so the accrued market carries them exactly and stays well formed.
pub proof fn lemma_accrued_index_fits(m: Market, t: u64)
    requires
        m.wf(),
        m.indexes_last_updated <= t,
        accrual_fits(m, t),
    ensures
        0 <= spec_accrued_liquidity_index(m, t) <= u128::MAX,
        0 <= spec_accrued_borrow_index(m, t) <= u128::MAX,
        spec_accrued_market(m, t).liquidity_index == spec_accrued_liquidity_index(m, t),
        spec_accrued_market(m, t).borrow_index == spec_accrued_borrow_index(m, t),
        spec_accrued_market(m, t).wf(),
{
    lemma_accrued_nondecreasing(m, t);
    if t != m.indexes_last_updated {
        let elapsed = t - m.indexes_last_updated;
        let br = crate::market::spec_market_borrow_rate(m);
        let lr = crate::market::spec_market_liquidity_rate(m);
        let factor_b = SCALE + br * elapsed / (crate::fixed::SECONDS_PER_YEAR as int);
        let factor_l = SCALE + lr * elapsed / (crate::fixed::SECONDS_PER_YEAR as int);
        vstd::arithmetic::div_mod::lemma_div_nonincreasing(
            m.borrow_index * factor_b,
            SCALE as int,
        );
        vstd::arithmetic::div_mod::lemma_div_nonincreasing(
            m.liquidity_index * factor_l,
            SCALE as int,
        );
    }
}

/// Depositing an amount and immediately withdrawing the same amount, at the
/// same timestamp, restores the user's collateral scaled balance and the
/// market's scaled liquidity total exactly: at an unchanged timestamp the
/// withdrawal burns exactly the scaled balance the deposit minted.
pub proof fn lemma_deposit_withdraw_round_trip(
    pre: Ledger,
    mid: Ledger,
    post: Ledger,
    user: Seq<char>,
    denom: Seq<char>,
    amount: u128,
    now: u64,
    minted: u128,
    burned: int,
)
    requires
        pre.wf(),
        pre.has_market(denom),
        accrual_fits(pre.spec_market(denom), now),
        pre.spec_market(denom).indexes_last_updated <= now,
        pre.deposit_fits(user, denom, amount, now),
        // what a successful deposit of `amount` at `now` guarantees
        minted == pre.deposit_minted(denom, amount, now),
        mid.has_market(denom),
        mid.spec_market(denom) == (Market {
            scaled_liquidity_total: (spec_accrued_market(pre.spec_market(denom), now)
                .scaled_liquidity_total + minted) as u128,
            ..spec_accrued_market(pre.spec_market(denom), now)
        }),
        mid.collateral_of(user, denom) == pre.collateral_of(user, denom) + minted,
        // what a successful withdraw of the same `amount` at the same `now`
        // guarantees
        burned == mid.withdraw_burned(user, denom, Some(amount), now),
        post.collateral_of(user, denom) == mid.collateral_of(user, denom) - burned,
        post.has_market(denom),
        post.spec_market(denom) == (Market {
            scaled_liquidity_total: (spec_accrued_market(mid.spec_market(denom), now)
                .scaled_liquidity_total - burned) as u128,
            ..spec_accrued_market(mid.spec_market(denom), now)
        }),
    ensures
        burned == minted,
        post.collateral_of(user, denom) == pre.collateral_of(user, denom),
        post.spec_market(denom).scaled_liquidity_total == spec_accrued_market(
            pre.spec_market(denom),
            now,
        ).scaled_liquidity_total,
{
    let m0 = pre.spec_market(denom);
    let m1 = spec_accrued_market(m0, now);
    lemma_accrued_index_fits(m0, now);
    vstd::arithmetic::mul::lemma_mul_nonnegative(
        amount as int,
        SCALE as int,
    );
    vstd::arithmetic::div_mod::lemma_div_pos_is_pos(
        amount * SCALE,
        spec_accrued_liquidity_index(m0, now),
    );
    let m2 = mid.spec_market(denom);
    assert(m2.indexes_last_updated == now);
    assert(spec_accrued_liquidity_index(m2, now) == m2.liquidity_index);
    assert(m2.liquidity_index == spec_accrued_liquidity_index(m0, now));
    assert(burned == spec_scaled(amount as int, spec_accrued_liquidity_index(m0, now)));
    assert(spec_accrued_market(m2, now) == m2);
}

/// A position is liquidatable exactly when it is borrowing with its
/// liquidation-threshold health factor below one; a non-borrowing position is
/// never liquidatable.
pub proof fn lemma_liquidatable_iff(status: HealthStatus)
    ensures
        spec_liquidatable(status) <==> (status matches HealthStatus::Borrowing {
            liq_threshold_hf,
            ..
        } && liq_threshold_hf < SCALE),
        status is NotBorrowing ==> !spec_liquidatable(status),
{
}

/// A borrow whose hypothetical account fails the max-loan-to-value check —
/// and that no uncollateralized loan limit covers — is refused with a
/// health-factor violation; by the borrow operation's own contract an error
/// leaves the whole ledger, its scaled debt totals included, unchanged.
pub proof fn lemma_borrow_blocked_when_unhealthy(
    l: Ledger,
    user: Seq<char>,
    denom_str: String,
    amount: u128,
    now: u64,
)
    requires
        ({
            let denom = denom_str@;
            let m0 = l.spec_market(denom);
            let li = spec_accrued_liquidity_index(m0, now);
            let bi = spec_accrued_borrow_index(m0, now);
            let drawn = l.borrow_drawn(denom, amount, now);
            let d = l.debt_of(user, denom);
            let ps2 = l.account_with_borrow(user, denom_str, (d + drawn) as u128);
            &&& l.has_market(denom)
            &&& m0.borrow_enabled
            &&& accrual_fits(m0, now)
            &&& crate::interest::fits(m0.scaled_liquidity_total * li)
            &&& crate::interest::fits(m0.scaled_debt_total * bi)
            &&& ({
                let liquidity_u = spec_underlying(m0.scaled_liquidity_total as int, li);
                let debt_u = spec_underlying(m0.scaled_debt_total as int, bi);
                amount <= (if debt_u >= liquidity_u {
                    0
                } else {
                    liquidity_u - debt_u
                })
            })
            &&& crate::interest::fits(amount * SCALE)
            &&& crate::interest::fits(d + drawn)
            &&& crate::interest::fits(m0.scaled_debt_total + drawn)
            &&& crate::interest::fits((d + drawn) * bi)
            &&& spec_underlying(d + drawn, bi) > l.limit_of(user, denom)
            &&& crate::health::prices_present(ps2, l.prices@)
            &&& crate::health::health_computable(ps2, l.markets@, l.prices@, now)
            &&& crate::health::blocks_borrowing(
                crate::health::spec_health_status(ps2, l.markets@, l.prices@, now),
            )
        }),
    ensures
        l.spec_borrow(user, denom_str, amount, now) == Err::<int, crate::error::Error>(
            crate::error::Error::HealthFactorViolation,
        ),
{
}

/// A liquidation never seizes more collateral than the user holds in the
/// collateral denom, and never repays more than `close_factor` times the
/// user's outstanding debt in the repaid denom.
pub proof fn lemma_liquidation_bounds(
    l: Ledger,
    liquidator: Seq<char>,
    user: Seq<char>,
    collateral_denom: Seq<char>,
    debt_denom: Seq<char>,
    amount: u128,
    now: u64,
)
    requires
        l.wf(),
        l.has_market(debt_denom),
        l.has_market(collateral_denom),
        l.spec_market(debt_denom).indexes_last_updated <= now,
        l.spec_liquidate(liquidator, user, collateral_denom, debt_denom, amount, now) is Ok,
    ensures
        ({
            let pair = l.spec_liquidate(
                liquidator,
                user,
                collateral_denom,
                debt_denom,
                amount,
                now,
            )->Ok_0;
            let owed = spec_underlying(
                l.debt_of(user, debt_denom) as int,
                spec_accrued_borrow_index(l.spec_market(debt_denom), now),
            );
            let held = spec_underlying(
                l.collateral_of(user, collateral_denom) as int,
                spec_accrued_liquidity_index(l.spec_market(collateral_denom), now),
            );
            &&& pair.1 <= held
            &&& pair.0 <= l.close_factor * owed / (SCALE as int)
            &&& l.close_factor * owed / (SCALE as int) <= owed
        }),
{
    let owed = spec_underlying(
        l.debt_of(user, debt_denom) as int,
        spec_accrued_borrow_index(l.spec_market(debt_denom), now),
    );
    lemma_accrued_nondecreasing(l.spec_market(debt_denom), now);
    vstd::arithmetic::mul::lemma_mul_nonnegative(
        l.debt_of(user, debt_denom) as int,
        spec_accrued_borrow_index(l.spec_market(debt_denom), now),
    );
    vstd::arithmetic::div_mod::lemma_div_pos_is_pos(
        l.debt_of(user, debt_denom) * spec_accrued_borrow_index(l.spec_market(debt_denom), now),
        SCALE as int,
    );
    vstd::arithmetic::mul::lemma_mul_inequality(l.close_factor as int, SCALE as int, owed);
    vstd::arithmetic::div_mod::lemma_div_is_ordered(
        l.close_factor * owed,
        SCALE * owed,
        SCALE as int,
    );
    vstd::arithmetic::mul::lemma_mul_is_commutative(SCALE as int, owed);
    vstd::arithmetic::div_mod::lemma_div_by_multiple(owed, SCALE as int);
}

} // verus!
