use vstd::hash_map::StringHashMap;
use vstd::prelude::*;

use crate::account::{
    account_updated_at, clone_positions, denoms_unique, find_position, lemma_lookup_after_update,
    spec_collateral_enabled, spec_collateral_scaled, spec_debt_scaled, spec_has, spec_index_of,
    spec_limit, spec_position, updated_index, Position,
};
use crate::error::Error;
use crate::fixed::{mul_div, spec_scaled, spec_underlying, SCALE};
use crate::health::{
    blocks_borrowing, compute_position, has_debt, health_computable, is_liquidatable, needs_price,
    pos_fits, prices_present, spec_has_debt, spec_health_status, spec_liquidatable, HealthStatus,
    UserPositionResponse,
};
use crate::interest::fits;
use crate::market::{
    accrual_fits, accrue, spec_accrued_borrow_index, spec_accrued_liquidity_index, spec_accrued_market, spec_new_market,
    AssetParams, Market,
};

verus! {

/// An account is sound against the markets: one entry per denom, each entry
/// naming an initialized market.
pub open spec fn account_wf(ps: Seq<Position>, markets: Map<Seq<char>, Market>) -> bool {
    &&& denoms_unique(ps)
    &&& forall|i: int| 0 <= i < ps.len() ==> markets.contains_key((#[trigger] ps[i]).denom@)
}

/// A user's collateral standing in one market, as a query reports it.
#[derive(Clone, Copy, Debug, PartialEq, Eq, Structural)]
pub struct UserCollateralResponse {
    /// The stored scaled balance.
    pub amount_scaled: u128,
    /// Its real amount under the accrued liquidity index.
    pub amount: u128,
    /// Whether the collateral counts toward the account's health.
    pub enabled: bool,
}

/// A user's debt standing in one market, as a query reports it.
#[derive(Clone, Copy, Debug, PartialEq, Eq, Structural)]
pub struct UserDebtResponse {
    /// The stored scaled balance.
    pub amount_scaled: u128,
    /// Its real amount under the accrued borrow index.
    pub amount: u128,
    /// Whether a trust-based loan limit backs this debt.
    pub uncollateralized: bool,
}

/// The central ledger: one market per initialized denom, one account per
/// user, a fixed oracle price per denom, and the global liquidation close
/// factor. All mutation goes through its operation methods; every operation
/// either fully commits or leaves the ledger untouched.
pub struct Ledger {
    /// The privileged caller allowed to initialize assets, set prices and
    /// grant uncollateralized loan limits.
    pub owner: String,
    /// Largest fraction of a user's debt in one denom a single liquidation
    /// may repay, in atomic parts; at most one.
    pub close_factor: u128,
    pub markets: StringHashMap<Market>,
    pub accounts: StringHashMap<Vec<Position>>,
    pub prices: StringHashMap<u128>,
}

impl Ledger {
    pub open spec fn has_market(self, denom: Seq<char>) -> bool {
        self.markets@.contains_key(denom)
    }

    pub open spec fn spec_market(self, denom: Seq<char>) -> Market {
        self.markets@[denom]
    }

    /// The user's entries; an untouched user has none.
    pub open spec fn spec_account(self, user: Seq<char>) -> Seq<Position> {
        if self.accounts@.contains_key(user) {
            self.accounts@[user]@
        } else {
            Seq::<Position>::empty()
        }
    }

    pub open spec fn collateral_of(self, user: Seq<char>, denom: Seq<char>) -> u128 {
        spec_collateral_scaled(self.spec_account(user), denom)
    }

    pub open spec fn debt_of(self, user: Seq<char>, denom: Seq<char>) -> u128 {
        spec_debt_scaled(self.spec_account(user), denom)
    }

    pub open spec fn limit_of(self, user: Seq<char>, denom: Seq<char>) -> u128 {
        spec_limit(self.spec_account(user), denom)
    }

    pub open spec fn enabled_of(self, user: Seq<char>, denom: Seq<char>) -> bool {
        spec_collateral_enabled(self.spec_account(user), denom)
    }

    pub open spec fn has_price(self, denom: Seq<char>) -> bool {
        self.prices@.contains_key(denom)
    }

    pub open spec fn price_of(self, denom: Seq<char>) -> u128 {
        self.prices@[denom]
    }

    /// The ledger invariant: the close factor is a fraction, every market is
    /// well formed, every account is sound, every stored price is positive.
    pub open spec fn wf(self) -> bool {
        &&& self.close_factor <= SCALE
        &&& forall|d: Seq<char>| #[trigger]
            self.markets@.contains_key(d) ==> self.markets@[d].wf()
        &&& forall|u: Seq<char>| #[trigger]
            self.accounts@.contains_key(u) ==> account_wf(self.accounts@[u]@, self.markets@)
        &&& forall|d: Seq<char>| #[trigger] self.prices@.contains_key(d) ==> self.prices@[d] > 0
    }

    /// No market has been accrued past `now`; operations demand it, so a
    /// caller's timestamps must never move backward.
    pub open spec fn time_ok(self, now: u64) -> bool {
        forall|d: Seq<char>| #[trigger]
            self.markets@.contains_key(d) ==> self.markets@[d].indexes_last_updated <= now
    }

    /// A fresh ledger under the given owner: no markets, accounts or prices.
    /// Rejects a close factor above one.
    pub fn new(owner: String, close_factor: u128) -> (r: Result<Ledger, Error>)
        ensures
            r is Ok <==> close_factor <= SCALE,
            r is Err ==> r->Err_0 == Error::InvalidParams,
            r is Ok ==> {
                let l = r->Ok_0;
                &&& l.owner@ == owner@
                &&& l.close_factor == close_factor
                &&& l.markets@ == Map::<Seq<char>, Market>::empty()
                &&& l.accounts@ == Map::<Seq<char>, Vec<Position>>::empty()
                &&& l.prices@ == Map::<Seq<char>, u128>::empty()
                &&& l.wf()
                &&& forall|now: u64| l.time_ok(now)
            },
    {
        if close_factor > SCALE {
            return Err(Error::InvalidParams);
        }
        let l = Ledger {
            owner,
            close_factor,
            markets: StringHashMap::new(),
            accounts: StringHashMap::new(),
            prices: StringHashMap::new(),
        };
        Ok(l)
    }

    /// Stores a fixed oracle price for a denom, as the privileged owner.
    /// Rejects a non-positive price, which could never be divided by during
    /// liquidation.
    pub fn set_price_source_fixed(
        &mut self,
        caller: &String,
        denom: &String,
        price: u128,
    ) -> (r: Result<(), Error>)
        requires
            old(self).wf(),
        ensures
            r == Err::<(), Error>(Error::Unauthorized) <==> caller@ != old(self).owner@,
            caller@ == old(self).owner@ ==> (r == Err::<(), Error>(Error::InvalidParams) <==> price
                == 0),
            r is Ok <==> caller@ == old(self).owner@ && price > 0,
            r is Err ==> *final(self) == *old(self),
            r is Ok ==> {
                &&& final(self).prices@ == old(self).prices@.insert(denom@, price)
                &&& final(self).markets == old(self).markets
                &&& final(self).accounts == old(self).accounts
                &&& final(self).owner == old(self).owner
                &&& final(self).close_factor == old(self).close_factor
                &&& final(self).wf()
            },
    {
        if !(*caller == self.owner) {
            return Err(Error::Unauthorized);
        }
        if price == 0 {
            return Err(Error::InvalidParams);
        }
        self.prices.insert(denom.clone(), price);
        Ok(())
    }

    /// Creates the market for a new denom, as the privileged owner: fails if
    /// the denom already has one or the parameters break the market
    /// invariant; otherwise both indices start at one at time `now`.
    pub fn init_asset(
        &mut self,
        caller: &String,
        denom: &String,
        params: AssetParams,
        now: u64,
    ) -> (r: Result<(), Error>)
        requires
            old(self).wf(),
        ensures
            r == Err::<(), Error>(Error::Unauthorized) <==> caller@ != old(self).owner@,
            caller@ == old(self).owner@ ==> (r == Err::<(), Error>(Error::AssetAlreadyInitialized)
                <==> old(self).has_market(denom@)),
            caller@ == old(self).owner@ && !old(self).has_market(denom@) ==> (r == Err::<
                (),
                Error,
            >(Error::InvalidParams) <==> !params.valid()),
            r is Ok <==> caller@ == old(self).owner@ && !old(self).has_market(denom@)
                && params.valid(),
            r is Err ==> *final(self) == *old(self),
            r is Ok ==> {
                &&& final(self).markets@ == old(self).markets@.insert(
                    denom@,
                    spec_new_market(params, now),
                )
                &&& final(self).accounts == old(self).accounts
                &&& final(self).prices == old(self).prices
                &&& final(self).owner == old(self).owner
                &&& final(self).close_factor == old(self).close_factor
                &&& final(self).wf()
                &&& old(self).time_ok(now) ==> final(self).time_ok(now)
            },
    {
        if !(*caller == self.owner) {
            return Err(Error::Unauthorized);
        }
        if self.markets.contains_key(denom.as_str()) {
            return Err(Error::AssetAlreadyInitialized);
        }
        if !(params.max_loan_to_value <= params.liquidation_threshold
            && params.liquidation_threshold <= SCALE && params.reserve_factor <= SCALE
            && params.interest_rate_model.optimal_utilization_rate <= SCALE) {
            return Err(Error::InvalidParams);
        }
        let market = Market {
            scaled_liquidity_total: 0,
            scaled_debt_total: 0,
            liquidity_index: SCALE,
            borrow_index: SCALE,
            indexes_last_updated: now,
            interest_rate_model: params.interest_rate_model,
            reserve_factor: params.reserve_factor,
            max_loan_to_value: params.max_loan_to_value,
            liquidation_threshold: params.liquidation_threshold,
            liquidation_bonus: params.liquidation_bonus,
            deposit_cap: params.deposit_cap,
            deposit_enabled: params.deposit_enabled,
            borrow_enabled: params.borrow_enabled,
        };
        self.markets.insert(denom.clone(), market);
        proof {
            assert forall|u: Seq<char>| #[trigger] self.accounts@.contains_key(u) implies
                account_wf(self.accounts@[u]@, self.markets@) by {
                assert(account_wf(old(self).accounts@[u]@, old(self).markets@));
            }
        }
        Ok(())
    }

    /// Whether the denom's market exists and takes deposits.
    pub open spec fn deposit_allowed(self, denom: Seq<char>) -> bool {
        self.has_market(denom) && self.spec_market(denom).deposit_enabled
    }

    /// The scaled balance a deposit of `amount` mints: the amount under the
    /// accrued liquidity index.
    pub open spec fn deposit_minted(self, denom: Seq<char>, amount: u128, now: u64) -> int {
        spec_scaled(amount as int, spec_accrued_liquidity_index(self.spec_market(denom), now))
    }

    /// Whether every intermediate of the deposit stays in range.
    pub open spec fn deposit_fits(
        self,
        user: Seq<char>,
        denom: Seq<char>,
        amount: u128,
        now: u64,
    ) -> bool {
        let m0 = self.spec_market(denom);
        let li = spec_accrued_liquidity_index(m0, now);
        let minted = self.deposit_minted(denom, amount, now);
        &&& accrual_fits(m0, now)
        &&& fits(amount * SCALE)
        &&& fits(m0.scaled_liquidity_total + minted)
        &&& fits(self.collateral_of(user, denom) + minted)
        &&& (m0.deposit_cap is Some ==> fits((m0.scaled_liquidity_total + minted) * li))
    }

    /// Whether the deposit would push the market's underlying liquidity above
    /// its cap.
    pub open spec fn deposit_cap_hit(self, denom: Seq<char>, amount: u128, now: u64) -> bool {
        let m0 = self.spec_market(denom);
        let li = spec_accrued_liquidity_index(m0, now);
        let minted = self.deposit_minted(denom, amount, now);
        match m0.deposit_cap {
            Some(cap) => spec_underlying(m0.scaled_liquidity_total + minted, li) > cap,
            None => false,
        }
    }

    /// Deposits `amount` of `denom` for `user` at time `now`. The market is
    /// accrued first; the amount converts to scaled units under the accrued
    /// liquidity index and is credited to both the user's collateral and the
    /// market's liquidity total. A first collateral entry is enabled as
    /// collateral. Returns the scaled balance minted. All-or-nothing: on any
    /// error the ledger is unchanged.
    pub fn deposit(&mut self, user: &String, denom: &String, amount: u128, now: u64) -> (r: Result<
        u128,
        Error,
    >)
        requires
            old(self).wf(),
            old(self).time_ok(now),
        ensures
            r == Err::<u128, Error>(Error::AssetNotEnabled) <==> !old(self).deposit_allowed(denom@),
            old(self).deposit_allowed(denom@) ==> (r == Err::<u128, Error>(Error::Overflow) <==> !old(
                self,
            ).deposit_fits(user@, denom@, amount, now)),
            old(self).deposit_allowed(denom@) && old(self).deposit_fits(user@, denom@, amount, now)
                ==> (r == Err::<u128, Error>(Error::DepositCapExceeded) <==> old(
                self,
            ).deposit_cap_hit(denom@, amount, now)),
            r is Ok <==> old(self).deposit_allowed(denom@) && old(self).deposit_fits(
                user@,
                denom@,
                amount,
                now,
            ) && !old(self).deposit_cap_hit(denom@, amount, now),
            r is Err ==> *final(self) == *old(self),
            r is Ok ==> {
                let pre = *old(self);
                let post = *final(self);
                let m1 = spec_accrued_market(pre.spec_market(denom@), now);
                let minted = pre.deposit_minted(denom@, amount, now);
                &&& r->Ok_0 == minted
                &&& post.markets@ == pre.markets@.insert(
                    denom@,
                    (Market {
                        scaled_liquidity_total: (m1.scaled_liquidity_total + minted) as u128,
                        ..m1
                    }),
                )
                &&& post.collateral_of(user@, denom@) == pre.collateral_of(user@, denom@) + minted
                &&& post.enabled_of(user@, denom@) == (pre.collateral_of(user@, denom@) == 0
                    || pre.enabled_of(user@, denom@))
                &&& post.debt_of(user@, denom@) == pre.debt_of(user@, denom@)
                &&& post.limit_of(user@, denom@) == pre.limit_of(user@, denom@)
                &&& account_updated_at(pre.spec_account(user@), post.spec_account(user@), denom@)
                &&& forall|u2: Seq<char>, d2: Seq<char>|
                    u2 != user@ || d2 != denom@ ==> #[trigger] post.collateral_of(u2, d2)
                        == pre.collateral_of(u2, d2) && post.debt_of(u2, d2) == pre.debt_of(u2, d2)
                        && post.limit_of(u2, d2) == pre.limit_of(u2, d2) && post.enabled_of(u2, d2)
                        == pre.enabled_of(u2, d2)
                &&& post.prices == pre.prices
                &&& post.owner == pre.owner
                &&& post.close_factor == pre.close_factor
                &&& post.wf()
                &&& post.time_ok(now)
            },
    {
        let m0 = match self.markets.get(denom.as_str()) {
            Some(m) => *m,
            None => {
                return Err(Error::AssetNotEnabled);
            },
        };
        if !m0.deposit_enabled {
            return Err(Error::AssetNotEnabled);
        }
        let mut m1 = m0;
        match accrue(&mut m1, now) {
            Ok(()) => (),
            Err(e) => {
                return Err(e);
            },
        }
        let minted = match mul_div(amount, SCALE, m1.liquidity_index) {
            Ok(v) => v,
            Err(e) => {
                return Err(e);
            },
        };
        let new_total = match m1.scaled_liquidity_total.checked_add(minted) {
            Some(v) => v,
            None => {
                return Err(Error::Overflow);
            },
        };
        let mut ps = self.account_of(user);
        let ghost pre_ps = ps@;
        let idx_opt = find_position(&ps, denom);
        let old_col: u128 = match idx_opt {
            Some(i) => ps[i].collateral_scaled,
            None => 0,
        };
        let new_col = match old_col.checked_add(minted) {
            Some(v) => v,
            None => {
                return Err(Error::Overflow);
            },
        };
        match m1.deposit_cap {
            Some(cap) => {
                let underlying_after = match mul_div(new_total, m1.liquidity_index, SCALE) {
                    Ok(v) => v,
                    Err(e) => {
                        return Err(e);
                    },
                };
                if underlying_after > cap {
                    return Err(Error::DepositCapExceeded);
                }
            },
            None => (),
        }
        match idx_opt {
            Some(i) => {
                if ps[i].collateral_scaled == 0 {
                    ps[i].enabled_as_collateral = true;
                }
                ps[i].collateral_scaled = new_col;
                proof {
                    assert(account_updated_at(pre_ps, ps@, denom@));
                }
            },
            None => {
                ps.push(
                    Position {
                        denom: denom.clone(),
                        collateral_scaled: new_col,
                        enabled_as_collateral: true,
                        debt_scaled: 0,
                        uncollateralized_limit: 0,
                    },
                );
                proof {
                    assert(account_updated_at(pre_ps, ps@, denom@));
                }
            },
        }
        m1.scaled_liquidity_total = new_total;
        self.markets.insert(denom.clone(), m1);
        let ghost post_ps = ps@;
        self.accounts.insert(user.clone(), ps);
        proof {
            assert(self.spec_account(user@) == post_ps);
            lemma_ledger_account_update(*old(self), *self, user@, denom@);
            assert forall|d: Seq<char>| #[trigger] self.markets@.contains_key(d) implies
                self.markets@[d].wf() && self.markets@[d].indexes_last_updated <= now by {
                if d != denom@ {
                    assert(self.markets@[d] == old(self).markets@[d]);
                }
            }
        }
        Ok(minted)
    }

    /// The user's account as it would stand with the denom's collateral
    /// balance replaced; unchanged when no entry for the denom exists.
    pub open spec fn account_with_collateral(
        self,
        user: Seq<char>,
        denom: Seq<char>,
        new_collateral: u128,
    ) -> Seq<Position> {
        let ps = self.spec_account(user);
        if spec_has(ps, denom) {
            ps.update(
                spec_index_of(ps, denom),
                (Position { collateral_scaled: new_collateral, ..spec_position(ps, denom) }),
            )
        } else {
            ps
        }
    }

    /// The whole withdraw decision: which error a withdraw of `amount`
    /// (`None` meaning the full balance) surfaces, or the underlying amount
    /// paid out. The scaled balance burned is the requested amount under the
    /// accrued liquidity index, floored, so a deposit withdrawn in the same
    /// block restores the scaled balance exactly. The health of the remaining
    /// account is checked only when it still carries debt.
    pub open spec fn spec_withdraw(
        self,
        user: Seq<char>,
        denom: Seq<char>,
        amount: Option<u128>,
        now: u64,
    ) -> Result<int, Error> {
        if !self.has_market(denom) {
            Err(Error::NotFound)
        } else {
            let m0 = self.spec_market(denom);
            let li = spec_accrued_liquidity_index(m0, now);
            let c = self.collateral_of(user, denom);
            if !accrual_fits(m0, now) {
                Err(Error::Overflow)
            } else if !fits(c * li) {
                Err(Error::Overflow)
            } else {
                let balance = spec_underlying(c as int, li);
                let requested = match amount {
                    Some(x) => x as int,
                    None => balance,
                };
                if requested > balance {
                    Err(Error::InvalidAmount)
                } else if match amount {
                    Some(x) => !fits(x * SCALE),
                    None => false,
                } {
                    Err(Error::Overflow)
                } else {
                    let burned = self.withdraw_burned(user, denom, amount, now);
                    if burned > m0.scaled_liquidity_total {
                        Err(Error::Underflow)
                    } else {
                        let ps2 = self.account_with_collateral(user, denom, (c - burned) as u128);
                        if !spec_has_debt(ps2) {
                            Ok(requested)
                        } else if !prices_present(ps2, self.prices@) {
                            Err(Error::NoPriceSource)
                        } else if !health_computable(ps2, self.markets@, self.prices@, now) {
                            Err(Error::Overflow)
                        } else if blocks_borrowing(
                            spec_health_status(ps2, self.markets@, self.prices@, now),
                        ) {
                            Err(Error::HealthFactorViolation)
                        } else {
                            Ok(requested)
                        }
                    }
                }
            }
        }
    }

    /// The scaled balance a withdraw burns: the requested amount under the
    /// accrued liquidity index, or the whole balance for `None`.
    pub open spec fn withdraw_burned(
        self,
        user: Seq<char>,
        denom: Seq<char>,
        amount: Option<u128>,
        now: u64,
    ) -> int {
        match amount {
            Some(x) => spec_scaled(
                x as int,
                spec_accrued_liquidity_index(self.spec_market(denom), now),
            ),
            None => self.collateral_of(user, denom) as int,
        }
    }

    /// Withdraws `amount` of `denom` collateral for `user` at `now` (`None`
    /// withdraws the full balance). The market is accrued first; the burned
    /// scaled balance leaves both the user's collateral and the market's
    /// liquidity total; the operation is refused if it would leave a
    /// still-indebted account below its borrow limit. Returns the underlying
    /// amount paid out. All-or-nothing: on any error the ledger is unchanged.
    pub fn withdraw(
        &mut self,
        user: &String,
        denom: &String,
        amount: Option<u128>,
        now: u64,
    ) -> (r: Result<u128, Error>)
        requires
            old(self).wf(),
            old(self).time_ok(now),
        ensures
            r is Err ==> *final(self) == *old(self),
            (match old(self).spec_withdraw(user@, denom@, amount, now) {
                Ok(w) => r is Ok && r->Ok_0 == w,
                Err(e) => r == Err::<u128, Error>(e),
            }),
            r is Ok ==> {
                let pre = *old(self);
                let post = *final(self);
                let m1 = spec_accrued_market(pre.spec_market(denom@), now);
                let burned = pre.withdraw_burned(user@, denom@, amount, now);
                &&& post.markets@ == pre.markets@.insert(
                    denom@,
                    (Market {
                        scaled_liquidity_total: (m1.scaled_liquidity_total - burned) as u128,
                        ..m1
                    }),
                )
                &&& post.collateral_of(user@, denom@) == pre.collateral_of(user@, denom@) - burned
                &&& post.enabled_of(user@, denom@) == pre.enabled_of(user@, denom@)
                &&& post.debt_of(user@, denom@) == pre.debt_of(user@, denom@)
                &&& post.limit_of(user@, denom@) == pre.limit_of(user@, denom@)
                &&& post.spec_account(user@) == pre.account_with_collateral(
                    user@,
                    denom@,
                    (pre.collateral_of(user@, denom@) - burned) as u128,
                )
                &&& forall|u2: Seq<char>, d2: Seq<char>|
                    u2 != user@ || d2 != denom@ ==> #[trigger] post.collateral_of(u2, d2)
                        == pre.collateral_of(u2, d2) && post.debt_of(u2, d2) == pre.debt_of(u2, d2)
                        && post.limit_of(u2, d2) == pre.limit_of(u2, d2) && post.enabled_of(u2, d2)
                        == pre.enabled_of(u2, d2)
                &&& post.prices == pre.prices
                &&& post.owner == pre.owner
                &&& post.close_factor == pre.close_factor
                &&& post.wf()
                &&& post.time_ok(now)
            },
    {
        let m0 = match self.markets.get(denom.as_str()) {
            Some(m) => *m,
            None => {
                return Err(Error::NotFound);
            },
        };
        let mut m1 = m0;
        match accrue(&mut m1, now) {
            Ok(_) => (),
            Err(e) => {
                return Err(e);
            },
        }
        let mut ps = self.account_of(user);
        let ghost pre_ps = ps@;
        let idx_opt = find_position(&ps, denom);
        let c: u128 = match idx_opt {
            Some(i) => ps[i].collateral_scaled,
            None => 0,
        };
        let balance = match mul_div(c, m1.liquidity_index, SCALE) {
            Ok(v) => v,
            Err(e) => {
                return Err(e);
            },
        };
        let requested: u128 = match amount {
            Some(x) => x,
            None => balance,
        };
        if requested > balance {
            return Err(Error::InvalidAmount);
        }
        let burned: u128 = match amount {
            Some(x) => match mul_div(x, SCALE, m1.liquidity_index) {
                Ok(v) => v,
                Err(e) => {
                    return Err(e);
                },
            },
            None => c,
        };
        proof {
            crate::fixed::lemma_scaled_roundtrip_le(
                c as int,
                requested as int,
                m1.liquidity_index as int,
            );
        }
        let new_slt = match m1.scaled_liquidity_total.checked_sub(burned) {
            Some(v) => v,
            None => {
                return Err(Error::Underflow);
            },
        };
        match idx_opt {
            Some(i) => {
                ps[i].collateral_scaled = c - burned;
            },
            None => (),
        }
        proof {
            assert(ps@ =~= old(self).account_with_collateral(user@, denom@, (c - burned) as u128));
        }
        if has_debt(&ps) {
            let snapshot = match compute_position(&ps, &self.markets, &self.prices, now) {
                Ok(v) => v,
                Err(e) => {
                    return Err(e);
                },
            };
            match snapshot.health_status {
                HealthStatus::NotBorrowing => (),
                HealthStatus::Borrowing { max_ltv_hf, .. } => {
                    if max_ltv_hf < SCALE {
                        return Err(Error::HealthFactorViolation);
                    }
                },
            }
        }
        m1.scaled_liquidity_total = new_slt;
        self.markets.insert(denom.clone(), m1);
        let ghost post_ps = ps@;
        self.accounts.insert(user.clone(), ps);
        proof {
            assert(self.spec_account(user@) == post_ps);
            if spec_has(pre_ps, denom@) {
                assert(account_updated_at(pre_ps, post_ps, denom@));
                lemma_ledger_account_update(*old(self), *self, user@, denom@);
            } else {
                assert(post_ps == pre_ps);
                assert forall|u2: Seq<char>| #[trigger] self.accounts@.contains_key(u2) implies
                    account_wf(self.accounts@[u2]@, self.markets@) by {
                    if u2 == user@ {
                        assert(account_wf(old(self).spec_account(user@), old(self).markets@));
                    } else {
                        assert(old(self).accounts@.contains_key(u2));
                        assert(account_wf(old(self).accounts@[u2]@, old(self).markets@));
                    }
                }
                assert forall|u2: Seq<char>, d2: Seq<char>| u2 != user@ implies #[trigger] self
                    .collateral_of(u2, d2) == old(self).collateral_of(u2, d2) && self.debt_of(
                    u2,
                    d2,
                ) == old(self).debt_of(u2, d2) && self.limit_of(u2, d2) == old(self).limit_of(
                    u2,
                    d2,
                ) && self.enabled_of(u2, d2) == old(self).enabled_of(u2, d2) by {
                    assert(self.spec_account(u2) == old(self).spec_account(u2));
                }
            }
            assert forall|d: Seq<char>| #[trigger] self.markets@.contains_key(d) implies
                self.markets@[d].wf() && self.markets@[d].indexes_last_updated <= now by {
                if d != denom@ {
                    assert(self.markets@[d] == old(self).markets@[d]);
                }
            }
        }
        Ok(requested)
    }

    /// The user's account as it would stand with the denom's debt balance
    /// replaced; unchanged when no entry for the denom exists.
    pub open spec fn account_with_debt(
        self,
        user: Seq<char>,
        denom: Seq<char>,
        new_debt: u128,
    ) -> Seq<Position> {
        let ps = self.spec_account(user);
        if spec_has(ps, denom) {
            ps.update(
                spec_index_of(ps, denom),
                (Position { debt_scaled: new_debt, ..spec_position(ps, denom) }),
            )
        } else {
            ps
        }
    }

    /// The amount a repay actually applies: the offered amount, clamped to
    /// the outstanding debt under the accrued borrow index.
    pub open spec fn repay_applied(self, user: Seq<char>, denom: Seq<char>, amount: u128, now: u64) -> int {
        let m0 = self.spec_market(denom);
        let owed = spec_underlying(
            self.debt_of(user, denom) as int,
            spec_accrued_borrow_index(m0, now),
        );
        if amount as int > owed {
            owed
        } else {
            amount as int
        }
    }

    /// The scaled balance a repay burns: the whole scaled debt when the full
    /// outstanding amount is repaid — so no dust is left behind — else the
    /// applied amount under the accrued borrow index, floored.
    pub open spec fn repay_burned(self, user: Seq<char>, denom: Seq<char>, amount: u128, now: u64) -> int {
        let m0 = self.spec_market(denom);
        let bi = spec_accrued_borrow_index(m0, now);
        let d = self.debt_of(user, denom);
        let owed = spec_underlying(d as int, bi);
        if amount as int >= owed {
            d as int
        } else {
            spec_scaled(amount as int, bi)
        }
    }

    /// The whole repay decision: which error a repay of `amount` surfaces, or
    /// the amount actually applied. An offer above the outstanding debt is
    /// clamped to exactly the outstanding amount — debt never goes negative —
    /// and the excess is the caller's to refund. Repaying needs no health
    /// check: it can only improve the account.
    pub open spec fn spec_repay(
        self,
        user: Seq<char>,
        denom: Seq<char>,
        amount: u128,
        now: u64,
    ) -> Result<int, Error> {
        if !self.has_market(denom) {
            Err(Error::NotFound)
        } else {
            let m0 = self.spec_market(denom);
            let bi = spec_accrued_borrow_index(m0, now);
            let d = self.debt_of(user, denom);
            if !accrual_fits(m0, now) {
                Err(Error::Overflow)
            } else if d == 0 {
                Err(Error::CannotRepayZeroDebt)
            } else if !fits(d * bi) {
                Err(Error::Overflow)
            } else {
                let owed = spec_underlying(d as int, bi);
                if (amount as int) < owed && !fits(amount * SCALE) {
                    Err(Error::Overflow)
                } else {
                    let burned = self.repay_burned(user, denom, amount, now);
                    if burned > m0.scaled_debt_total {
                        Err(Error::Underflow)
                    } else {
                        Ok(self.repay_applied(user, denom, amount, now))
                    }
                }
            }
        }
    }

    /// Repays up to `amount` of the user's `denom` debt at `now`. The market
    /// is accrued first; the burned scaled balance leaves both the user's
    /// debt and the market's debt total. Returns the amount actually applied;
    /// any excess offered is the caller's to refund. All-or-nothing: on any
    /// error the ledger is unchanged.
    pub fn repay(&mut self, user: &String, denom: &String, amount: u128, now: u64) -> (r: Result<
        u128,
        Error,
    >)
        requires
            old(self).wf(),
            old(self).time_ok(now),
        ensures
            r is Err ==> *final(self) == *old(self),
            (match old(self).spec_repay(user@, denom@, amount, now) {
                Ok(a) => r is Ok && r->Ok_0 == a,
                Err(e) => r == Err::<u128, Error>(e),
            }),
            r is Ok ==> {
                let pre = *old(self);
                let post = *final(self);
                let m1 = spec_accrued_market(pre.spec_market(denom@), now);
                let burned = pre.repay_burned(user@, denom@, amount, now);
                &&& post.markets@ == pre.markets@.insert(
                    denom@,
                    (Market { scaled_debt_total: (m1.scaled_debt_total - burned) as u128, ..m1 }),
                )
                &&& post.debt_of(user@, denom@) == pre.debt_of(user@, denom@) - burned
                &&& post.collateral_of(user@, denom@) == pre.collateral_of(user@, denom@)
                &&& post.enabled_of(user@, denom@) == pre.enabled_of(user@, denom@)
                &&& post.limit_of(user@, denom@) == pre.limit_of(user@, denom@)
                &&& post.spec_account(user@) == pre.account_with_debt(
                    user@,
                    denom@,
                    (pre.debt_of(user@, denom@) - burned) as u128,
                )
                &&& forall|u2: Seq<char>, d2: Seq<char>|
                    u2 != user@ || d2 != denom@ ==> #[trigger] post.collateral_of(u2, d2)
                        == pre.collateral_of(u2, d2) && post.debt_of(u2, d2) == pre.debt_of(u2, d2)
                        && post.limit_of(u2, d2) == pre.limit_of(u2, d2) && post.enabled_of(u2, d2)
                        == pre.enabled_of(u2, d2)
                &&& post.prices == pre.prices
                &&& post.owner == pre.owner
                &&& post.close_factor == pre.close_factor
                &&& post.wf()
                &&& post.time_ok(now)
            },
    {
        let m0 = match self.markets.get(denom.as_str()) {
            Some(m) => *m,
            None => {
                return Err(Error::NotFound);
            },
        };
        let mut m1 = m0;
        match accrue(&mut m1, now) {
            Ok(_) => (),
            Err(e) => {
                return Err(e);
            },
        }
        let mut ps = self.account_of(user);
        let ghost pre_ps = ps@;
        let idx_opt = find_position(&ps, denom);
        let d: u128 = match idx_opt {
            Some(i) => ps[i].debt_scaled,
            None => 0,
        };
        if d == 0 {
            return Err(Error::CannotRepayZeroDebt);
        }
        let owed = match mul_div(d, m1.borrow_index, SCALE) {
            Ok(v) => v,
            Err(e) => {
                return Err(e);
            },
        };
        let (applied, burned): (u128, u128) = if amount >= owed {
            (owed, d)
        } else {
            let b = match mul_div(amount, SCALE, m1.borrow_index) {
                Ok(v) => v,
                Err(e) => {
                    return Err(e);
                },
            };
            proof {
                crate::fixed::lemma_scaled_roundtrip_le(
                    d as int,
                    amount as int,
                    m1.borrow_index as int,
                );
            }
            (amount, b)
        };
        let new_sdt = match m1.scaled_debt_total.checked_sub(burned) {
            Some(v) => v,
            None => {
                return Err(Error::Underflow);
            },
        };
        match idx_opt {
            Some(i) => {
                ps[i].debt_scaled = d - burned;
            },
            None => (),
        }
        proof {
            assert(ps@ =~= old(self).account_with_debt(user@, denom@, (d - burned) as u128));
        }
        m1.scaled_debt_total = new_sdt;
        self.markets.insert(denom.clone(), m1);
        let ghost post_ps = ps@;
        self.accounts.insert(user.clone(), ps);
        proof {
            assert(self.spec_account(user@) == post_ps);
            assert(account_updated_at(pre_ps, post_ps, denom@));
            lemma_ledger_account_update(*old(self), *self, user@, denom@);
            assert forall|dd: Seq<char>| #[trigger] self.markets@.contains_key(dd) implies
                self.markets@[dd].wf() && self.markets@[dd].indexes_last_updated <= now by {
                if dd != denom@ {
                    assert(self.markets@[dd] == old(self).markets@[dd]);
                }
            }
        }
        Ok(applied)
    }

    /// The user's account as it would stand with the denom's debt balance
    /// replaced, a fresh debt-only entry appearing when none exists yet.
    pub open spec fn account_with_borrow(
        self,
        user: Seq<char>,
        denom_str: String,
        new_debt: u128,
    ) -> Seq<Position> {
        let ps = self.spec_account(user);
        if spec_has(ps, denom_str@) {
            ps.update(
                spec_index_of(ps, denom_str@),
                (Position { debt_scaled: new_debt, ..spec_position(ps, denom_str@) }),
            )
        } else {
            ps.push(
                (Position {
                    denom: denom_str,
                    collateral_scaled: 0,
                    enabled_as_collateral: false,
                    debt_scaled: new_debt,
                    uncollateralized_limit: 0,
                }),
            )
        }
    }

    /// The scaled balance a borrow of `amount` adds to the user's debt: the
    /// amount under the accrued borrow index, floored.
    pub open spec fn borrow_drawn(self, denom: Seq<char>, amount: u128, now: u64) -> int {
        spec_scaled(amount as int, spec_accrued_borrow_index(self.spec_market(denom), now))
    }

    /// The whole borrow decision: which error a borrow of `amount` surfaces,
    /// or the scaled debt drawn. The amount must not exceed the market's free
    /// liquidity; the resulting account must either stay within the user's
    /// uncollateralized loan limit for the denom or keep its
    /// max-loan-to-value health factor at or above one.
    pub open spec fn spec_borrow(
        self,
        user: Seq<char>,
        denom_str: String,
        amount: u128,
        now: u64,
    ) -> Result<int, Error> {
        let denom = denom_str@;
        if !self.has_market(denom) || !self.spec_market(denom).borrow_enabled {
            Err(Error::AssetNotEnabled)
        } else {
            let m0 = self.spec_market(denom);
            let li = spec_accrued_liquidity_index(m0, now);
            let bi = spec_accrued_borrow_index(m0, now);
            if !accrual_fits(m0, now) {
                Err(Error::Overflow)
            } else if !fits(m0.scaled_liquidity_total * li) || !fits(m0.scaled_debt_total * bi) {
                Err(Error::Overflow)
            } else {
                let liquidity_u = spec_underlying(m0.scaled_liquidity_total as int, li);
                let debt_u = spec_underlying(m0.scaled_debt_total as int, bi);
                let available = if debt_u >= liquidity_u {
                    0
                } else {
                    liquidity_u - debt_u
                };
                if amount > available {
                    Err(Error::InsufficientLiquidity)
                } else if !fits(amount * SCALE) {
                    Err(Error::Overflow)
                } else {
                    let drawn = self.borrow_drawn(denom, amount, now);
                    let d = self.debt_of(user, denom);
                    if !fits(d + drawn) || !fits(m0.scaled_debt_total + drawn) || !fits(
                        (d + drawn) * bi,
                    ) {
                        Err(Error::Overflow)
                    } else {
                        let new_debt_u = spec_underlying(d + drawn, bi);
                        let ps2 = self.account_with_borrow(user, denom_str, (d + drawn) as u128);
                        if new_debt_u <= self.limit_of(user, denom) {
                            Ok(drawn)
                        } else if !prices_present(ps2, self.prices@) {
                            Err(Error::NoPriceSource)
                        } else if !health_computable(ps2, self.markets@, self.prices@, now) {
                            Err(Error::Overflow)
                        } else if blocks_borrowing(
                            spec_health_status(ps2, self.markets@, self.prices@, now),
                        ) {
                            Err(Error::HealthFactorViolation)
                        } else {
                            Ok(drawn)
                        }
                    }
                }
            }
        }
    }

    /// Borrows `amount` of `denom` for `user` at `now`. The market is accrued
    /// first; the drawn scaled balance joins both the user's debt and the
    /// market's debt total, and the operation is refused — leaving the ledger
    /// untouched — unless the user's uncollateralized loan limit covers the
    /// new debt or the resulting account keeps its max-loan-to-value health
    /// factor at or above one. Returns the scaled debt drawn.
    pub fn borrow(&mut self, user: &String, denom: &String, amount: u128, now: u64) -> (r: Result<
        u128,
        Error,
    >)
        requires
            old(self).wf(),
            old(self).time_ok(now),
        ensures
            r is Err ==> *final(self) == *old(self),
            (match old(self).spec_borrow(user@, *denom, amount, now) {
                Ok(s) => r is Ok && r->Ok_0 == s,
                Err(e) => r == Err::<u128, Error>(e),
            }),
            r is Ok ==> {
                let pre = *old(self);
                let post = *final(self);
                let m1 = spec_accrued_market(pre.spec_market(denom@), now);
                let drawn = pre.borrow_drawn(denom@, amount, now);
                &&& post.markets@ == pre.markets@.insert(
                    denom@,
                    (Market { scaled_debt_total: (m1.scaled_debt_total + drawn) as u128, ..m1 }),
                )
                &&& post.debt_of(user@, denom@) == pre.debt_of(user@, denom@) + drawn
                &&& post.collateral_of(user@, denom@) == pre.collateral_of(user@, denom@)
                &&& post.enabled_of(user@, denom@) == pre.enabled_of(user@, denom@)
                &&& post.limit_of(user@, denom@) == pre.limit_of(user@, denom@)
                &&& post.spec_account(user@) == pre.account_with_borrow(
                    user@,
                    *denom,
                    (pre.debt_of(user@, denom@) + drawn) as u128,
                )
                &&& forall|u2: Seq<char>, d2: Seq<char>|
                    u2 != user@ || d2 != denom@ ==> #[trigger] post.collateral_of(u2, d2)
                        == pre.collateral_of(u2, d2) && post.debt_of(u2, d2) == pre.debt_of(u2, d2)
                        && post.limit_of(u2, d2) == pre.limit_of(u2, d2) && post.enabled_of(u2, d2)
                        == pre.enabled_of(u2, d2)
                &&& post.prices == pre.prices
                &&& post.owner == pre.owner
                &&& post.close_factor == pre.close_factor
                &&& post.wf()
                &&& post.time_ok(now)
            },
    {
        let m0 = match self.markets.get(denom.as_str()) {
            Some(m) => *m,
            None => {
                return Err(Error::AssetNotEnabled);
            },
        };
        if !m0.borrow_enabled {
            return Err(Error::AssetNotEnabled);
        }
        let mut m1 = m0;
        match accrue(&mut m1, now) {
            Ok(_) => (),
            Err(e) => {
                return Err(e);
            },
        }
        let liquidity_u = match mul_div(m1.scaled_liquidity_total, m1.liquidity_index, SCALE) {
            Ok(v) => v,
            Err(e) => {
                return Err(e);
            },
        };
        let debt_u = match mul_div(m1.scaled_debt_total, m1.borrow_index, SCALE) {
            Ok(v) => v,
            Err(e) => {
                return Err(e);
            },
        };
        let available: u128 = if debt_u >= liquidity_u {
            0
        } else {
            liquidity_u - debt_u
        };
        if amount > available {
            return Err(Error::InsufficientLiquidity);
        }
        let drawn = match mul_div(amount, SCALE, m1.borrow_index) {
            Ok(v) => v,
            Err(e) => {
                return Err(e);
            },
        };
        let mut ps = self.account_of(user);
        let ghost pre_ps = ps@;
        let idx_opt = find_position(&ps, denom);
        let (d, limit): (u128, u128) = match idx_opt {
            Some(i) => (ps[i].debt_scaled, ps[i].uncollateralized_limit),
            None => (0, 0),
        };
        let new_debt = match d.checked_add(drawn) {
            Some(v) => v,
            None => {
                return Err(Error::Overflow);
            },
        };
        let new_sdt = match m1.scaled_debt_total.checked_add(drawn) {
            Some(v) => v,
            None => {
                return Err(Error::Overflow);
            },
        };
        let new_debt_u = match mul_div(new_debt, m1.borrow_index, SCALE) {
            Ok(v) => v,
            Err(e) => {
                return Err(e);
            },
        };
        match idx_opt {
            Some(i) => {
                ps[i].debt_scaled = new_debt;
            },
            None => {
                ps.push(
                    Position {
                        denom: denom.clone(),
                        collateral_scaled: 0,
                        enabled_as_collateral: false,
                        debt_scaled: new_debt,
                        uncollateralized_limit: 0,
                    },
                );
            },
        }
        proof {
            assert(ps@ =~= old(self).account_with_borrow(user@, *denom, new_debt));
        }
        if new_debt_u > limit {
            let snapshot = match compute_position(&ps, &self.markets, &self.prices, now) {
                Ok(v) => v,
                Err(e) => {
                    return Err(e);
                },
            };
            match snapshot.health_status {
                HealthStatus::NotBorrowing => (),
                HealthStatus::Borrowing { max_ltv_hf, .. } => {
                    if max_ltv_hf < SCALE {
                        return Err(Error::HealthFactorViolation);
                    }
                },
            }
        }
        m1.scaled_debt_total = new_sdt;
        self.markets.insert(denom.clone(), m1);
        let ghost post_ps = ps@;
        self.accounts.insert(user.clone(), ps);
        proof {
            assert(self.spec_account(user@) == post_ps);
            assert(account_updated_at(pre_ps, post_ps, denom@));
            lemma_ledger_account_update(*old(self), *self, user@, denom@);
            assert forall|dd: Seq<char>| #[trigger] self.markets@.contains_key(dd) implies
                self.markets@[dd].wf() && self.markets@[dd].indexes_last_updated <= now by {
                if dd != denom@ {
                    assert(self.markets@[dd] == old(self).markets@[dd]);
                }
            }
        }
        Ok(drawn)
    }

    /// The liquidated user's account after a liquidation: the debt denom's
    /// entry loses the burned debt, then the collateral denom's entry loses
    /// the seized collateral (one entry takes both changes when the denoms
    /// coincide).
    pub open spec fn liquidate_user_account(
        self,
        user: Seq<char>,
        debt_denom: Seq<char>,
        collateral_denom: Seq<char>,
        new_debt: u128,
        new_collateral: u128,
    ) -> Seq<Position> {
        let ps = self.spec_account(user);
        let mid = if spec_has(ps, debt_denom) {
            ps.update(
                spec_index_of(ps, debt_denom),
                (Position { debt_scaled: new_debt, ..spec_position(ps, debt_denom) }),
            )
        } else {
            ps
        };
        if spec_has(mid, collateral_denom) {
            mid.update(
                spec_index_of(mid, collateral_denom),
                (Position {
                    collateral_scaled: new_collateral,
                    ..spec_position(mid, collateral_denom)
                }),
            )
        } else {
            mid
        }
    }

    /// The liquidator's account after receiving seized collateral: the
    /// denom's entry is credited (a first collateral entry is enabled), or a
    /// fresh enabled entry appears.
    pub open spec fn account_with_collateral_credit(
        self,
        user: Seq<char>,
        denom_str: String,
        new_collateral: u128,
        enabled: bool,
    ) -> Seq<Position> {
        let ps = self.spec_account(user);
        if spec_has(ps, denom_str@) {
            ps.update(
                spec_index_of(ps, denom_str@),
                (Position {
                    collateral_scaled: new_collateral,
                    enabled_as_collateral: enabled,
                    ..spec_position(ps, denom_str@)
                }),
            )
        } else {
            ps.push(
                (Position {
                    denom: denom_str,
                    collateral_scaled: new_collateral,
                    enabled_as_collateral: true,
                    debt_scaled: 0,
                    uncollateralized_limit: 0,
                }),
            )
        }
    }

    /// The whole liquidation decision: which error it surfaces, or the pair
    /// `(repaid, seized)` in underlying units. The user must be liquidatable
    /// (liquidation-threshold health factor below one); the repaid amount is
    /// capped by the offer and by `close_factor` times the outstanding debt;
    /// the seized collateral is the repaid value marked up by the market's
    /// liquidation bonus, clamped to what the user holds — when the clamp
    /// binds, the repaid amount shrinks proportionally, so no more collateral
    /// than exists is ever seized.
    pub open spec fn spec_liquidate(
        self,
        liquidator: Seq<char>,
        user: Seq<char>,
        collateral_denom: Seq<char>,
        debt_denom: Seq<char>,
        amount: u128,
        now: u64,
    ) -> Result<(int, int), Error> {
        if liquidator == user {
            Err(Error::Unauthorized)
        } else if !self.has_market(collateral_denom) || !self.has_market(debt_denom) {
            Err(Error::NotFound)
        } else {
            let mc0 = self.spec_market(collateral_denom);
            let md0 = self.spec_market(debt_denom);
            let li = spec_accrued_liquidity_index(mc0, now);
            let bi = spec_accrued_borrow_index(md0, now);
            let ps = self.spec_account(user);
            if !accrual_fits(mc0, now) || !accrual_fits(md0, now) {
                Err(Error::Overflow)
            } else if !prices_present(ps, self.prices@) {
                Err(Error::NoPriceSource)
            } else if !health_computable(ps, self.markets@, self.prices@, now) {
                Err(Error::Overflow)
            } else if !spec_liquidatable(spec_health_status(ps, self.markets@, self.prices@, now)) {
                Err(Error::NotLiquidatable)
            } else {
                let d = self.debt_of(user, debt_denom);
                let owed = spec_underlying(d as int, bi);
                if d == 0 || owed == 0 {
                    Err(Error::CannotRepayZeroDebt)
                } else {
                    let c = self.collateral_of(user, collateral_denom);
                    if c == 0 {
                        Err(Error::InvalidAmount)
                    } else if !fits(c * li) {
                        Err(Error::Overflow)
                    } else {
                        let held = spec_underlying(c as int, li);
                        if held == 0 {
                            Err(Error::InvalidAmount)
                        } else if !self.has_price(collateral_denom) {
                            Err(Error::NoPriceSource)
                        } else {
                            match self.spec_liquidate_amounts(
                                user,
                                collateral_denom,
                                debt_denom,
                                amount,
                                now,
                            ) {
                                Err(e) => Err(e),
                                Ok(pair) => self.spec_liquidate_burns(
                                    liquidator,
                                    user,
                                    collateral_denom,
                                    debt_denom,
                                    pair.1,
                                    pair.0,
                                    now,
                                ),
                            }
                        }
                    }
                }
            }
        }
    }

    /// The arithmetic tail of the liquidation decision, once the position is
    /// known to be liquidatable with debt to repay and collateral to seize.
    pub open spec fn spec_liquidate_amounts(
        self,
        user: Seq<char>,
        collateral_denom: Seq<char>,
        debt_denom: Seq<char>,
        amount: u128,
        now: u64,
    ) -> Result<(int, int), Error> {
        let mc0 = self.spec_market(collateral_denom);
        let md0 = self.spec_market(debt_denom);
        let li = spec_accrued_liquidity_index(mc0, now);
        let bi = spec_accrued_borrow_index(md0, now);
        let d = self.debt_of(user, debt_denom);
        let owed = spec_underlying(d as int, bi);
        let c = self.collateral_of(user, collateral_denom);
        let held = spec_underlying(c as int, li);
        let price_c = self.price_of(collateral_denom);
        let price_d = self.price_of(debt_denom);
        if !fits(self.close_factor * owed) {
            Err(Error::Overflow)
        } else {
            let max_repay = self.close_factor * owed / (SCALE as int);
            let repay0 = if (amount as int) < max_repay {
                amount as int
            } else {
                max_repay
            };
            if repay0 == 0 {
                Err(Error::InvalidAmount)
            } else if !fits(SCALE + mc0.liquidation_bonus) {
                Err(Error::Overflow)
            } else {
                let bonus_factor = SCALE + mc0.liquidation_bonus;
                if !fits(repay0 * price_d) {
                    Err(Error::Overflow)
                } else {
                    let repay_value = repay0 * price_d / (SCALE as int);
                    if !fits(repay_value * bonus_factor) {
                        Err(Error::Overflow)
                    } else {
                        let seize_value = repay_value * bonus_factor / (SCALE as int);
                        if !fits(seize_value * SCALE) {
                            Err(Error::Overflow)
                        } else {
                            let seize0 = seize_value * SCALE / (price_c as int);
                            if seize0 <= held {
                                Ok((repay0, seize0))
                            } else if !fits(held * price_c) {
                                Err(Error::Overflow)
                            } else {
                                let held_value = held * price_c / (SCALE as int);
                                if !fits(held_value * SCALE) {
                                    Err(Error::Overflow)
                                } else {
                                    let reduced_value = held_value * SCALE / bonus_factor;
                                    if !fits(reduced_value * SCALE) {
                                        Err(Error::Overflow)
                                    } else {
                                        let repay2 = reduced_value * SCALE / (price_d as int);
                                        let repaid = if repay2 < repay0 {
                                            repay2
                                        } else {
                                            repay0
                                        };
                                        Ok((repaid, held))
                                    }
                                }
                            }
                        }
                    }
                }
            }
        }
    }

    /// The last step of the liquidation decision: converting the seized and
    /// repaid amounts back to scaled balances and checking the ledger totals
    /// and the liquidator's balance.
    pub open spec fn spec_liquidate_burns(
        self,
        liquidator: Seq<char>,
        user: Seq<char>,
        collateral_denom: Seq<char>,
        debt_denom: Seq<char>,
        seize: int,
        repaid: int,
        now: u64,
    ) -> Result<(int, int), Error> {
        let mc0 = self.spec_market(collateral_denom);
        let md0 = self.spec_market(debt_denom);
        let li = spec_accrued_liquidity_index(mc0, now);
        let bi = spec_accrued_borrow_index(md0, now);
        let d = self.debt_of(user, debt_denom);
        let owed = spec_underlying(d as int, bi);
        if !fits(seize * SCALE) {
            Err(Error::Overflow)
        } else if repaid < owed && !fits(repaid * SCALE) {
            Err(Error::Overflow)
        } else {
            let burned_c = spec_scaled(seize, li);
            let burned_d = if repaid >= owed {
                d as int
            } else {
                spec_scaled(repaid, bi)
            };
            if burned_d > md0.scaled_debt_total {
                Err(Error::Underflow)
            } else if !fits(self.collateral_of(liquidator, collateral_denom) + burned_c) {
                Err(Error::Overflow)
            } else {
                Ok((repaid, seize))
            }
        }
    }

    /// Liquidates `user`'s position at `now`: the liquidator offers `amount`
    /// of `debt_denom` and receives the equivalent value of the user's
    /// `collateral_denom` collateral plus the market's liquidation bonus, as
    /// a scaled collateral transfer. Only a position whose
    /// liquidation-threshold health factor is below one can be liquidated;
    /// the repaid amount never exceeds `close_factor` times the outstanding
    /// debt, and the seized collateral never exceeds what the user holds —
    /// when the clamp binds, the repaid amount is reduced proportionally.
    /// Returns `(repaid, seized)` in underlying units. All-or-nothing: on any
    /// error the ledger is unchanged.
    #[verifier::rlimit(100)]
    #[verifier::spinoff_prover]
    pub fn liquidate(
        &mut self,
        liquidator: &String,
        user: &String,
        collateral_denom: &String,
        debt_denom: &String,
        amount: u128,
        now: u64,
    ) -> (r: Result<(u128, u128), Error>)
        requires
            old(self).wf(),
            old(self).time_ok(now),
        ensures
            r is Err ==> *final(self) == *old(self),
            (match old(self).spec_liquidate(
                liquidator@,
                user@,
                collateral_denom@,
                debt_denom@,
                amount,
                now,
            ) {
                Ok(pair) => r is Ok && r->Ok_0.0 == pair.0 && r->Ok_0.1 == pair.1,
                Err(e) => r == Err::<(u128, u128), Error>(e),
            }),
            r is Ok ==> {
                let pre = *old(self);
                let post = *final(self);
                let cd = collateral_denom@;
                let dd = debt_denom@;
                let mc1 = spec_accrued_market(pre.spec_market(cd), now);
                let md1 = spec_accrued_market(pre.spec_market(dd), now);
                let li = spec_accrued_liquidity_index(pre.spec_market(cd), now);
                let bi = spec_accrued_borrow_index(pre.spec_market(dd), now);
                let repaid = r->Ok_0.0;
                let seize = r->Ok_0.1;
                let d = pre.debt_of(user@, dd);
                let owed = spec_underlying(d as int, bi);
                let c = pre.collateral_of(user@, cd);
                let held = spec_underlying(c as int, li);
                let burned_c = spec_scaled(seize as int, li);
                let burned_d = if repaid >= owed {
                    d as int
                } else {
                    spec_scaled(repaid as int, bi)
                };
                &&& seize <= held
                &&& repaid <= pre.close_factor * owed / (SCALE as int)
                &&& (if cd == dd {
                    post.markets@ == pre.markets@.insert(
                        dd,
                        (Market {
                            scaled_debt_total: (md1.scaled_debt_total - burned_d) as u128,
                            ..md1
                        }),
                    )
                } else {
                    post.markets@ == pre.markets@.insert(cd, mc1).insert(
                        dd,
                        (Market {
                            scaled_debt_total: (md1.scaled_debt_total - burned_d) as u128,
                            ..md1
                        }),
                    )
                })
                &&& post.debt_of(user@, dd) == d - burned_d
                &&& post.collateral_of(user@, cd) == c - burned_c
                &&& cd != dd ==> post.collateral_of(user@, dd) == pre.collateral_of(user@, dd)
                    && post.debt_of(user@, cd) == pre.debt_of(user@, cd)
                &&& post.limit_of(user@, dd) == pre.limit_of(user@, dd) && post.enabled_of(
                    user@,
                    dd,
                ) == pre.enabled_of(user@, dd)
                &&& post.limit_of(user@, cd) == pre.limit_of(user@, cd) && post.enabled_of(
                    user@,
                    cd,
                ) == pre.enabled_of(user@, cd)
                &&& post.spec_account(user@) == pre.liquidate_user_account(
                    user@,
                    dd,
                    cd,
                    (d - burned_d) as u128,
                    (c - burned_c) as u128,
                )
                &&& post.collateral_of(liquidator@, cd) == pre.collateral_of(liquidator@, cd)
                    + burned_c
                &&& post.enabled_of(liquidator@, cd) == (pre.collateral_of(liquidator@, cd) == 0
                    || pre.enabled_of(liquidator@, cd))
                &&& post.debt_of(liquidator@, cd) == pre.debt_of(liquidator@, cd)
                &&& post.limit_of(liquidator@, cd) == pre.limit_of(liquidator@, cd)
                &&& post.spec_account(liquidator@) == pre.account_with_collateral_credit(
                    liquidator@,
                    *collateral_denom,
                    (pre.collateral_of(liquidator@, cd) + burned_c) as u128,
                    (pre.collateral_of(liquidator@, cd) == 0 || pre.enabled_of(liquidator@, cd)),
                )
                &&& forall|u2: Seq<char>, d2: Seq<char>|
                    u2 != user@ && u2 != liquidator@ ==> #[trigger] post.collateral_of(u2, d2)
                        == pre.collateral_of(u2, d2) && post.debt_of(u2, d2) == pre.debt_of(u2, d2)
                        && post.limit_of(u2, d2) == pre.limit_of(u2, d2) && post.enabled_of(u2, d2)
                        == pre.enabled_of(u2, d2)
                &&& forall|d2: Seq<char>|
                    d2 != cd && d2 != dd ==> #[trigger] post.collateral_of(user@, d2)
                        == pre.collateral_of(user@, d2) && post.debt_of(user@, d2) == pre.debt_of(
                        user@,
                        d2,
                    ) && post.limit_of(user@, d2) == pre.limit_of(user@, d2) && post.enabled_of(
                        user@,
                        d2,
                    ) == pre.enabled_of(user@, d2)
                &&& forall|d2: Seq<char>|
                    d2 != cd ==> #[trigger] post.collateral_of(liquidator@, d2)
                        == pre.collateral_of(liquidator@, d2) && post.debt_of(liquidator@, d2)
                        == pre.debt_of(liquidator@, d2) && post.limit_of(liquidator@, d2)
                        == pre.limit_of(liquidator@, d2) && post.enabled_of(liquidator@, d2)
                        == pre.enabled_of(liquidator@, d2)
                &&& post.prices == pre.prices
                &&& post.owner == pre.owner
                &&& post.close_factor == pre.close_factor
                &&& post.wf()
                &&& post.time_ok(now)
            },
    {
        if *liquidator == *user {
            return Err(Error::Unauthorized);
        }
        let mc0 = match self.markets.get(collateral_denom.as_str()) {
            Some(m) => *m,
            None => {
                return Err(Error::NotFound);
            },
        };
        let md0 = match self.markets.get(debt_denom.as_str()) {
            Some(m) => *m,
            None => {
                return Err(Error::NotFound);
            },
        };
        let same_denom = *collateral_denom == *debt_denom;
        let mut mc1 = mc0;
        match accrue(&mut mc1, now) {
            Ok(_) => (),
            Err(e) => {
                return Err(e);
            },
        }
        let mut md1 = if same_denom {
            mc1
        } else {
            let mut x = md0;
            match accrue(&mut x, now) {
                Ok(_) => (),
                Err(e) => {
                    return Err(e);
                },
            }
            x
        };
        let mut ps_u = self.account_of(user);
        let ghost pre_ps_u = ps_u@;
        let snapshot = match compute_position(&ps_u, &self.markets, &self.prices, now) {
            Ok(v) => v,
            Err(e) => {
                return Err(e);
            },
        };
        if !is_liquidatable(&snapshot.health_status) {
            return Err(Error::NotLiquidatable);
        }
        let idx_dd = find_position(&ps_u, debt_denom);
        let d: u128 = match idx_dd {
            Some(i) => ps_u[i].debt_scaled,
            None => 0,
        };
        if d == 0 {
            return Err(Error::CannotRepayZeroDebt);
        }
        proof {
            let j = spec_index_of(pre_ps_u, debt_denom@);
            assert(pos_fits(pre_ps_u[j], self.markets@, self.prices@, now));
            assert(needs_price(pre_ps_u[j]));
        }
        let owed = match mul_div(d, md1.borrow_index, SCALE) {
            Ok(v) => v,
            Err(e) => {
                return Err(e);
            },
        };
        if owed == 0 {
            return Err(Error::CannotRepayZeroDebt);
        }
        let idx_cd = find_position(&ps_u, collateral_denom);
        let c: u128 = match idx_cd {
            Some(i) => ps_u[i].collateral_scaled,
            None => 0,
        };
        if c == 0 {
            return Err(Error::InvalidAmount);
        }
        let held = match mul_div(c, mc1.liquidity_index, SCALE) {
            Ok(v) => v,
            Err(e) => {
                return Err(e);
            },
        };
        if held == 0 {
            return Err(Error::InvalidAmount);
        }
        let price_c: u128 = match self.prices.get(collateral_denom.as_str()) {
            Some(v) => *v,
            None => {
                return Err(Error::NoPriceSource);
            },
        };
        let price_d: u128 = match self.prices.get(debt_denom.as_str()) {
            Some(v) => *v,
            None => {
                return Err(Error::NoPriceSource);
            },
        };
        let (repaid, seize) = match self.liquidate_amounts(
            user,
            collateral_denom,
            debt_denom,
            amount,
            now,
        ) {
            Ok(p) => p,
            Err(e) => {
                return Err(e);
            },
        };
        proof {
            crate::fixed::lemma_scaled_roundtrip_le(
                c as int,
                seize as int,
                mc1.liquidity_index as int,
            );
        }
        let burned_c = match mul_div(seize, SCALE, mc1.liquidity_index) {
            Ok(v) => v,
            Err(e) => {
                return Err(e);
            },
        };
        let burned_d: u128 = if repaid >= owed {
            d
        } else {
            let b = match mul_div(repaid, SCALE, md1.borrow_index) {
                Ok(v) => v,
                Err(e) => {
                    return Err(e);
                },
            };
            proof {
                crate::fixed::lemma_scaled_roundtrip_le(
                    d as int,
                    repaid as int,
                    md1.borrow_index as int,
                );
            }
            b
        };
        let new_sdt = match md1.scaled_debt_total.checked_sub(burned_d) {
            Some(v) => v,
            None => {
                return Err(Error::Underflow);
            },
        };
        let mut ps_l = self.account_of(liquidator);
        let ghost pre_ps_l = ps_l@;
        let idx_lc = find_position(&ps_l, collateral_denom);
        let lc: u128 = match idx_lc {
            Some(i) => ps_l[i].collateral_scaled,
            None => 0,
        };
        let new_lc = match lc.checked_add(burned_c) {
            Some(v) => v,
            None => {
                return Err(Error::Overflow);
            },
        };
        // commit: user loses debt and collateral
        match idx_dd {
            Some(i) => {
                ps_u[i].debt_scaled = d - burned_d;
            },
            None => (),
        }
        let ghost mid_ps_u = ps_u@;
        proof {
            assert(account_updated_at(pre_ps_u, mid_ps_u, debt_denom@));
            lemma_lookup_after_update(pre_ps_u, mid_ps_u, debt_denom@);
        }
        let idx_cd2 = find_position(&ps_u, collateral_denom);
        match idx_cd2 {
            Some(i) => {
                ps_u[i].collateral_scaled = c - burned_c;
            },
            None => (),
        }
        let ghost post_ps_u = ps_u@;
        proof {
            assert(account_updated_at(mid_ps_u, post_ps_u, collateral_denom@));
        }
        // liquidator gains collateral
        match idx_lc {
            Some(i) => {
                if ps_l[i].collateral_scaled == 0 {
                    ps_l[i].enabled_as_collateral = true;
                }
                ps_l[i].collateral_scaled = new_lc;
            },
            None => {
                ps_l.push(
                    Position {
                        denom: collateral_denom.clone(),
                        collateral_scaled: new_lc,
                        enabled_as_collateral: true,
                        debt_scaled: 0,
                        uncollateralized_limit: 0,
                    },
                );
            },
        }
        let ghost post_ps_l = ps_l@;
        md1.scaled_debt_total = new_sdt;
        if same_denom {
            self.markets.insert(debt_denom.clone(), md1);
        } else {
            self.markets.insert(collateral_denom.clone(), mc1);
            self.markets.insert(debt_denom.clone(), md1);
        }
        self.accounts.insert(user.clone(), ps_u);
        self.accounts.insert(liquidator.clone(), ps_l);
        proof {
            liquidate_commit_glue(
                *old(self),
                *self,
                user@,
                liquidator@,
                debt_denom@,
                collateral_denom@,
                mid_ps_u,
                now,
            );
            assert(post_ps_u =~= old(self).liquidate_user_account(
                user@,
                debt_denom@,
                collateral_denom@,
                (d - burned_d) as u128,
                (c - burned_c) as u128,
            ));
            assert(post_ps_l =~= old(self).account_with_collateral_credit(
                liquidator@,
                *collateral_denom,
                new_lc,
                (lc == 0 || old(self).enabled_of(liquidator@, collateral_denom@)),
            ));
            assert forall|d2: Seq<char>|
                d2 != collateral_denom@ && d2 != debt_denom@ implies #[trigger] self.collateral_of(
                user@,
                d2,
            ) == old(self).collateral_of(user@, d2) && self.debt_of(user@, d2) == old(
                self,
            ).debt_of(user@, d2) && self.limit_of(user@, d2) == old(self).limit_of(user@, d2)
                && self.enabled_of(user@, d2) == old(self).enabled_of(user@, d2) by {
                assert(spec_has(self.spec_account(user@), d2) == spec_has(
                    old(self).spec_account(user@),
                    d2,
                ));
            }
            assert forall|d2: Seq<char>| d2 != collateral_denom@ implies #[trigger] self
                .collateral_of(liquidator@, d2) == old(self).collateral_of(liquidator@, d2)
                && self.debt_of(liquidator@, d2) == old(self).debt_of(liquidator@, d2)
                && self.limit_of(liquidator@, d2) == old(self).limit_of(liquidator@, d2)
                && self.enabled_of(liquidator@, d2) == old(self).enabled_of(liquidator@, d2) by {
                assert(spec_has(self.spec_account(liquidator@), d2) == spec_has(
                    old(self).spec_account(liquidator@),
                    d2,
                ));
            }
            assert(self.debt_of(user@, debt_denom@) == d - burned_d);
            assert(self.collateral_of(user@, collateral_denom@) == c - burned_c);
            assert(self.collateral_of(liquidator@, collateral_denom@) == lc + burned_c);
            assert(self.enabled_of(liquidator@, collateral_denom@) == (lc == 0 || old(
                self,
            ).enabled_of(liquidator@, collateral_denom@)));
            assert(self.wf());
            assert(self.time_ok(now)) by {
                assert forall|dx: Seq<char>| #[trigger] self.markets@.contains_key(dx) implies
                    self.markets@[dx].indexes_last_updated <= now by {
                    if dx != collateral_denom@ && dx != debt_denom@ {
                        assert(self.markets@[dx] == old(self).markets@[dx]);
                    }
                }
            }
        }
        Ok((repaid, seize))
    }

    /// The arithmetic middle of a liquidation, deciding how much debt is
    /// repaid and how much collateral is seized; implements
    /// [`Ledger::spec_liquidate_amounts`] exactly. The repaid amount never
    /// exceeds `close_factor` times the outstanding debt, and the seized
    /// amount never exceeds what the user holds.
    fn liquidate_amounts(
        &self,
        user: &String,
        collateral_denom: &String,
        debt_denom: &String,
        amount: u128,
        now: u64,
    ) -> (r: Result<(u128, u128), Error>)
        requires
            self.wf(),
            self.has_market(collateral_denom@),
            self.has_market(debt_denom@),
            self.has_price(collateral_denom@),
            self.has_price(debt_denom@),
            accrual_fits(self.spec_market(collateral_denom@), now),
            accrual_fits(self.spec_market(debt_denom@), now),
            self.spec_market(collateral_denom@).indexes_last_updated <= now,
            self.spec_market(debt_denom@).indexes_last_updated <= now,
            spec_underlying(
                self.debt_of(user@, debt_denom@) as int,
                spec_accrued_borrow_index(self.spec_market(debt_denom@), now),
            ) > 0,
            fits(
                self.debt_of(user@, debt_denom@) * spec_accrued_borrow_index(
                    self.spec_market(debt_denom@),
                    now,
                ),
            ),
            fits(
                self.collateral_of(user@, collateral_denom@) * spec_accrued_liquidity_index(
                    self.spec_market(collateral_denom@),
                    now,
                ),
            ),
        ensures
            (match self.spec_liquidate_amounts(user@, collateral_denom@, debt_denom@, amount, now) {
                Ok(pair) => r is Ok && r->Ok_0.0 == pair.0 && r->Ok_0.1 == pair.1,
                Err(e) => r == Err::<(u128, u128), Error>(e),
            }),
            r is Ok ==> {
                let owed = spec_underlying(
                    self.debt_of(user@, debt_denom@) as int,
                    spec_accrued_borrow_index(self.spec_market(debt_denom@), now),
                );
                let held = spec_underlying(
                    self.collateral_of(user@, collateral_denom@) as int,
                    spec_accrued_liquidity_index(self.spec_market(collateral_denom@), now),
                );
                &&& r->Ok_0.0 <= self.close_factor * owed / (SCALE as int)
                &&& self.close_factor * owed / (SCALE as int) <= owed
                &&& r->Ok_0.1 <= held
            },
    {
        let mc0 = match self.markets.get(collateral_denom.as_str()) {
            Some(m) => *m,
            None => {
                return Err(Error::NotFound);
            },
        };
        let md0 = match self.markets.get(debt_denom.as_str()) {
            Some(m) => *m,
            None => {
                return Err(Error::NotFound);
            },
        };
        let mut mc1 = mc0;
        match accrue(&mut mc1, now) {
            Ok(_) => (),
            Err(e) => {
                return Err(e);
            },
        }
        let mut md1 = md0;
        match accrue(&mut md1, now) {
            Ok(_) => (),
            Err(e) => {
                return Err(e);
            },
        }
        let ps = self.account_of(user);
        let d: u128 = match find_position(&ps, debt_denom) {
            Some(i) => ps[i].debt_scaled,
            None => 0,
        };
        let owed = match mul_div(d, md1.borrow_index, SCALE) {
            Ok(v) => v,
            Err(e) => {
                return Err(e);
            },
        };
        let c: u128 = match find_position(&ps, collateral_denom) {
            Some(i) => ps[i].collateral_scaled,
            None => 0,
        };
        let held = match mul_div(c, mc1.liquidity_index, SCALE) {
            Ok(v) => v,
            Err(e) => {
                return Err(e);
            },
        };
        let price_c: u128 = match self.prices.get(collateral_denom.as_str()) {
            Some(v) => *v,
            None => {
                return Err(Error::NoPriceSource);
            },
        };
        let price_d: u128 = match self.prices.get(debt_denom.as_str()) {
            Some(v) => *v,
            None => {
                return Err(Error::NoPriceSource);
            },
        };
        let max_repay = match mul_div(self.close_factor, owed, SCALE) {
            Ok(v) => v,
            Err(e) => {
                return Err(e);
            },
        };
        let repay0: u128 = if amount < max_repay {
            amount
        } else {
            max_repay
        };
        if repay0 == 0 {
            return Err(Error::InvalidAmount);
        }
        let bonus_factor = match SCALE.checked_add(mc1.liquidation_bonus) {
            Some(v) => v,
            None => {
                return Err(Error::Overflow);
            },
        };
        let repay_value = match mul_div(repay0, price_d, SCALE) {
            Ok(v) => v,
            Err(e) => {
                return Err(e);
            },
        };
        let seize_value = match mul_div(repay_value, bonus_factor, SCALE) {
            Ok(v) => v,
            Err(e) => {
                return Err(e);
            },
        };
        let seize0 = match mul_div(seize_value, SCALE, price_c) {
            Ok(v) => v,
            Err(e) => {
                return Err(e);
            },
        };
        proof {
            vstd::arithmetic::mul::lemma_mul_inequality(
                self.close_factor as int,
                SCALE as int,
                owed as int,
            );
            vstd::arithmetic::div_mod::lemma_div_is_ordered(
                self.close_factor * owed,
                SCALE * (owed as int),
                SCALE as int,
            );
            vstd::arithmetic::mul::lemma_mul_is_commutative(SCALE as int, owed as int);
            vstd::arithmetic::div_mod::lemma_div_by_multiple(owed as int, SCALE as int);
            assert(max_repay <= owed);
        }
        if seize0 <= held {
            Ok((repay0, seize0))
        } else {
            let held_value = match mul_div(held, price_c, SCALE) {
                Ok(v) => v,
                Err(e) => {
                    return Err(e);
                },
            };
            let reduced_value = match mul_div(held_value, SCALE, bonus_factor) {
                Ok(v) => v,
                Err(e) => {
                    return Err(e);
                },
            };
            let repay2 = match mul_div(reduced_value, SCALE, price_d) {
                Ok(v) => v,
                Err(e) => {
                    return Err(e);
                },
            };
            Ok((if repay2 < repay0 { repay2 } else { repay0 }, held))
        }
    }

    /// The market as accrued to `now`, without committing the accrual; what
    /// every amount-returning query reads through.
    pub fn query_market(&self, denom: &String, now: u64) -> (r: Result<Market, Error>)
        requires
            self.wf(),
            self.time_ok(now),
        ensures
            r == Err::<Market, Error>(Error::NotFound) <==> !self.has_market(denom@),
            self.has_market(denom@) ==> (r == Err::<Market, Error>(Error::Overflow) <==> !accrual_fits(
                self.spec_market(denom@),
                now,
            )),
            r is Ok <==> self.has_market(denom@) && accrual_fits(self.spec_market(denom@), now),
            r is Ok ==> r->Ok_0 == spec_accrued_market(self.spec_market(denom@), now),
    {
        let m0 = match self.markets.get(denom.as_str()) {
            Some(m) => *m,
            None => {
                return Err(Error::NotFound);
            },
        };
        let mut m1 = m0;
        match accrue(&mut m1, now) {
            Ok(_) => Ok(m1),
            Err(e) => Err(e),
        }
    }

    /// The user's collateral in a denom: the stored scaled balance, its real
    /// amount under the accrued liquidity index, and the enabled flag.
    pub fn query_user_collateral(&self, user: &String, denom: &String, now: u64) -> (r: Result<
        UserCollateralResponse,
        Error,
    >)
        requires
            self.wf(),
            self.time_ok(now),
        ensures
            r == Err::<UserCollateralResponse, Error>(Error::NotFound) <==> !self.has_market(
                denom@,
            ),
            r is Ok ==> {
                let li = spec_accrued_liquidity_index(self.spec_market(denom@), now);
                let c = self.collateral_of(user@, denom@);
                &&& r->Ok_0.amount_scaled == c
                &&& r->Ok_0.amount == spec_underlying(c as int, li)
                &&& r->Ok_0.enabled == self.enabled_of(user@, denom@)
            },
            self.has_market(denom@) ==> (r is Ok <==> accrual_fits(self.spec_market(denom@), now)
                && fits(
                self.collateral_of(user@, denom@) * spec_accrued_liquidity_index(
                    self.spec_market(denom@),
                    now,
                ),
            )),
            r is Err ==> r->Err_0 == Error::NotFound || r->Err_0 == Error::Overflow,
    {
        let m0 = match self.markets.get(denom.as_str()) {
            Some(m) => *m,
            None => {
                return Err(Error::NotFound);
            },
        };
        let mut m1 = m0;
        match accrue(&mut m1, now) {
            Ok(_) => (),
            Err(e) => {
                return Err(e);
            },
        }
        let ps = self.account_of(user);
        let (scaled, enabled): (u128, bool) = match find_position(&ps, denom) {
            Some(i) => (ps[i].collateral_scaled, ps[i].enabled_as_collateral),
            None => (0, false),
        };
        let amount = match mul_div(scaled, m1.liquidity_index, SCALE) {
            Ok(v) => v,
            Err(e) => {
                return Err(e);
            },
        };
        Ok(UserCollateralResponse { amount_scaled: scaled, amount, enabled })
    }

    /// The user's debt in a denom: the stored scaled balance, its real amount
    /// under the accrued borrow index, and whether a trust-based limit backs
    /// it.
    pub fn query_user_debt(&self, user: &String, denom: &String, now: u64) -> (r: Result<
        UserDebtResponse,
        Error,
    >)
        requires
            self.wf(),
            self.time_ok(now),
        ensures
            r == Err::<UserDebtResponse, Error>(Error::NotFound) <==> !self.has_market(denom@),
            r is Ok ==> {
                let bi = spec_accrued_borrow_index(self.spec_market(denom@), now);
                let d = self.debt_of(user@, denom@);
                &&& r->Ok_0.amount_scaled == d
                &&& r->Ok_0.amount == spec_underlying(d as int, bi)
                &&& r->Ok_0.uncollateralized == (self.limit_of(user@, denom@) > 0)
            },
            self.has_market(denom@) ==> (r is Ok <==> accrual_fits(self.spec_market(denom@), now)
                && fits(
                self.debt_of(user@, denom@) * spec_accrued_borrow_index(
                    self.spec_market(denom@),
                    now,
                ),
            )),
            r is Err ==> r->Err_0 == Error::NotFound || r->Err_0 == Error::Overflow,
    {
        let m0 = match self.markets.get(denom.as_str()) {
            Some(m) => *m,
            None => {
                return Err(Error::NotFound);
            },
        };
        let mut m1 = m0;
        match accrue(&mut m1, now) {
            Ok(_) => (),
            Err(e) => {
                return Err(e);
            },
        }
        let ps = self.account_of(user);
        let (scaled, limit): (u128, u128) = match find_position(&ps, denom) {
            Some(i) => (ps[i].debt_scaled, ps[i].uncollateralized_limit),
            None => (0, 0),
        };
        let amount = match mul_div(scaled, m1.borrow_index, SCALE) {
            Ok(v) => v,
            Err(e) => {
                return Err(e);
            },
        };
        Ok(UserDebtResponse { amount_scaled: scaled, amount, uncollateralized: limit > 0 })
    }

    /// The user's full health snapshot at `now`, across every market the
    /// account touches.
    pub fn query_user_position(&self, user: &String, now: u64) -> (r: Result<
        UserPositionResponse,
        Error,
    >)
        requires
            self.wf(),
            self.time_ok(now),
        ensures
            (match r {
                Ok(o) => {
                    let ps = self.spec_account(user@);
                    &&& prices_present(ps, self.prices@)
                    &&& health_computable(ps, self.markets@, self.prices@, now)
                    &&& o.total_collateral_value == crate::health::total_collateral_value(
                        ps,
                        self.markets@,
                        self.prices@,
                        now,
                    )
                    &&& o.total_debt_value == crate::health::total_debt_value(
                        ps,
                        self.markets@,
                        self.prices@,
                        now,
                    )
                    &&& o.weighted_max_ltv_collateral == crate::health::total_ltv_weighted(
                        ps,
                        self.markets@,
                        self.prices@,
                        now,
                    )
                    &&& o.weighted_liquidation_threshold_collateral
                        == crate::health::total_liq_weighted(ps, self.markets@, self.prices@, now)
                    &&& o.health_status == spec_health_status(
                        ps,
                        self.markets@,
                        self.prices@,
                        now,
                    )
                },
                Err(e) => {
                    let ps = self.spec_account(user@);
                    &&& (e == Error::NoPriceSource <==> !prices_present(ps, self.prices@))
                    &&& (prices_present(ps, self.prices@) ==> (e == Error::Overflow
                        <==> !health_computable(ps, self.markets@, self.prices@, now)))
                },
            }),
    {
        let ps = self.account_of(user);
        compute_position(&ps, &self.markets, &self.prices, now)
    }

    /// The scaled balance a deposit of `amount` would mint right now.
    pub fn query_scaled_liquidity_amount(&self, denom: &String, amount: u128, now: u64) -> (r:
        Result<u128, Error>)
        requires
            self.wf(),
            self.time_ok(now),
        ensures
            r == Err::<u128, Error>(Error::NotFound) <==> !self.has_market(denom@),
            self.has_market(denom@) ==> (r is Ok <==> accrual_fits(self.spec_market(denom@), now)
                && fits(amount * SCALE)),
            r is Ok ==> r->Ok_0 == spec_scaled(
                amount as int,
                spec_accrued_liquidity_index(self.spec_market(denom@), now),
            ),
            r is Err ==> r->Err_0 == Error::NotFound || r->Err_0 == Error::Overflow,
    {
        let m0 = match self.markets.get(denom.as_str()) {
            Some(m) => *m,
            None => {
                return Err(Error::NotFound);
            },
        };
        let mut m1 = m0;
        match accrue(&mut m1, now) {
            Ok(_) => (),
            Err(e) => {
                return Err(e);
            },
        }
        mul_div(amount, SCALE, m1.liquidity_index)
    }

    /// The scaled balance a borrow of `amount` would draw right now.
    pub fn query_scaled_debt_amount(&self, denom: &String, amount: u128, now: u64) -> (r: Result<
        u128,
        Error,
    >)
        requires
            self.wf(),
            self.time_ok(now),
        ensures
            r == Err::<u128, Error>(Error::NotFound) <==> !self.has_market(denom@),
            self.has_market(denom@) ==> (r is Ok <==> accrual_fits(self.spec_market(denom@), now)
                && fits(amount * SCALE)),
            r is Ok ==> r->Ok_0 == spec_scaled(
                amount as int,
                spec_accrued_borrow_index(self.spec_market(denom@), now),
            ),
            r is Err ==> r->Err_0 == Error::NotFound || r->Err_0 == Error::Overflow,
    {
        let m0 = match self.markets.get(denom.as_str()) {
            Some(m) => *m,
            None => {
                return Err(Error::NotFound);
            },
        };
        let mut m1 = m0;
        match accrue(&mut m1, now) {
            Ok(_) => (),
            Err(e) => {
                return Err(e);
            },
        }
        mul_div(amount, SCALE, m1.borrow_index)
    }

    /// The user's trust-based borrowing allowance for a denom; zero when none
    /// was ever granted.
    pub fn query_uncollateralized_loan_limit(&self, user: &String, denom: &String) -> (r: u128)
        requires
            self.wf(),
        ensures
            r == self.limit_of(user@, denom@),
    {
        let ps = self.account_of(user);
        match find_position(&ps, denom) {
            Some(i) => ps[i].uncollateralized_limit,
            None => 0,
        }
    }

    /// The user's entries as an owned copy; empty for an untouched user.
    fn account_of(&self, user: &String) -> (r: Vec<Position>)
        ensures
            r@ == self.spec_account(user@),
    {
        match self.accounts.get(user.as_str()) {
            Some(v) => clone_positions(v),
            None => Vec::new(),
        }
    }

    /// Grants or updates a user's trust-based borrowing allowance for a
    /// denom, as the privileged owner; no health check is involved. The
    /// denom must have a market.
    pub fn update_uncollateralized_loan_limit(
        &mut self,
        caller: &String,
        user: &String,
        denom: &String,
        new_limit: u128,
    ) -> (r: Result<(), Error>)
        requires
            old(self).wf(),
        ensures
            r == Err::<(), Error>(Error::Unauthorized) <==> caller@ != old(self).owner@,
            caller@ == old(self).owner@ ==> (r == Err::<(), Error>(Error::NotFound) <==> !old(
                self,
            ).has_market(denom@)),
            r is Ok <==> caller@ == old(self).owner@ && old(self).has_market(denom@),
            r is Err ==> *final(self) == *old(self),
            r is Ok ==> {
                &&& final(self).limit_of(user@, denom@) == new_limit
                &&& final(self).collateral_of(user@, denom@) == old(self).collateral_of(
                    user@,
                    denom@,
                )
                &&& final(self).debt_of(user@, denom@) == old(self).debt_of(user@, denom@)
                &&& forall|u2: Seq<char>, d2: Seq<char>|
                    u2 != user@ || d2 != denom@ ==> #[trigger] final(self).limit_of(u2, d2) == old(
                        self,
                    ).limit_of(u2, d2) && final(self).collateral_of(u2, d2) == old(
                        self,
                    ).collateral_of(u2, d2) && final(self).debt_of(u2, d2) == old(self).debt_of(
                        u2,
                        d2,
                    ) && final(self).enabled_of(u2, d2) == old(self).enabled_of(u2, d2)
                &&& final(self).markets == old(self).markets
                &&& final(self).prices == old(self).prices
                &&& final(self).owner == old(self).owner
                &&& final(self).close_factor == old(self).close_factor
                &&& final(self).wf()
            },
    {
        if !(*caller == self.owner) {
            return Err(Error::Unauthorized);
        }
        if !self.markets.contains_key(denom.as_str()) {
            return Err(Error::NotFound);
        }
        let mut ps = self.account_of(user);
        let ghost pre_ps = ps@;
        match find_position(&ps, denom) {
            Some(i) => {
                ps[i].uncollateralized_limit = new_limit;
                proof {
                    assert(account_updated_at(pre_ps, ps@, denom@));
                }
            },
            None => {
                ps.push(
                    Position {
                        denom: denom.clone(),
                        collateral_scaled: 0,
                        enabled_as_collateral: false,
                        debt_scaled: 0,
                        uncollateralized_limit: new_limit,
                    },
                );
                proof {
                    assert(account_updated_at(pre_ps, ps@, denom@));
                }
            },
        }
        let ghost post_ps = ps@;
        self.accounts.insert(user.clone(), ps);
        proof {
            assert(self.spec_account(user@) == post_ps);
            lemma_ledger_account_update(*old(self), *self, user@, denom@);
            assert(spec_position(post_ps, denom@).uncollateralized_limit == new_limit);
        }
        Ok(())
    }
}

/// After one user's account is reshaped at one denom — every other account
/// untouched, the market key set unchanged — the accounts side of the ledger
/// invariant still holds, every other (user, denom) reading is unchanged, and
/// the reshaped entry is the one the denom's lookup finds.
pub proof fn lemma_ledger_account_update(pre: Ledger, post: Ledger, user: Seq<char>, denom: Seq<char>)
    requires
        pre.wf(),
        pre.has_market(denom),
        forall|d: Seq<char>| #[trigger] post.markets@.contains_key(d)
            <==> pre.markets@.contains_key(d),
        post.accounts@.contains_key(user),
        account_updated_at(pre.spec_account(user), post.spec_account(user), denom),
        forall|u2: Seq<char>| u2 != user ==> (#[trigger] post.accounts@.contains_key(u2)
            <==> pre.accounts@.contains_key(u2)),
        forall|u2: Seq<char>| u2 != user && pre.accounts@.contains_key(u2)
            ==> #[trigger] post.accounts@[u2] == pre.accounts@[u2],
    ensures
        forall|u2: Seq<char>| #[trigger] post.accounts@.contains_key(u2) ==> account_wf(
            post.accounts@[u2]@,
            post.markets@,
        ),
        denoms_unique(post.spec_account(user)),
        spec_has(post.spec_account(user), denom),
        spec_index_of(post.spec_account(user), denom) == updated_index(
            pre.spec_account(user),
            denom,
        ),
        spec_position(post.spec_account(user), denom) == post.spec_account(user)[updated_index(
            pre.spec_account(user),
            denom,
        )],
        forall|u2: Seq<char>, d2: Seq<char>|
            u2 != user ==> #[trigger] post.collateral_of(u2, d2) == pre.collateral_of(u2, d2)
                && post.debt_of(u2, d2) == pre.debt_of(u2, d2) && post.limit_of(u2, d2)
                == pre.limit_of(u2, d2) && post.enabled_of(u2, d2) == pre.enabled_of(u2, d2),
        forall|d2: Seq<char>|
            d2 != denom ==> #[trigger] post.collateral_of(user, d2) == pre.collateral_of(user, d2)
                && post.debt_of(user, d2) == pre.debt_of(user, d2) && post.limit_of(user, d2)
                == pre.limit_of(user, d2) && post.enabled_of(user, d2) == pre.enabled_of(user, d2),
{
    let pre_ps = pre.spec_account(user);
    let post_ps = post.spec_account(user);
    assert(account_wf(pre_ps, pre.markets@)) by {
        if pre.accounts@.contains_key(user) {
        } else {
            assert(pre_ps.len() == 0);
        }
    }
    lemma_lookup_after_update(pre_ps, post_ps, denom);
    let i = updated_index(pre_ps, denom);
    assert(account_wf(post_ps, post.markets@)) by {
        assert forall|j: int| 0 <= j < post_ps.len() implies post.markets@.contains_key(
            (#[trigger] post_ps[j]).denom@,
        ) by {
            if j == i {
                assert(post_ps[j].denom@ == denom);
            } else {
                assert(post_ps[j] == pre_ps[j]);
                assert(pre.markets@.contains_key(pre_ps[j].denom@));
            }
        }
    }
    assert forall|u2: Seq<char>| #[trigger] post.accounts@.contains_key(u2) implies account_wf(
        post.accounts@[u2]@,
        post.markets@,
    ) by {
        if u2 == user {
            assert(post.accounts@[u2]@ == post_ps);
        } else {
            assert(pre.accounts@.contains_key(u2));
            assert(post.accounts@[u2] == pre.accounts@[u2]);
            assert(account_wf(pre.accounts@[u2]@, pre.markets@));
        }
    }
    assert forall|u2: Seq<char>, d2: Seq<char>| u2 != user implies #[trigger] post.collateral_of(
        u2,
        d2,
    ) == pre.collateral_of(u2, d2) && post.debt_of(u2, d2) == pre.debt_of(u2, d2)
        && post.limit_of(u2, d2) == pre.limit_of(u2, d2) && post.enabled_of(u2, d2)
        == pre.enabled_of(u2, d2) by {
        assert(post.spec_account(u2) == pre.spec_account(u2));
    }
}


/// After a liquidation's commit — the user's account reshaped at the debt
/// denom and then at the collateral denom, the liquidator's at the collateral
/// denom, every other account untouched, the market key set unchanged — the
/// accounts side of the ledger invariant still holds, every untouched
/// reading is unchanged, and each reshaped entry is the one its denom's
/// lookup finds.
pub proof fn liquidate_commit_glue(
    pre: Ledger,
    post: Ledger,
    user: Seq<char>,
    liquidator: Seq<char>,
    debt_denom: Seq<char>,
    collateral_denom: Seq<char>,
    mid_user: Seq<Position>,
    now: u64,
)
    requires
        pre.wf(),
        liquidator != user,
        pre.has_market(debt_denom),
        pre.has_market(collateral_denom),
        forall|d: Seq<char>| #[trigger] post.markets@.contains_key(d)
            <==> pre.markets@.contains_key(d),
        post.accounts@.contains_key(user),
        post.accounts@.contains_key(liquidator),
        account_updated_at(pre.spec_account(user), mid_user, debt_denom),
        account_updated_at(mid_user, post.spec_account(user), collateral_denom),
        account_updated_at(
            pre.spec_account(liquidator),
            post.spec_account(liquidator),
            collateral_denom,
        ),
        forall|u2: Seq<char>| u2 != user && u2 != liquidator ==> (#[trigger] post.accounts@.contains_key(u2)
            <==> pre.accounts@.contains_key(u2)),
        forall|u2: Seq<char>| u2 != user && u2 != liquidator && pre.accounts@.contains_key(u2)
            ==> #[trigger] post.accounts@[u2] == pre.accounts@[u2],
    ensures
        forall|u2: Seq<char>| #[trigger] post.accounts@.contains_key(u2) ==> account_wf(
            post.accounts@[u2]@,
            post.markets@,
        ),
        denoms_unique(post.spec_account(user)),
        denoms_unique(post.spec_account(liquidator)),
        spec_has(post.spec_account(user), collateral_denom),
        spec_index_of(post.spec_account(user), collateral_denom) == updated_index(
            mid_user,
            collateral_denom,
        ),
        spec_position(post.spec_account(user), collateral_denom) == post.spec_account(
            user,
        )[updated_index(mid_user, collateral_denom)],
        collateral_denom != debt_denom ==> spec_has(mid_user, debt_denom) && spec_has(
            post.spec_account(user),
            debt_denom,
        ) && spec_position(post.spec_account(user), debt_denom) == spec_position(
            mid_user,
            debt_denom,
        ),
        spec_has(mid_user, debt_denom),
        spec_index_of(mid_user, debt_denom) == updated_index(pre.spec_account(user), debt_denom),
        spec_position(mid_user, debt_denom) == mid_user[updated_index(
            pre.spec_account(user),
            debt_denom,
        )],
        spec_has(post.spec_account(liquidator), collateral_denom),
        spec_index_of(post.spec_account(liquidator), collateral_denom) == updated_index(
            pre.spec_account(liquidator),
            collateral_denom,
        ),
        spec_position(post.spec_account(liquidator), collateral_denom) == post.spec_account(
            liquidator,
        )[updated_index(pre.spec_account(liquidator), collateral_denom)],
        forall|d2: Seq<char>|
            d2 != collateral_denom && d2 != debt_denom ==> (#[trigger] spec_has(
                post.spec_account(user),
                d2,
            )) == spec_has(pre.spec_account(user), d2) && (spec_has(pre.spec_account(user), d2)
                ==> spec_position(post.spec_account(user), d2) == spec_position(
                pre.spec_account(user),
                d2,
            )),
        forall|d2: Seq<char>|
            d2 != collateral_denom ==> (#[trigger] spec_has(post.spec_account(liquidator), d2))
                == spec_has(pre.spec_account(liquidator), d2) && (spec_has(
                pre.spec_account(liquidator),
                d2,
            ) ==> spec_position(post.spec_account(liquidator), d2) == spec_position(
                pre.spec_account(liquidator),
                d2,
            )),
        forall|u2: Seq<char>, d2: Seq<char>|
            u2 != user && u2 != liquidator ==> #[trigger] post.collateral_of(u2, d2)
                == pre.collateral_of(u2, d2) && post.debt_of(u2, d2) == pre.debt_of(u2, d2)
                && post.limit_of(u2, d2) == pre.limit_of(u2, d2) && post.enabled_of(u2, d2)
                == pre.enabled_of(u2, d2),
{
    let pre_u = pre.spec_account(user);
    let post_u = post.spec_account(user);
    let pre_l = pre.spec_account(liquidator);
    let post_l = post.spec_account(liquidator);
    assert(account_wf(pre_u, pre.markets@)) by {
        if pre.accounts@.contains_key(user) {
        } else {
            assert(pre_u.len() == 0);
        }
    }
    assert(account_wf(pre_l, pre.markets@)) by {
        if pre.accounts@.contains_key(liquidator) {
        } else {
            assert(pre_l.len() == 0);
        }
    }
    lemma_lookup_after_update(pre_u, mid_user, debt_denom);
    lemma_lookup_after_update(mid_user, post_u, collateral_denom);
    lemma_lookup_after_update(pre_l, post_l, collateral_denom);
    let iu1 = updated_index(pre_u, debt_denom);
    let iu2 = updated_index(mid_user, collateral_denom);
    let il = updated_index(pre_l, collateral_denom);
    assert(account_wf(post_u, post.markets@)) by {
        assert forall|j: int| 0 <= j < post_u.len() implies post.markets@.contains_key(
            (#[trigger] post_u[j]).denom@,
        ) by {
            if j == iu2 {
                assert(post_u[j].denom@ == collateral_denom);
            } else {
                assert(post_u[j] == mid_user[j]);
                if j == iu1 {
                    assert(mid_user[j].denom@ == debt_denom);
                } else {
                    assert(mid_user[j] == pre_u[j]);
                    assert(pre.markets@.contains_key(pre_u[j].denom@));
                }
            }
        }
    }
    assert(account_wf(post_l, post.markets@)) by {
        assert forall|j: int| 0 <= j < post_l.len() implies post.markets@.contains_key(
            (#[trigger] post_l[j]).denom@,
        ) by {
            if j == il {
                assert(post_l[j].denom@ == collateral_denom);
            } else {
                assert(post_l[j] == pre_l[j]);
                assert(pre.markets@.contains_key(pre_l[j].denom@));
            }
        }
    }
    assert forall|u2: Seq<char>| #[trigger] post.accounts@.contains_key(u2) implies account_wf(
        post.accounts@[u2]@,
        post.markets@,
    ) by {
        if u2 == user {
            assert(post.accounts@[u2]@ == post_u);
        } else if u2 == liquidator {
            assert(post.accounts@[u2]@ == post_l);
        } else {
            assert(pre.accounts@.contains_key(u2));
            assert(post.accounts@[u2] == pre.accounts@[u2]);
            assert(account_wf(pre.accounts@[u2]@, pre.markets@));
        }
    }
    assert forall|d2: Seq<char>|
        d2 != collateral_denom && d2 != debt_denom implies (#[trigger] spec_has(post_u, d2))
        == spec_has(pre_u, d2) && (spec_has(pre_u, d2) ==> spec_position(post_u, d2)
        == spec_position(pre_u, d2)) by {
        assert(spec_has(mid_user, d2) == spec_has(pre_u, d2));
        assert(spec_has(post_u, d2) == spec_has(mid_user, d2));
    }
    assert forall|u2: Seq<char>, d2: Seq<char>| u2 != user && u2 != liquidator implies #[trigger] post
        .collateral_of(u2, d2) == pre.collateral_of(u2, d2) && post.debt_of(u2, d2) == pre.debt_of(
        u2,
        d2,
    ) && post.limit_of(u2, d2) == pre.limit_of(u2, d2) && post.enabled_of(u2, d2)
        == pre.enabled_of(u2, d2) by {
        assert(post.spec_account(u2) == pre.spec_account(u2));
    }
}

} // verus!\n