use red_bank::error::Error;
use red_bank::fixed::SCALE;
use red_bank::health::HealthStatus;
use red_bank::interest::InterestRateModel;
use red_bank::ledger::Ledger;
use red_bank::market::AssetParams;

fn owner() -> String {
    "owner".to_string()
}

fn s(x: &str) -> String {
    x.to_string()
}

fn pct(n: u128) -> u128 {
    n * SCALE / 100
}

fn params() -> AssetParams {
    AssetParams {
        interest_rate_model: InterestRateModel {
            optimal_utilization_rate: pct(80),
            base: pct(2),
            slope_1: pct(10),
            slope_2: pct(45),
        },
        reserve_factor: 0,
        max_loan_to_value: pct(60),
        liquidation_threshold: pct(80),
        liquidation_bonus: pct(10),
        deposit_cap: None,
        deposit_enabled: true,
        borrow_enabled: true,
    }
}

fn setup() -> Ledger {
    let mut led = Ledger::new(owner(), pct(80)).unwrap();
    led.init_asset(&owner(), &s("uosmo"), params(), 0).unwrap();
    led.init_asset(&owner(), &s("uatom"), params(), 0).unwrap();
    led.set_price_source_fixed(&owner(), &s("uosmo"), SCALE).unwrap();
    led.set_price_source_fixed(&owner(), &s("uatom"), SCALE).unwrap();
    led
}

#[test]
fn deposit_and_query_collateral() {
    let mut led = setup();
    let minted = led.deposit(&s("alice"), &s("uosmo"), 1000, 0).unwrap();
    assert_eq!(minted, 1000);
    let col = led.query_user_collateral(&s("alice"), &s("uosmo"), 0).unwrap();
    assert_eq!(col.amount_scaled, 1000);
    assert_eq!(col.amount, 1000);
    assert!(col.enabled);
}

#[test]
fn two_deposits_accumulate_additively() {
    let mut led = setup();
    led.deposit(&s("alice"), &s("uosmo"), 250, 0).unwrap();
    led.deposit(&s("alice"), &s("uosmo"), 250, 0).unwrap();
    let col = led.query_user_collateral(&s("alice"), &s("uosmo"), 0).unwrap();
    assert_eq!(col.amount_scaled, 500);
}

#[test]
fn deposit_withdraw_round_trip_restores_scaled_balance() {
    let mut led = setup();
    led.deposit(&s("alice"), &s("uosmo"), 77, 0).unwrap();
    let before = led.query_user_collateral(&s("alice"), &s("uosmo"), 0).unwrap();
    led.deposit(&s("alice"), &s("uosmo"), 1000, 0).unwrap();
    let out = led.withdraw(&s("alice"), &s("uosmo"), Some(1000), 0).unwrap();
    assert_eq!(out, 1000);
    let after = led.query_user_collateral(&s("alice"), &s("uosmo"), 0).unwrap();
    assert_eq!(after.amount_scaled, before.amount_scaled);
    let m = led.query_market(&s("uosmo"), 0).unwrap();
    assert_eq!(m.scaled_liquidity_total, 77);
}

#[test]
fn health_scenario_borrow_then_price_rise_makes_liquidatable() {
    let mut led = setup();
    led.deposit(&s("alice"), &s("uosmo"), 1000, 0).unwrap();
    led.deposit(&s("bob"), &s("uatom"), 1000, 0).unwrap();
    led.borrow(&s("alice"), &s("uatom"), 500, 0).unwrap();
    let pos = led.query_user_position(&s("alice"), 0).unwrap();
    assert_eq!(pos.total_collateral_value, 1000);
    assert_eq!(pos.total_debt_value, 500);
    match pos.health_status {
        HealthStatus::Borrowing { max_ltv_hf, liq_threshold_hf } => {
            assert_eq!(max_ltv_hf, 12 * SCALE / 10);
            assert_eq!(liq_threshold_hf, 16 * SCALE / 10);
        }
        HealthStatus::NotBorrowing => panic!("expected a borrowing status"),
    }
    // price of the borrowed asset rises to 1.7
    led.set_price_source_fixed(&owner(), &s("uatom"), 17 * SCALE / 10).unwrap();
    let pos = led.query_user_position(&s("alice"), 0).unwrap();
    assert_eq!(pos.total_debt_value, 850);
    match pos.health_status {
        HealthStatus::Borrowing { liq_threshold_hf, .. } => {
            assert_eq!(liq_threshold_hf, 800 * SCALE / 850);
            assert!(liq_threshold_hf < SCALE);
        }
        HealthStatus::NotBorrowing => panic!("expected a borrowing status"),
    }
}

#[test]
fn liquidation_seizes_bonus_and_caps_at_close_factor() {
    let mut led = setup();
    led.deposit(&s("alice"), &s("uosmo"), 1000, 0).unwrap();
    led.deposit(&s("bob"), &s("uatom"), 1000, 0).unwrap();
    led.borrow(&s("alice"), &s("uatom"), 500, 0).unwrap();
    led.set_price_source_fixed(&owner(), &s("uatom"), 17 * SCALE / 10).unwrap();
    // repay 100 uatom at 1.7, bonus 10%: seize 100*1.7*1.1 = 187 uosmo
    let (repaid, seized) =
        led.liquidate(&s("bob"), &s("alice"), &s("uosmo"), &s("uatom"), 100, 0).unwrap();
    assert_eq!(repaid, 100);
    assert_eq!(seized, 187);
    let col = led.query_user_collateral(&s("alice"), &s("uosmo"), 0).unwrap();
    assert_eq!(col.amount_scaled, 1000 - 187);
    let bobs = led.query_user_collateral(&s("bob"), &s("uosmo"), 0).unwrap();
    assert_eq!(bobs.amount_scaled, 187);
    // offering far more than close_factor * debt clamps the repayment
    let (repaid2, _) =
        led.liquidate(&s("bob"), &s("alice"), &s("uosmo"), &s("uatom"), 100_000, 0).unwrap();
    assert_eq!(repaid2, (500 - 100) * 80 / 100);
}

#[test]
fn liquidation_never_seizes_more_than_held() {
    let mut led = setup();
    led.deposit(&s("alice"), &s("uosmo"), 100, 0).unwrap();
    led.deposit(&s("bob"), &s("uatom"), 1000, 0).unwrap();
    led.borrow(&s("alice"), &s("uatom"), 60, 0).unwrap();
    // debt value quadruples: position deep under water
    led.set_price_source_fixed(&owner(), &s("uatom"), 4 * SCALE).unwrap();
    let (repaid, seized) =
        led.liquidate(&s("bob"), &s("alice"), &s("uosmo"), &s("uatom"), 48, 0).unwrap();
    // seizing 48*4*1.1 = 211 would exceed the 100 held: clamp and reduce
    assert!(seized <= 100);
    assert_eq!(seized, 100);
    assert_eq!(repaid, 100 * 10 / 44);
}

#[test]
fn healthy_position_is_not_liquidatable() {
    let mut led = setup();
    led.deposit(&s("alice"), &s("uosmo"), 1000, 0).unwrap();
    led.deposit(&s("bob"), &s("uatom"), 1000, 0).unwrap();
    led.borrow(&s("alice"), &s("uatom"), 500, 0).unwrap();
    let e = led.liquidate(&s("bob"), &s("alice"), &s("uosmo"), &s("uatom"), 100, 0);
    assert_eq!(e, Err(Error::NotLiquidatable));
}

#[test]
fn repay_more_than_debt_is_clamped_to_outstanding() {
    let mut led = setup();
    led.deposit(&s("alice"), &s("uosmo"), 1000, 0).unwrap();
    led.deposit(&s("bob"), &s("uatom"), 1000, 0).unwrap();
    led.borrow(&s("alice"), &s("uatom"), 500, 0).unwrap();
    let applied = led.repay(&s("alice"), &s("uatom"), 10_000, 0).unwrap();
    assert_eq!(applied, 500);
    let debt = led.query_user_debt(&s("alice"), &s("uatom"), 0).unwrap();
    assert_eq!(debt.amount_scaled, 0);
    assert_eq!(debt.amount, 0);
    // and repaying again finds no debt at all
    let e = led.repay(&s("alice"), &s("uatom"), 1, 0);
    assert_eq!(e, Err(Error::CannotRepayZeroDebt));
}

#[test]
fn borrow_beyond_collateral_fails_with_health_violation() {
    let mut led = setup();
    led.deposit(&s("alice"), &s("uosmo"), 1000, 0).unwrap();
    led.deposit(&s("bob"), &s("uatom"), 10_000, 0).unwrap();
    let sdt_before = led.query_market(&s("uatom"), 0).unwrap().scaled_debt_total;
    let e = led.borrow(&s("alice"), &s("uatom"), 601, 0);
    assert_eq!(e, Err(Error::HealthFactorViolation));
    let m = led.query_market(&s("uatom"), 0).unwrap();
    assert_eq!(m.scaled_debt_total, sdt_before);
    // exactly at the limit it succeeds: 1000 * 60% = 600
    led.borrow(&s("alice"), &s("uatom"), 600, 0).unwrap();
}

#[test]
fn uncollateralized_limit_bypasses_health_check() {
    let mut led = setup();
    led.deposit(&s("bob"), &s("uatom"), 10_000, 0).unwrap();
    let e = led.borrow(&s("carol"), &s("uatom"), 100, 0);
    assert_eq!(e, Err(Error::HealthFactorViolation));
    led.update_uncollateralized_loan_limit(&owner(), &s("carol"), &s("uatom"), 100).unwrap();
    assert_eq!(led.query_uncollateralized_loan_limit(&s("carol"), &s("uatom")), 100);
    led.borrow(&s("carol"), &s("uatom"), 100, 0).unwrap();
    let debt = led.query_user_debt(&s("carol"), &s("uatom"), 0).unwrap();
    assert!(debt.uncollateralized);
    assert_eq!(debt.amount, 100);
}

#[test]
fn interest_accrues_with_exact_indices() {
    let mut led = setup();
    led.deposit(&s("alice"), &s("uosmo"), 1000, 0).unwrap();
    led.deposit(&s("alice"), &s("uosmo"), 0, 0).unwrap();
    led.deposit(&s("bob"), &s("uosmo"), 0, 0).unwrap();
    led.borrow(&s("alice"), &s("uosmo"), 500, 0).unwrap();
    // utilization 50%: borrow rate 2% + 10% * 0.5/0.8 = 8.25%,
    // liquidity rate 8.25% * 50% = 4.125%; one year elapses
    let year: u64 = 31_536_000;
    let m = led.query_market(&s("uosmo"), year).unwrap();
    assert_eq!(m.borrow_index, 10825 * SCALE / 10000);
    assert_eq!(m.liquidity_index, 104125 * SCALE / 100000);
    assert_eq!(m.indexes_last_updated, year);
    let debt = led.query_user_debt(&s("alice"), &s("uosmo"), year).unwrap();
    assert_eq!(debt.amount, 500 * 10825 / 10000);
}

#[test]
fn accrual_is_idempotent_at_zero_elapsed() {
    let mut led = setup();
    led.deposit(&s("alice"), &s("uosmo"), 1000, 5).unwrap();
    let m1 = led.query_market(&s("uosmo"), 5).unwrap();
    let m2 = led.query_market(&s("uosmo"), 5).unwrap();
    assert_eq!(m1.liquidity_index, m2.liquidity_index);
    assert_eq!(m1.borrow_index, m2.borrow_index);
    assert_eq!(m1.liquidity_index, SCALE);
}

#[test]
fn error_cases_leave_state_unchanged() {
    let mut led = setup();
    assert_eq!(led.deposit(&s("alice"), &s("unknown"), 1, 0), Err(Error::AssetNotEnabled));
    assert_eq!(
        led.init_asset(&owner(), &s("uosmo"), params(), 0),
        Err(Error::AssetAlreadyInitialized)
    );
    let mut bad = params();
    bad.max_loan_to_value = pct(90);
    assert_eq!(led.init_asset(&owner(), &s("ubtc"), bad, 0), Err(Error::InvalidParams));
    assert_eq!(led.init_asset(&s("mallory"), &s("ubtc"), params(), 0), Err(Error::Unauthorized));
    assert_eq!(led.withdraw(&s("alice"), &s("unknown"), Some(1), 0), Err(Error::NotFound));
    assert_eq!(led.repay(&s("alice"), &s("uosmo"), 5, 0), Err(Error::CannotRepayZeroDebt));
    led.deposit(&s("alice"), &s("uosmo"), 10, 0).unwrap();
    assert_eq!(led.withdraw(&s("alice"), &s("uosmo"), Some(11), 0), Err(Error::InvalidAmount));
    assert_eq!(led.borrow(&s("alice"), &s("uosmo"), 11, 0), Err(Error::InsufficientLiquidity));
    assert_eq!(led.deposit(&s("alice"), &s("uosmo"), u128::MAX, 0), Err(Error::Overflow));
    assert_eq!(
        led.liquidate(&s("alice"), &s("alice"), &s("uosmo"), &s("uosmo"), 1, 0),
        Err(Error::Unauthorized)
    );
}

#[test]
fn deposit_cap_is_enforced() {
    let mut led = Ledger::new(owner(), pct(80)).unwrap();
    let mut p = params();
    p.deposit_cap = Some(100);
    led.init_asset(&owner(), &s("uosmo"), p, 0).unwrap();
    led.deposit(&s("alice"), &s("uosmo"), 60, 0).unwrap();
    assert_eq!(led.deposit(&s("bob"), &s("uosmo"), 41, 0), Err(Error::DepositCapExceeded));
    led.deposit(&s("bob"), &s("uosmo"), 40, 0).unwrap();
}

#[test]
fn missing_price_blocks_health_checks() {
    let mut led = Ledger::new(owner(), pct(80)).unwrap();
    led.init_asset(&owner(), &s("uosmo"), params(), 0).unwrap();
    led.init_asset(&owner(), &s("uatom"), params(), 0).unwrap();
    led.deposit(&s("alice"), &s("uosmo"), 1000, 0).unwrap();
    led.deposit(&s("bob"), &s("uatom"), 1000, 0).unwrap();
    assert_eq!(led.borrow(&s("alice"), &s("uatom"), 10, 0), Err(Error::NoPriceSource));
    // without debt, a full withdraw needs no price at all
    led.withdraw(&s("alice"), &s("uosmo"), None, 0).unwrap();
    let col = led.query_user_collateral(&s("alice"), &s("uosmo"), 0).unwrap();
    assert_eq!(col.amount_scaled, 0);
}

#[test]
fn withdraw_full_balance_with_none() {
    let mut led = setup();
    led.deposit(&s("alice"), &s("uosmo"), 321, 0).unwrap();
    let out = led.withdraw(&s("alice"), &s("uosmo"), None, 0).unwrap();
    assert_eq!(out, 321);
    let m = led.query_market(&s("uosmo"), 0).unwrap();
    assert_eq!(m.scaled_liquidity_total, 0);
}

#[test]
fn scaled_amount_queries_follow_the_indices() {
    let mut led = setup();
    assert_eq!(led.query_scaled_liquidity_amount(&s("uosmo"), 1234, 0).unwrap(), 1234);
    assert_eq!(led.query_scaled_debt_amount(&s("uosmo"), 1234, 0).unwrap(), 1234);
    assert_eq!(led.query_scaled_debt_amount(&s("nope"), 1, 0), Err(Error::NotFound));
}
