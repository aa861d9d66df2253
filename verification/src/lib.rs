//! A collateralized lending ledger: per-asset markets with lazily compounded
//! interest indices, per-user scaled collateral and debt balances, a
//! health-factor calculator over oracle prices, and the deposit / borrow /
//! repay / withdraw / liquidate state machine that they gate.
//!
//! All amounts are plain integers; fractional quantities (rates, indices,
//! prices, thresholds) are fixed-point decimals held as `u128` counts of
//! [`fixed::SCALE`] atomic parts.

pub mod account;
pub mod error;
pub mod fixed;
pub mod health;
pub mod interest;
pub mod laws;
pub mod ledger;
pub mod market;
