use vstd::prelude::*;

verus! {

/// Every failure a ledger operation can surface. Validation failures leave the
/// ledger unchanged; `Overflow` and `Underflow` report arithmetic bounds being
/// exceeded and are likewise all-or-nothing.
#[derive(Clone, Copy, Debug, PartialEq, Eq, Structural)]
pub enum Error {
    /// `init_asset` called for a denom that already has a market.
    AssetAlreadyInitialized,
    /// Market parameters violate the market invariant
    /// (`max_loan_to_value <= liquidation_threshold <= 1`, rates in range),
    /// or a fixed price of zero was supplied.
    InvalidParams,
    /// Unknown denom, market, or user record.
    NotFound,
    /// A privileged operation was called by a non-privileged caller.
    Unauthorized,
    /// Deposit attempted while `deposit_enabled` is off or the market is
    /// unknown, or borrow attempted while `borrow_enabled` is off or the
    /// market is unknown.
    AssetNotEnabled,
    /// A deposit would push the market's underlying liquidity above its cap.
    DepositCapExceeded,
    /// A borrow asks for more than the market's free liquidity.
    InsufficientLiquidity,
    /// A borrow or withdraw would leave the account's max-loan-to-value
    /// health factor below one.
    HealthFactorViolation,
    /// A repay or liquidation names a denom in which the user owes nothing.
    CannotRepayZeroDebt,
    /// A withdraw asks for more than the held collateral, or a liquidation
    /// finds nothing to seize or repay.
    InvalidAmount,
    /// Liquidation attempted on a position whose liquidation-threshold
    /// health factor is not below one.
    NotLiquidatable,
    /// No fixed price has been stored for a denom the operation needs.
    NoPriceSource,
    /// An intermediate product or sum exceeds the arithmetic range.
    Overflow,
    /// A subtraction would go below zero; stored totals never do so silently.
    Underflow,
}

} // verus!
