//! Why an operation was refused.
//!
//! Every error aborts the whole operation with no partial state change.
//! Limit-style variants carry the limit that was violated so the caller can
//! correct and resubmit.

use vstd::prelude::*;
use crate::decimal::Decimal;

verus! {

/// Abort reason of a refused operation.
#[derive(Clone, Copy, PartialEq, Eq, Structural, Debug)]
pub enum LendingError {
    /// The asset has no registered pool.
    PoolNotFound,
    /// A pool is already registered for the asset.
    PoolAlreadyExists,
    /// The identity has no recorded position.
    UserNotFound,
    /// The price snapshot lacks an asset the position holds.
    PriceNotFound,
    /// The loan-to-value ratio must be between 0 and 1.
    InvalidLtvRatio,
    /// The multiplier must be positive and above the base multiplier.
    InvalidMultiplier,
    /// The reserve factor must be between 0 and 1.
    InvalidReserveFactor,
    /// The kink must be between 0 and 100.
    InvalidKink,
    /// Depositing is locked for now.
    DepositLocked,
    /// Borrowing is locked for now.
    BorrowLocked,
    /// Withdrawing is locked for now.
    WithdrawLocked,
    /// Repaying is locked for now.
    RepayLocked,
    /// Privileged calls need the admin quorum's fresh approval.
    NotApprovedByAdmins,
    /// The approving admin identity is blacklisted.
    AdminBlacklisted,
    /// The pool's deposit cap; depositing this amount would pass it.
    DepositLimitReached(Decimal),
    /// The liquidity the pool can currently disburse.
    InsufficientLiquidity(Decimal),
    /// The caller's withdrawable deposit balance.
    InsufficientDeposit(Decimal),
    /// The largest withdrawal the caller's collateral allows.
    MaxWithdrawalExceeded(Decimal),
    /// The caller's available collateral in the common unit.
    InsufficientCollateral(Decimal),
    /// The largest borrow the pool and the position allow.
    MaxBorrowExceeded(Decimal),
    /// The reserve balance available for collection.
    InsufficientReserve(Decimal),
    /// The targeted position holds none of the seized asset.
    NoDepositToSeize,
    /// The targeted position has no outstanding loan.
    NoLoanOutstanding,
    /// The position's loan-limit-used does not pass this threshold.
    LiquidationNotAllowed(Decimal),
    /// The repaid value exceeds the position's debt in the repaid asset.
    RepayExceedsDebt(Decimal),
    /// The largest repayment the liquidation percent allows.
    MaxRepaymentExceeded(Decimal),
    /// The bound that keeps the payout within the seized deposit's value.
    MaxLiquidationExceeded(Decimal),
}

} // verus!
