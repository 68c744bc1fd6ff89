//! The failures a repayment can end in.

use vstd::prelude::*;

verus! {

/// Why a repayment was refused. Every failure is terminal: the ledgers are
/// left as they were and nothing is retried.
#[derive(Clone, Copy, Debug, PartialEq, Eq, Structural)]
pub enum LendingError {
    /// The requested amount is zero.
    InvalidRepayAmount,
    /// The obligation owes nothing on the named reserve.
    ObligationHasNoBorrowForReserve,
    /// A checked arithmetic step left the representable range.
    ArithmeticOverflow,
    /// A borrow record was asked to shrink by more than it holds.
    RepayAmountExceedsBorrowedAmount,
    /// The custodial vault did not move by the amount the ledger recorded.
    LiquidityVaultBalanceMismatch,
}

} // verus!
