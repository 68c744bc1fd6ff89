//! The check that the asset transfer matched the ledger: after a repayment
//! the custodial vault and the reserve's available liquidity must both have
//! grown by exactly the repaid amount.

use vstd::prelude::*;
use crate::error::LendingError;
use crate::reserve_ledger::Reserve;

verus! {

/// The vault balance and the ledger's available liquidity as they stood before
/// a repayment.
#[derive(Clone, Copy, Debug, PartialEq, Eq, Structural)]
pub struct BalanceInvariantChecker {
    pub vault_balance_before: u64,
    pub available_liquidity_before: u64,
}

/// Vault and ledger both grew by exactly `repay_amount`.
pub open spec fn balances_match(
    checker: BalanceInvariantChecker,
    vault_balance_after: u64,
    available_liquidity_after: u64,
    repay_amount: u64,
) -> bool {
    &&& vault_balance_after - checker.vault_balance_before == repay_amount
    &&& available_liquidity_after - checker.available_liquidity_before == repay_amount
}

impl BalanceInvariantChecker {
    /// Records the two balances before the repayment engine runs.
    pub fn capture(vault_balance: u64, reserve: &Reserve) -> (checker: Self)
        ensures
            checker.vault_balance_before == vault_balance,
            checker.available_liquidity_before == reserve.available_liquidity,
    {
        BalanceInvariantChecker {
            vault_balance_before: vault_balance,
            available_liquidity_before: reserve.available_liquidity,
        }
    }

    /// Compares the balances observed after the transfer with those recorded
    /// before it. Any difference between the vault's growth, the ledger's
    /// growth and `repay_amount` is a mismatch, a shrinking balance included.
    pub fn validate(
        &self,
        vault_balance_after: u64,
        reserve: &Reserve,
        repay_amount: u64,
    ) -> (result: Result<(), LendingError>)
        ensures
            balances_match(*self, vault_balance_after, reserve.available_liquidity, repay_amount)
                ==> result is Ok,
            !balances_match(*self, vault_balance_after, reserve.available_liquidity, repay_amount)
                ==> result == Err::<(), LendingError>(
                LendingError::LiquidityVaultBalanceMismatch,
            ),
    {
        let vault_delta: Option<u64> = vault_balance_after.checked_sub(self.vault_balance_before);
        let ledger_delta: Option<u64> = reserve.available_liquidity.checked_sub(
            self.available_liquidity_before,
        );
        match (vault_delta, ledger_delta) {
            (Some(vault_delta), Some(ledger_delta)) => {
                if vault_delta == repay_amount && ledger_delta == repay_amount {
                    Ok(())
                } else {
                    Err(LendingError::LiquidityVaultBalanceMismatch)
                }
            },
            _ => Err(LendingError::LiquidityVaultBalanceMismatch),
        }
    }
}

} // verus!
