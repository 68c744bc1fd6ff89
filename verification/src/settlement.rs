//! A repayment in two phases around the asset transfer.
//!
//! `process` stages the ledger changes in a working copy and says how much to
//! transfer. Once the transfer is done, `PendingRepayment::settle` checks the
//! vault against the ledger and only then hands out the new state. On any
//! failure the working copy is dropped and the state that was loaded stands.

use vstd::prelude::*;
use crate::balance_invariant_checker::{balances_match, BalanceInvariantChecker};
use crate::error::LendingError;
use crate::obligation_ledger::{BorrowRecord, Obligation};
use crate::repayment_engine::{repay, repayment};
use crate::reserve_ledger::Reserve;

verus! {

/// The accounts of one repayment, as loaded: the reserve that is repaid, the
/// obligation that repays, and the balance of the reserve's custodial vault.
#[derive(Debug)]
pub struct RepayObligationLiquidity {
    pub repay_reserve: Reserve,
    pub obligation: Obligation,
    pub reserve_destination_liquidity: u64,
}

/// A repayment whose ledger changes are staged and whose transfer is still to
/// be made: `repay_amount` is what must move into the vault.
#[derive(Debug)]
pub struct PendingRepayment {
    /// The amount to transfer.
    pub repay_amount: u64,
    /// The reserve as it will stand once the repayment is settled.
    pub repay_reserve: Reserve,
    /// The obligation as it will stand once the repayment is settled.
    pub obligation: Obligation,
    /// The balances as they stood before the repayment.
    pub checker: BalanceInvariantChecker,
}

/// After a repayment the ledger's liquidity has grown by exactly the amount
/// applied, so the balance check passes exactly when the vault has grown by
/// that amount too: a transfer that moves any other amount is a mismatch.
pub proof fn lemma_settlement_follows_vault(
    reserve: Reserve,
    records: Seq<BorrowRecord>,
    requested_amount: u64,
    vault_balance_before: u64,
    vault_balance_after: u64,
)
    requires
        repayment(reserve, records, requested_amount) is Ok,
    ensures
        ({
            let (amount, reserve_after, _) = repayment(reserve, records, requested_amount).unwrap();
            let checker = BalanceInvariantChecker {
                vault_balance_before,
                available_liquidity_before: reserve.available_liquidity,
            };
            &&& reserve_after.available_liquidity - reserve.available_liquidity == amount
            &&& balances_match(
                checker,
                vault_balance_after,
                reserve_after.available_liquidity,
                amount,
            ) <==> vault_balance_after - vault_balance_before == amount
        }),
{
}

/// Stages a repayment of up to `liquidity_amount` on a working copy of the
/// accounts. Nothing is published yet: the caller transfers
/// `repay_amount` into the vault and then settles.
pub fn process(
    accounts: RepayObligationLiquidity,
    liquidity_amount: u64,
) -> (result: Result<PendingRepayment, LendingError>)
    ensures
        match repayment(accounts.repay_reserve, accounts.obligation@, liquidity_amount) {
            Ok((amount, reserve_after, records_after)) => {
                &&& result matches Ok(pending)
                &&& pending.repay_amount == amount
                &&& pending.repay_reserve == reserve_after
                &&& pending.obligation@ == records_after
                &&& pending.checker.vault_balance_before == accounts.reserve_destination_liquidity
                &&& pending.checker.available_liquidity_before
                    == accounts.repay_reserve.available_liquidity
            },
            Err(e) => result matches Err(refusal) && refusal == e,
        },
{
    let checker = BalanceInvariantChecker::capture(
        accounts.reserve_destination_liquidity,
        &accounts.repay_reserve,
    );
    let mut repay_reserve = accounts.repay_reserve;
    let mut obligation = accounts.obligation;
    match repay(&mut repay_reserve, &mut obligation, liquidity_amount) {
        Ok(repay_amount) => Ok(
            PendingRepayment { repay_amount, repay_reserve, obligation, checker },
        ),
        Err(e) => Err(e),
    }
}

impl PendingRepayment {
    /// Settles the repayment against the vault balance observed after the
    /// transfer. The staged state is handed out only where vault and ledger
    /// both grew by exactly `repay_amount`.
    pub fn settle(
        self,
        vault_balance_after: u64,
    ) -> (result: Result<RepayObligationLiquidity, LendingError>)
        ensures
            match result {
                Ok(accounts) => {
                    &&& balances_match(
                        self.checker,
                        vault_balance_after,
                        self.repay_reserve.available_liquidity,
                        self.repay_amount,
                    )
                    &&& accounts.repay_reserve == self.repay_reserve
                    &&& accounts.obligation == self.obligation
                    &&& accounts.reserve_destination_liquidity == vault_balance_after
                },
                Err(e) => {
                    &&& !balances_match(
                        self.checker,
                        vault_balance_after,
                        self.repay_reserve.available_liquidity,
                        self.repay_amount,
                    )
                    &&& e == LendingError::LiquidityVaultBalanceMismatch
                },
            },
    {
        match self.checker.validate(vault_balance_after, &self.repay_reserve, self.repay_amount) {
            Ok(()) => Ok(
                RepayObligationLiquidity {
                    repay_reserve: self.repay_reserve,
                    obligation: self.obligation,
                    reserve_destination_liquidity: vault_balance_after,
                },
            ),
            Err(e) => Err(e),
        }
    }
}

} // verus!
