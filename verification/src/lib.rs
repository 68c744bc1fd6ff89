//! Debt-repayment accounting for a collateralized lending pool.
//!
//! A borrower's position (an [`obligation_ledger::Obligation`]) holds one
//! borrow record per liquidity pool (a [`reserve_ledger::Reserve`]). Repaying
//! debt clamps the requested amount against what is owed once accrued interest
//! has been reconciled, updates both ledgers as one unit, and is settled only
//! after the custodial vault has been observed to grow by the same amount.

pub mod error;
pub mod accrual;
pub mod reserve_ledger;
pub mod obligation_ledger;
pub mod balance_invariant_checker;
pub mod repayment_engine;
pub mod settlement;
