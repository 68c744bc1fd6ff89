//! The repayment itself: how much of a requested amount is applied, and what
//! it does to the reserve and the obligation.

use vstd::prelude::*;
use crate::error::LendingError;
use crate::obligation_ledger::{
    distinct_reserves,
    has_record,
    lemma_position_of,
    lemma_remove_clears_reserve,
    lemma_update_keeps_positions,
    outstanding_debt,
    position_of,
    reconciled,
    record_of,
    reduced,
    BorrowRecord,
    Obligation,
};
use crate::reserve_ledger::{repaid, Reserve, ReserveId};

verus! {

/// What the records owe to `reserve_id`: the amount of its record, zero
/// without one.
pub open spec fn debt_of(records: Seq<BorrowRecord>, reserve_id: ReserveId) -> int {
    match record_of(records, reserve_id) {
        Some(record) => record.borrowed_amount as int,
        None => 0,
    }
}

/// The amount applied: the request, capped at what is owed.
pub open spec fn clamped(requested_amount: u64, owed: u64) -> u64 {
    if requested_amount < owed {
        requested_amount
    } else {
        owed
    }
}

/// The records after `amount` of the `owed` units has been repaid to
/// `reserve`: the record is gone when nothing is left, otherwise it holds the
/// rest as of the reserve's accrual index.
pub open spec fn settled_records(
    records: Seq<BorrowRecord>,
    reserve: Reserve,
    owed: u64,
    amount: u64,
) -> Seq<BorrowRecord> {
    let i = position_of(records, reserve.id).unwrap();
    if amount == owed {
        records.remove(i)
    } else {
        records.update(
            i,
            BorrowRecord {
                reserve_id: reserve.id,
                borrowed_amount: (owed - amount) as u64,
                cumulative_borrow_rate_snapshot: reserve.cumulative_borrow_rate,
            },
        )
    }
}

/// The outcome of a repayment of `requested_amount`: the amount applied, the
/// reserve and the records after it, or the reason for which nothing changes.
pub open spec fn repayment(
    reserve: Reserve,
    records: Seq<BorrowRecord>,
    requested_amount: u64,
) -> Result<(u64, Reserve, Seq<BorrowRecord>), LendingError> {
    if requested_amount == 0 {
        Err(LendingError::InvalidRepayAmount)
    } else {
        match outstanding_debt(records, reserve.id, reserve.cumulative_borrow_rate) {
            Err(e) => Err(e),
            Ok(owed) => if owed == 0 {
                Err(LendingError::ObligationHasNoBorrowForReserve)
            } else {
                let amount = clamped(requested_amount, owed);
                match repaid(reserve, amount) {
                    None => Err(LendingError::ArithmeticOverflow),
                    Some(reserve_after) => Ok(
                        (amount, reserve_after, settled_records(records, reserve, owed, amount)),
                    ),
                }
            },
        }
    }
}

/// Reconciling a debt and then reducing it by no more than it holds gives the
/// settled records: the debt to the reserve falls by exactly the amount, and
/// a debt repaid in full leaves no record.
pub proof fn lemma_settled_records(
    records: Seq<BorrowRecord>,
    reserve: Reserve,
    owed: u64,
    amount: u64,
)
    requires
        distinct_reserves(records),
        outstanding_debt(records, reserve.id, reserve.cumulative_borrow_rate) == Ok::<
            u64,
            LendingError,
        >(owed),
        amount <= owed,
    ensures
        reconciled(records, reserve.id, reserve.cumulative_borrow_rate) is Ok,
        reduced(
            reconciled(records, reserve.id, reserve.cumulative_borrow_rate).unwrap(),
            reserve.id,
            amount,
        ) == Ok::<Seq<BorrowRecord>, LendingError>(settled_records(records, reserve, owed, amount)),
        distinct_reserves(settled_records(records, reserve, owed, amount)),
        debt_of(settled_records(records, reserve, owed, amount), reserve.id) == owed - amount,
        amount == owed ==> !has_record(
            settled_records(records, reserve, owed, amount),
            reserve.id,
        ),
{
    lemma_position_of(records, reserve.id);
    let i = position_of(records, reserve.id).unwrap();
    let current = reconciled(records, reserve.id, reserve.cumulative_borrow_rate).unwrap();
    let renewed = current[i];
    lemma_update_keeps_positions(records, i, renewed, reserve.id);
    let settled = settled_records(records, reserve, owed, amount);
    if amount == owed {
        assert(current.remove(i) =~= records.remove(i));
        lemma_remove_clears_reserve(records, i);
        lemma_position_of(settled, reserve.id);
    } else {
        let lowered = BorrowRecord { borrowed_amount: (owed - amount) as u64, ..renewed };
        assert(current.update(i, lowered) =~= records.update(i, lowered));
        lemma_update_keeps_positions(records, i, lowered, reserve.id);
    }
}

/// What a successful repayment does. The amount applied is the request where
/// the request is within the debt, and the whole debt where it is not. The
/// reserve's aggregate debt falls by the amount, its liquidity rises by it,
/// and the obligation's debt to the reserve falls by it. A debt repaid in
/// full leaves no record behind.
pub proof fn lemma_repayment_effects(
    reserve: Reserve,
    records: Seq<BorrowRecord>,
    requested_amount: u64,
)
    requires
        distinct_reserves(records),
        repayment(reserve, records, requested_amount) is Ok,
    ensures
        outstanding_debt(records, reserve.id, reserve.cumulative_borrow_rate) is Ok,
        ({
            let (amount, reserve_after, records_after) = repayment(
                reserve,
                records,
                requested_amount,
            ).unwrap();
            let owed = outstanding_debt(
                records,
                reserve.id,
                reserve.cumulative_borrow_rate,
            ).unwrap();
            &&& 0 < amount <= requested_amount
            &&& requested_amount > owed ==> amount == owed
            &&& requested_amount <= owed ==> amount == requested_amount
            &&& reserve_after.total_borrowed == reserve.total_borrowed - amount
            &&& reserve_after.available_liquidity == reserve.available_liquidity + amount
            &&& debt_of(records_after, reserve.id) == owed - amount
            &&& amount == owed ==> !has_record(records_after, reserve.id)
            &&& distinct_reserves(records_after)
        }),
{
    let owed = outstanding_debt(records, reserve.id, reserve.cumulative_borrow_rate).unwrap();
    lemma_settled_records(records, reserve, owed, clamped(requested_amount, owed));
}

/// Repays up to `requested_amount` of what `obligation` owes to `reserve`.
///
/// The debt is first reconciled to the reserve's current accrual index. The
/// amount applied is the request capped at that debt: a larger request is
/// never refused and never refunded. Obligation and reserve change together
/// or not at all. The amount applied is returned; the caller moves exactly
/// that amount into the vault.
pub fn repay(
    reserve: &mut Reserve,
    obligation: &mut Obligation,
    requested_amount: u64,
) -> (result: Result<u64, LendingError>)
    ensures
        match repayment(*old(reserve), old(obligation)@, requested_amount) {
            Ok((amount, reserve_after, records_after)) => {
                &&& result == Ok::<u64, LendingError>(amount)
                &&& *final(reserve) == reserve_after
                &&& final(obligation)@ == records_after
            },
            Err(e) => {
                &&& result == Err::<u64, LendingError>(e)
                &&& *final(reserve) == *old(reserve)
                &&& final(obligation)@ == old(obligation)@
            },
        },
        result matches Ok(amount) ==> {
            let owed = outstanding_debt(
                old(obligation)@,
                old(reserve).id,
                old(reserve).cumulative_borrow_rate,
            ).unwrap();
            &&& 0 < amount <= requested_amount
            &&& requested_amount > owed ==> amount == owed
            &&& requested_amount <= owed ==> amount == requested_amount
            &&& final(reserve).total_borrowed == old(reserve).total_borrowed - amount
            &&& final(reserve).available_liquidity == old(reserve).available_liquidity + amount
            &&& debt_of(final(obligation)@, old(reserve).id) == owed - amount
            &&& amount == owed ==> !has_record(final(obligation)@, old(reserve).id)
        },
{
    if requested_amount == 0 {
        return Err(LendingError::InvalidRepayAmount);
    }
    let mut staged_obligation = obligation.clone();
    let mut staged_reserve = *reserve;
    let owed: u64 = match staged_obligation.reconcile_borrow(
        reserve.id,
        reserve.cumulative_borrow_rate,
    ) {
        Ok(owed) => owed,
        Err(e) => {
            return Err(e);
        },
    };
    if owed == 0 {
        return Err(LendingError::ObligationHasNoBorrowForReserve);
    }
    let repay_amount: u64 = if requested_amount < owed {
        requested_amount
    } else {
        owed
    };
    proof {
        lemma_settled_records(obligation@, *reserve, owed, repay_amount);
    }
    match staged_obligation.reduce_borrow(reserve.id, repay_amount) {
        Ok(()) => {},
        Err(e) => {
            return Err(e);
        },
    }
    match staged_reserve.apply_repayment(repay_amount) {
        Ok(()) => {},
        Err(e) => {
            return Err(e);
        },
    }
    *obligation = staged_obligation;
    *reserve = staged_reserve;
    Ok(repay_amount)
}

} // verus!
