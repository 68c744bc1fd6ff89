//! The borrower-level ledger: one obligation's borrow records, at most one
//! per reserve, in the order in which they were opened.

use vstd::prelude::*;
use crate::accrual::{scale_amount, scaled_amount};
use crate::error::LendingError;
use crate::reserve_ledger::ReserveId;

verus! {

/// What an obligation owes to one reserve.
#[derive(Clone, Copy, Debug, PartialEq, Eq, Structural)]
pub struct BorrowRecord {
    /// The reserve that was borrowed from.
    pub reserve_id: ReserveId,
    /// The debt in units, as of the accrual index in the snapshot.
    pub borrowed_amount: u64,
    /// The reserve's accrual index when the debt was last reconciled.
    pub cumulative_borrow_rate_snapshot: u128,
}

/// No two records name the same reserve.
pub open spec fn distinct_reserves(records: Seq<BorrowRecord>) -> bool {
    forall|i: int, j: int|
        0 <= i < j < records.len() ==> records[i].reserve_id != records[j].reserve_id
}

/// Some record names `reserve_id`.
pub open spec fn has_record(records: Seq<BorrowRecord>, reserve_id: ReserveId) -> bool {
    exists|i: int| 0 <= i < records.len() && records[i].reserve_id == reserve_id
}

/// The place of the first record that names `reserve_id`.
pub open spec fn position_of(records: Seq<BorrowRecord>, reserve_id: ReserveId) -> Option<int>
    decreases records.len(),
{
    if records.len() == 0 {
        None
    } else if records[0].reserve_id == reserve_id {
        Some(0)
    } else {
        match position_of(records.drop_first(), reserve_id) {
            Some(i) => Some(i + 1),
            None => None,
        }
    }
}

/// The record that names `reserve_id`, if there is one.
pub open spec fn record_of(
    records: Seq<BorrowRecord>,
    reserve_id: ReserveId,
) -> Option<BorrowRecord> {
    match position_of(records, reserve_id) {
        Some(i) => Some(records[i]),
        None => None,
    }
}

/// What the records owe to `reserve_id` once interest up to the accrual index
/// `rate` is counted in: the record's amount scaled by `rate` over its
/// snapshot, rounded down.
pub open spec fn outstanding_debt(
    records: Seq<BorrowRecord>,
    reserve_id: ReserveId,
    rate: u128,
) -> Result<u64, LendingError> {
    match record_of(records, reserve_id) {
        None => Err(LendingError::ObligationHasNoBorrowForReserve),
        Some(record) => match scaled_amount(
            record.borrowed_amount,
            rate,
            record.cumulative_borrow_rate_snapshot,
        ) {
            None => Err(LendingError::ArithmeticOverflow),
            Some(owed) => Ok(owed),
        },
    }
}

/// The records once the one for `reserve_id` has been reconciled to `rate`: it
/// holds the outstanding debt, as of `rate`.
pub open spec fn reconciled(
    records: Seq<BorrowRecord>,
    reserve_id: ReserveId,
    rate: u128,
) -> Result<Seq<BorrowRecord>, LendingError> {
    match outstanding_debt(records, reserve_id, rate) {
        Err(e) => Err(e),
        Ok(owed) => Ok(
            records.update(
                position_of(records, reserve_id).unwrap(),
                BorrowRecord {
                    reserve_id,
                    borrowed_amount: owed,
                    cumulative_borrow_rate_snapshot: rate,
                },
            ),
        ),
    }
}

/// The records once the debt to `reserve_id` has been reduced by `amount`: a
/// record that reaches zero leaves the collection, the others keep their
/// order.
pub open spec fn reduced(
    records: Seq<BorrowRecord>,
    reserve_id: ReserveId,
    amount: u64,
) -> Result<Seq<BorrowRecord>, LendingError> {
    match position_of(records, reserve_id) {
        None => Err(LendingError::ObligationHasNoBorrowForReserve),
        Some(i) => if amount > records[i].borrowed_amount {
            Err(LendingError::RepayAmountExceedsBorrowedAmount)
        } else if amount == records[i].borrowed_amount {
            Ok(records.remove(i))
        } else {
            Ok(
                records.update(
                    i,
                    BorrowRecord {
                        borrowed_amount: (records[i].borrowed_amount - amount) as u64,
                        ..records[i]
                    },
                ),
            )
        },
    }
}

/// `position_of` finds `i` exactly when `i` is the first place that names
/// `reserve_id`, and nothing when no place does.
pub proof fn lemma_position_of(records: Seq<BorrowRecord>, reserve_id: ReserveId)
    ensures
        match position_of(records, reserve_id) {
            Some(i) => 0 <= i < records.len() && records[i].reserve_id == reserve_id && forall|
                j: int,
            | 0 <= j < i ==> records[j].reserve_id != reserve_id,
            None => !has_record(records, reserve_id),
        },
    decreases records.len(),
{
    if records.len() > 0 && records[0].reserve_id != reserve_id {
        let rest = records.drop_first();
        lemma_position_of(rest, reserve_id);
        match position_of(rest, reserve_id) {
            Some(i) => {
                assert forall|j: int| 0 <= j < i + 1 implies records[j].reserve_id
                    != reserve_id by {
                    if j > 0 {
                        assert(records[j] == rest[j - 1]);
                    }
                }
                assert(records[i + 1] == rest[i]);
            },
            None => {
                assert forall|j: int| 0 <= j < records.len() implies records[j].reserve_id
                    != reserve_id by {
                    if j > 0 {
                        assert(rest[j - 1] == records[j]);
                    }
                }
            },
        }
    }
}

/// Where `i` is the first place that names `reserve_id`, `position_of` finds it.
pub proof fn lemma_first_match_is_position(
    records: Seq<BorrowRecord>,
    reserve_id: ReserveId,
    i: int,
)
    requires
        0 <= i < records.len(),
        records[i].reserve_id == reserve_id,
        forall|j: int| 0 <= j < i ==> records[j].reserve_id != reserve_id,
    ensures
        position_of(records, reserve_id) == Some(i),
{
    lemma_position_of(records, reserve_id);
}

/// Replacing a record by one for the same reserve moves no record.
pub proof fn lemma_update_keeps_positions(
    records: Seq<BorrowRecord>,
    i: int,
    record: BorrowRecord,
    reserve_id: ReserveId,
)
    requires
        0 <= i < records.len(),
        record.reserve_id == records[i].reserve_id,
    ensures
        position_of(records.update(i, record), reserve_id) == position_of(records, reserve_id),
        distinct_reserves(records) ==> distinct_reserves(records.update(i, record)),
{
    let updated = records.update(i, record);
    lemma_position_of(records, reserve_id);
    lemma_position_of(updated, reserve_id);
    match position_of(records, reserve_id) {
        Some(p) => {
            assert(updated[p].reserve_id == reserve_id);
            match position_of(updated, reserve_id) {
                Some(q) => {
                    assert(records[q].reserve_id == reserve_id);
                },
                None => {},
            }
        },
        None => {
            match position_of(updated, reserve_id) {
                Some(q) => {
                    assert(records[q].reserve_id == reserve_id);
                },
                None => {},
            }
        },
    }
}

/// Where no two records name the same reserve, taking out the record at `i`
/// leaves none for its reserve, and leaves the others distinct.
pub proof fn lemma_remove_clears_reserve(records: Seq<BorrowRecord>, i: int)
    requires
        0 <= i < records.len(),
        distinct_reserves(records),
    ensures
        distinct_reserves(records.remove(i)),
        !has_record(records.remove(i), records[i].reserve_id),
{
    let rest = records.remove(i);
    assert forall|a: int, b: int| 0 <= a < b < rest.len() implies rest[a].reserve_id
        != rest[b].reserve_id by {
        let a0 = if a < i { a } else { a + 1 };
        let b0 = if b < i { b } else { b + 1 };
        assert(rest[a] == records[a0]);
        assert(rest[b] == records[b0]);
    }
    assert forall|a: int| 0 <= a < rest.len() implies rest[a].reserve_id
        != records[i].reserve_id by {
        let a0 = if a < i { a } else { a + 1 };
        assert(rest[a] == records[a0]);
    }
}

/// Reconciling twice to the same accrual index gives what reconciling once
/// gives: interest is never counted twice.
pub proof fn lemma_reconcile_is_idempotent(
    records: Seq<BorrowRecord>,
    reserve_id: ReserveId,
    rate: u128,
)
    requires
        reconciled(records, reserve_id, rate) is Ok,
    ensures
        reconciled(reconciled(records, reserve_id, rate).unwrap(), reserve_id, rate) == reconciled(
            records,
            reserve_id,
            rate,
        ),
        outstanding_debt(reconciled(records, reserve_id, rate).unwrap(), reserve_id, rate)
            == outstanding_debt(records, reserve_id, rate),
{
    lemma_position_of(records, reserve_id);
    let i = position_of(records, reserve_id).unwrap();
    let once = reconciled(records, reserve_id, rate).unwrap();
    lemma_update_keeps_positions(records, i, once[i], reserve_id);
    assert(once.update(i, once[i]) =~= once);
}

/// One borrower's position: its borrow records, at most one per reserve.
#[derive(Debug)]
pub struct Obligation {
    borrows: Vec<BorrowRecord>,
}

impl View for Obligation {
    type V = Seq<BorrowRecord>;

    closed spec fn view(&self) -> Seq<BorrowRecord> {
        self.borrows@
    }
}

impl Obligation {
    #[verifier::type_invariant]
    spec fn at_most_one_record_per_reserve(self) -> bool {
        distinct_reserves(self.borrows@)
    }

    /// An obligation that owes nothing.
    pub fn new() -> (obligation: Self)
        ensures
            obligation@ == Seq::<BorrowRecord>::empty(),
    {
        Obligation { borrows: Vec::new() }
    }

    /// An obligation that holds `records`, or nothing where two of them name
    /// the same reserve.
    pub fn from_records(records: Vec<BorrowRecord>) -> (made: Option<Self>)
        ensures
            match made {
                Some(obligation) => distinct_reserves(records@) && obligation@ == records@,
                None => !distinct_reserves(records@),
            },
    {
        let mut i: usize = 0;
        while i < records.len()
            invariant
                i <= records.len(),
                forall|a: int, b: int|
                    0 <= a < b < i ==> records@[a].reserve_id != records@[b].reserve_id,
            decreases records.len() - i,
        {
            let mut j: usize = 0;
            while j < i
                invariant
                    j <= i < records.len(),
                    forall|a: int|
                        0 <= a < j ==> records@[a].reserve_id != records@[i as int].reserve_id,
                decreases i - j,
            {
                if records[j].reserve_id == records[i].reserve_id {
                    return None;
                }
                j += 1;
            }
            i += 1;
        }
        Some(Obligation { borrows: records })
    }

    /// The obligation's records, in order.
    pub fn records(&self) -> (records: &Vec<BorrowRecord>)
        ensures
            records@ == self@,
            distinct_reserves(self@),
    {
        proof {
            use_type_invariant(self);
        }
        &self.borrows
    }

    /// The record for `reserve_id`, if the obligation holds one.
    pub fn find(&self, reserve_id: ReserveId) -> (found: Option<BorrowRecord>)
        ensures
            found == record_of(self@, reserve_id),
    {
        match self.position(reserve_id) {
            Some(i) => Some(self.borrows[i]),
            None => None,
        }
    }

    /// What the obligation owes to `reserve_id` as of the reserve's current
    /// accrual index. Nothing is changed.
    pub fn outstanding_debt(
        &self,
        reserve_id: ReserveId,
        reserve_cumulative_rate: u128,
    ) -> (result: Result<u64, LendingError>)
        ensures
            result == outstanding_debt(self@, reserve_id, reserve_cumulative_rate),
    {
        match self.find(reserve_id) {
            Some(record) => scale_amount(
                record.borrowed_amount,
                reserve_cumulative_rate,
                record.cumulative_borrow_rate_snapshot,
            ),
            None => Err(LendingError::ObligationHasNoBorrowForReserve),
        }
    }

    /// Carries the debt to `reserve_id` forward to the reserve's current
    /// accrual index and returns it: the amount is scaled by the index over
    /// the record's snapshot, rounded down, and the snapshot becomes the
    /// index. On failure the obligation is left untouched.
    pub fn reconcile_borrow(
        &mut self,
        reserve_id: ReserveId,
        reserve_cumulative_rate: u128,
    ) -> (result: Result<u64, LendingError>)
        ensures
            result == outstanding_debt(old(self)@, reserve_id, reserve_cumulative_rate),
            match reconciled(old(self)@, reserve_id, reserve_cumulative_rate) {
                Ok(records) => final(self)@ == records,
                Err(_) => final(self)@ == old(self)@,
            },
    {
        let i: usize = match self.position(reserve_id) {
            Some(i) => i,
            None => {
                return Err(LendingError::ObligationHasNoBorrowForReserve);
            },
        };
        let record: BorrowRecord = self.borrows[i];
        let amount: u64 = match scale_amount(
            record.borrowed_amount,
            reserve_cumulative_rate,
            record.cumulative_borrow_rate_snapshot,
        ) {
            Ok(amount) => amount,
            Err(e) => {
                return Err(e);
            },
        };
        let renewed = BorrowRecord {
            reserve_id: record.reserve_id,
            borrowed_amount: amount,
            cumulative_borrow_rate_snapshot: reserve_cumulative_rate,
        };
        proof {
            lemma_position_of(self@, reserve_id);
        }
        self.replace_record(i, renewed);
        Ok(amount)
    }

    /// Takes `amount` off the debt to `reserve_id`. A record that reaches
    /// exactly zero is removed; amounts are whole units, so there is no dust
    /// short of zero. On failure the obligation is left untouched.
    pub fn reduce_borrow(
        &mut self,
        reserve_id: ReserveId,
        amount: u64,
    ) -> (result: Result<(), LendingError>)
        ensures
            match reduced(old(self)@, reserve_id, amount) {
                Ok(records) => final(self)@ == records && result is Ok,
                Err(e) => final(self)@ == old(self)@ && result == Err::<(), LendingError>(e),
            },
    {
        let i: usize = match self.position(reserve_id) {
            Some(i) => i,
            None => {
                return Err(LendingError::ObligationHasNoBorrowForReserve);
            },
        };
        let record: BorrowRecord = self.borrows[i];
        if amount > record.borrowed_amount {
            return Err(LendingError::RepayAmountExceedsBorrowedAmount);
        }
        if amount == record.borrowed_amount {
            self.remove_record(i);
        } else {
            let lowered = BorrowRecord {
                reserve_id: record.reserve_id,
                borrowed_amount: record.borrowed_amount - amount,
                cumulative_borrow_rate_snapshot: record.cumulative_borrow_rate_snapshot,
            };
            self.replace_record(i, lowered);
        }
        Ok(())
    }

    /// Where the record for `reserve_id` stands.
    fn position(&self, reserve_id: ReserveId) -> (found: Option<usize>)
        ensures
            match found {
                Some(i) => i < self@.len() && position_of(self@, reserve_id) == Some(i as int),
                None => position_of(self@, reserve_id) is None,
            },
    {
        let mut i: usize = 0;
        while i < self.borrows.len()
            invariant
                i <= self.borrows.len(),
                forall|j: int| 0 <= j < i ==> self.borrows@[j].reserve_id != reserve_id,
            decreases self.borrows.len() - i,
        {
            if self.borrows[i].reserve_id == reserve_id {
                proof {
                    lemma_first_match_is_position(self@, reserve_id, i as int);
                }
                return Some(i);
            }
            i += 1;
        }
        proof {
            lemma_position_of(self@, reserve_id);
        }
        None
    }

    /// Puts `record` in place of the record at `i`, which names the same
    /// reserve.
    fn replace_record(&mut self, i: usize, record: BorrowRecord)
        requires
            i < old(self)@.len(),
            record.reserve_id == old(self)@[i as int].reserve_id,
        ensures
            final(self)@ == old(self)@.update(i as int, record),
    {
        proof {
            use_type_invariant(&*self);
            lemma_update_keeps_positions(self.borrows@, i as int, record, record.reserve_id);
        }
        let mut borrows: Vec<BorrowRecord> = Vec::new();
        std::mem::swap(&mut borrows, &mut self.borrows);
        borrows[i] = record;
        self.borrows = borrows;
    }

    /// Takes the record at `i` out; the others keep their order.
    fn remove_record(&mut self, i: usize)
        requires
            i < old(self)@.len(),
        ensures
            final(self)@ == old(self)@.remove(i as int),
    {
        proof {
            use_type_invariant(&*self);
            lemma_remove_clears_reserve(self.borrows@, i as int);
        }
        let mut borrows: Vec<BorrowRecord> = Vec::new();
        std::mem::swap(&mut borrows, &mut self.borrows);
        borrows.remove(i);
        self.borrows = borrows;
    }
}

impl Clone for Obligation {
    fn clone(&self) -> (copy: Self)
        ensures
            copy@ == self@,
            distinct_reserves(copy@),
    {
        proof {
            use_type_invariant(self);
        }
        let borrows = self.borrows.clone();
        assert(borrows@ =~= self.borrows@);
        Obligation { borrows }
    }
}

} // verus!
