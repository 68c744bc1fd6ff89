//! The pool-level ledger: one reserve's liquidity, aggregate debt and accrual
//! index.

use vstd::prelude::*;
use crate::accrual::{checked_mul_div, scale_amount, scaled_amount};
use crate::error::LendingError;

verus! {

/// One in fixed point: an interest rate of `RATE_SCALE` per unit of time
/// doubles a debt in one unit of time.
pub const RATE_SCALE: u128 = 1_000_000_000_000_000_000;

/// The identity of a reserve: a 256-bit address, held as two halves.
#[derive(Clone, Copy, Debug, PartialEq, Eq, Structural)]
pub struct ReserveId {
    pub hi: u128,
    pub lo: u128,
}

/// One liquidity pool for a single asset.
#[derive(Clone, Copy, Debug, PartialEq, Eq, Structural)]
pub struct Reserve {
    /// Which pool this is.
    pub id: ReserveId,
    /// Units of the asset that the custodial vault holds for this pool.
    pub available_liquidity: u64,
    /// Aggregate outstanding debt, principal and accrued interest, in units.
    pub total_borrowed: u64,
    /// The accrual index: debts grow in proportion to it. It never decreases.
    pub cumulative_borrow_rate: u128,
    /// Interest charged per unit of time, as a fraction of `RATE_SCALE`.
    pub borrow_rate: u128,
    /// When interest was last accrued.
    pub last_accrual_time: u64,
}

/// The accrual index after `elapsed` units of time at `borrow_rate`: simple
/// interest over the interval, rounded down; `None` where the rate times the
/// time, or the index itself, leaves 128 bits.
pub open spec fn accrued_index(index: u128, borrow_rate: u128, elapsed: u64) -> Option<u128> {
    let factor = borrow_rate * elapsed;
    let growth = index * factor / (RATE_SCALE as int);
    if factor > u128::MAX || index + growth > u128::MAX {
        None
    } else {
        Some((index + growth) as u128)
    }
}

/// The reserve once interest has been accrued up to `current_time`; `None`
/// where time ran backwards or a step overflows.
pub open spec fn accrued(reserve: Reserve, current_time: u64) -> Option<Reserve> {
    if current_time < reserve.last_accrual_time {
        None
    } else {
        let elapsed = (current_time - reserve.last_accrual_time) as u64;
        match accrued_index(reserve.cumulative_borrow_rate, reserve.borrow_rate, elapsed) {
            None => None,
            Some(index) => match scaled_amount(
                reserve.total_borrowed,
                index,
                reserve.cumulative_borrow_rate,
            ) {
                None => None,
                Some(total) => Some(
                    Reserve {
                        total_borrowed: total,
                        cumulative_borrow_rate: index,
                        last_accrual_time: current_time,
                        ..reserve
                    },
                ),
            },
        }
    }
}

/// The reserve once `amount` of debt has come back as liquidity; `None` where
/// the amount exceeds the debt or the liquidity would overflow.
pub open spec fn repaid(reserve: Reserve, amount: u64) -> Option<Reserve> {
    if amount > reserve.total_borrowed || reserve.available_liquidity + amount > u64::MAX {
        None
    } else {
        Some(
            Reserve {
                available_liquidity: (reserve.available_liquidity + amount) as u64,
                total_borrowed: (reserve.total_borrowed - amount) as u64,
                ..reserve
            },
        )
    }
}

/// Growing the index never shrinks it, and a debt carried to the grown index
/// never shrinks either.
pub proof fn lemma_accrual_is_monotonic(reserve: Reserve, current_time: u64)
    requires
        accrued(reserve, current_time) is Some,
    ensures
        accrued(reserve, current_time).unwrap().cumulative_borrow_rate
            >= reserve.cumulative_borrow_rate,
        accrued(reserve, current_time).unwrap().total_borrowed >= reserve.total_borrowed,
{
    let elapsed = (current_time - reserve.last_accrual_time) as u64;
    let index = reserve.cumulative_borrow_rate;
    let factor = reserve.borrow_rate * elapsed;
    assert(factor >= 0) by (nonlinear_arith)
        requires
            factor == reserve.borrow_rate * elapsed,
    ;
    assert(index * factor / (RATE_SCALE as int) >= 0) by (nonlinear_arith)
        requires
            factor >= 0,
            index >= 0,
            RATE_SCALE == 1_000_000_000_000_000_000,
    ;
    let grown = accrued_index(index, reserve.borrow_rate, elapsed).unwrap();
    assert(grown >= index);
    if grown != index {
        let total = reserve.total_borrowed;
        assert((total * grown) / (index as int) >= total) by (nonlinear_arith)
            requires
                grown > index,
                index > 0,
                total >= 0,
        ;
    }
}

impl Reserve {
    /// Accrues interest for the time since the last accrual: the index grows
    /// by simple interest at `borrow_rate`, and the aggregate debt is carried
    /// forward to the new index. On failure the reserve is left untouched.
    pub fn accrue_interest(&mut self, current_time: u64) -> (result: Result<(), LendingError>)
        ensures
            match accrued(*old(self), current_time) {
                Some(reserve) => result is Ok && *final(self) == reserve,
                None => result == Err::<(), LendingError>(LendingError::ArithmeticOverflow)
                    && *final(self) == *old(self),
            },
            result is Ok ==> final(self).cumulative_borrow_rate >= old(
                self,
            ).cumulative_borrow_rate,
            result is Ok ==> final(self).total_borrowed >= old(self).total_borrowed,
            final(self).available_liquidity == old(self).available_liquidity,
    {
        let elapsed: u64 = match current_time.checked_sub(self.last_accrual_time) {
            Some(elapsed) => elapsed,
            None => {
                return Err(LendingError::ArithmeticOverflow);
            },
        };
        let factor: u128 = match self.borrow_rate.checked_mul(elapsed as u128) {
            Some(factor) => factor,
            None => {
                return Err(LendingError::ArithmeticOverflow);
            },
        };
        let growth: u128 = match checked_mul_div(self.cumulative_borrow_rate, factor, RATE_SCALE) {
            Some(growth) => growth,
            None => {
                return Err(LendingError::ArithmeticOverflow);
            },
        };
        let index: u128 = match self.cumulative_borrow_rate.checked_add(growth) {
            Some(index) => index,
            None => {
                return Err(LendingError::ArithmeticOverflow);
            },
        };
        let total: u64 = match scale_amount(
            self.total_borrowed,
            index,
            self.cumulative_borrow_rate,
        ) {
            Ok(total) => total,
            Err(e) => {
                return Err(e);
            },
        };
        proof {
            lemma_accrual_is_monotonic(*self, current_time);
        }
        self.total_borrowed = total;
        self.cumulative_borrow_rate = index;
        self.last_accrual_time = current_time;
        Ok(())
    }

    /// Books a repayment of `amount`: the aggregate debt falls by it and the
    /// available liquidity rises by it. On failure the reserve is left
    /// untouched.
    pub fn apply_repayment(&mut self, amount: u64) -> (result: Result<(), LendingError>)
        ensures
            match repaid(*old(self), amount) {
                Some(reserve) => result is Ok && *final(self) == reserve,
                None => result == Err::<(), LendingError>(LendingError::ArithmeticOverflow)
                    && *final(self) == *old(self),
            },
            final(self).available_liquidity >= old(self).available_liquidity,
            final(self).cumulative_borrow_rate == old(self).cumulative_borrow_rate,
    {
        let total: u64 = match self.total_borrowed.checked_sub(amount) {
            Some(total) => total,
            None => {
                return Err(LendingError::ArithmeticOverflow);
            },
        };
        let liquidity: u64 = match self.available_liquidity.checked_add(amount) {
            Some(liquidity) => liquidity,
            None => {
                return Err(LendingError::ArithmeticOverflow);
            },
        };
        self.total_borrowed = total;
        self.available_liquidity = liquidity;
        Ok(())
    }
}

} // verus!
