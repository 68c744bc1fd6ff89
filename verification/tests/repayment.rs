use klend::balance_invariant_checker::BalanceInvariantChecker;
use klend::error::LendingError;
use klend::obligation_ledger::{BorrowRecord, Obligation};
use klend::repayment_engine::repay;
use klend::reserve_ledger::{Reserve, ReserveId, RATE_SCALE};
use klend::settlement::{process, RepayObligationLiquidity};

const R: ReserveId = ReserveId { hi: 9, lo: 1 };
const OTHER: ReserveId = ReserveId { hi: 9, lo: 2 };

fn owing(reserve_id: ReserveId, amount: u64, snapshot: u128) -> BorrowRecord {
    BorrowRecord {
        reserve_id,
        borrowed_amount: amount,
        cumulative_borrow_rate_snapshot: snapshot,
    }
}

fn pool(liquidity: u64, borrowed: u64, index: u128) -> Reserve {
    Reserve {
        id: R,
        available_liquidity: liquidity,
        total_borrowed: borrowed,
        cumulative_borrow_rate: index,
        borrow_rate: 0,
        last_accrual_time: 0,
    }
}

#[test]
fn over_repayment_is_capped_at_the_debt() {
    let mut reserve = pool(200, 5000, RATE_SCALE);
    let mut obligation =
        Obligation::from_records(vec![owing(OTHER, 40, 3), owing(R, 1000, RATE_SCALE)]).unwrap();
    assert_eq!(repay(&mut reserve, &mut obligation, 1500), Ok(1000));
    assert_eq!(reserve.total_borrowed, 4000);
    assert_eq!(reserve.available_liquidity, 1200);
    assert_eq!(obligation.find(R), None);
    assert_eq!(obligation.records(), &vec![owing(OTHER, 40, 3)]);
}

#[test]
fn over_repayment_by_one_and_by_the_maximum() {
    for requested in [1001, u64::MAX] {
        let mut reserve = pool(200, 5000, RATE_SCALE);
        let mut obligation = Obligation::from_records(vec![owing(R, 1000, RATE_SCALE)]).unwrap();
        assert_eq!(repay(&mut reserve, &mut obligation, requested), Ok(1000));
        assert!(obligation.records().is_empty());
    }
}

#[test]
fn partial_repayment_applies_the_request() {
    let mut reserve = pool(200, 5000, RATE_SCALE);
    let mut obligation =
        Obligation::from_records(vec![owing(R, 1000, RATE_SCALE), owing(OTHER, 40, 3)]).unwrap();
    assert_eq!(repay(&mut reserve, &mut obligation, 1), Ok(1));
    assert_eq!(repay(&mut reserve, &mut obligation, 399), Ok(399));
    assert_eq!(reserve.total_borrowed, 4600);
    assert_eq!(reserve.available_liquidity, 600);
    assert_eq!(
        obligation.records(),
        &vec![owing(R, 600, RATE_SCALE), owing(OTHER, 40, 3)]
    );
}

#[test]
fn exact_repayment_removes_the_record() {
    let mut reserve = pool(200, 5000, RATE_SCALE);
    let mut obligation = Obligation::from_records(vec![owing(R, 1000, RATE_SCALE)]).unwrap();
    assert_eq!(repay(&mut reserve, &mut obligation, 1000), Ok(1000));
    assert_eq!(obligation.find(R), None);
    assert_eq!(reserve.total_borrowed, 4000);
}

#[test]
fn zero_request_is_invalid() {
    let mut reserve = pool(200, 5000, RATE_SCALE);
    let mut obligation = Obligation::from_records(vec![owing(R, 1000, RATE_SCALE)]).unwrap();
    assert_eq!(
        repay(&mut reserve, &mut obligation, 0),
        Err(LendingError::InvalidRepayAmount)
    );
    assert_eq!(reserve, pool(200, 5000, RATE_SCALE));
    assert_eq!(obligation.records(), &vec![owing(R, 1000, RATE_SCALE)]);
}

#[test]
fn zero_request_is_invalid_even_without_a_record() {
    let mut reserve = pool(200, 5000, RATE_SCALE);
    let mut obligation = Obligation::new();
    assert_eq!(
        repay(&mut reserve, &mut obligation, 0),
        Err(LendingError::InvalidRepayAmount)
    );
}

#[test]
fn repayment_without_a_record_is_refused() {
    let mut reserve = pool(200, 5000, RATE_SCALE);
    let mut obligation = Obligation::from_records(vec![owing(OTHER, 40, 3)]).unwrap();
    assert_eq!(
        repay(&mut reserve, &mut obligation, 500),
        Err(LendingError::ObligationHasNoBorrowForReserve)
    );
    assert_eq!(reserve, pool(200, 5000, RATE_SCALE));
    assert_eq!(obligation.records(), &vec![owing(OTHER, 40, 3)]);
}

#[test]
fn repayment_of_a_zero_balance_is_refused() {
    let mut reserve = pool(200, 5000, 2 * RATE_SCALE);
    let mut obligation = Obligation::from_records(vec![owing(R, 0, RATE_SCALE)]).unwrap();
    assert_eq!(
        repay(&mut reserve, &mut obligation, 500),
        Err(LendingError::ObligationHasNoBorrowForReserve)
    );
    assert_eq!(obligation.records(), &vec![owing(R, 0, RATE_SCALE)]);
}

#[test]
fn doubled_index_doubles_the_debt_before_clamping() {
    let mut reserve = pool(0, 5000, 2 * RATE_SCALE);
    let mut obligation = Obligation::from_records(vec![owing(R, 500, RATE_SCALE)]).unwrap();
    assert_eq!(repay(&mut reserve, &mut obligation, 1500), Ok(1000));
    assert_eq!(reserve.total_borrowed, 4000);
    assert_eq!(reserve.available_liquidity, 1000);
    assert!(obligation.records().is_empty());
}

#[test]
fn doubled_index_after_accrual_then_partial_repayment() {
    let mut reserve = pool(0, 2000, RATE_SCALE);
    reserve.borrow_rate = RATE_SCALE / 4;
    let mut obligation = Obligation::from_records(vec![owing(R, 500, RATE_SCALE)]).unwrap();
    assert_eq!(reserve.accrue_interest(4), Ok(()));
    assert_eq!(reserve.cumulative_borrow_rate, 2 * RATE_SCALE);
    assert_eq!(reserve.total_borrowed, 4000);
    assert_eq!(repay(&mut reserve, &mut obligation, 600), Ok(600));
    assert_eq!(obligation.records(), &vec![owing(R, 400, 2 * RATE_SCALE)]);
    assert_eq!(reserve.total_borrowed, 3400);
    assert_eq!(reserve.available_liquidity, 600);
}

#[test]
fn reconciled_debt_is_rounded_down_before_clamping() {
    let mut reserve = pool(0, 100, 3);
    let mut obligation = Obligation::from_records(vec![owing(R, 5, 2)]).unwrap();
    assert_eq!(repay(&mut reserve, &mut obligation, 8), Ok(7));
    assert!(obligation.records().is_empty());
    assert_eq!(reserve.total_borrowed, 93);
}

#[test]
fn failed_reconciliation_changes_nothing() {
    let mut reserve = pool(0, 100, 4);
    let mut obligation = Obligation::from_records(vec![owing(R, u64::MAX, 2)]).unwrap();
    assert_eq!(
        repay(&mut reserve, &mut obligation, 8),
        Err(LendingError::ArithmeticOverflow)
    );
    assert_eq!(reserve, pool(0, 100, 4));
    assert_eq!(obligation.records(), &vec![owing(R, u64::MAX, 2)]);
}

#[test]
fn reserve_short_of_debt_rolls_the_obligation_back() {
    let mut reserve = pool(0, 999, 2 * RATE_SCALE);
    let mut obligation = Obligation::from_records(vec![owing(R, 500, RATE_SCALE)]).unwrap();
    assert_eq!(
        repay(&mut reserve, &mut obligation, 1000),
        Err(LendingError::ArithmeticOverflow)
    );
    assert_eq!(reserve, pool(0, 999, 2 * RATE_SCALE));
    assert_eq!(obligation.records(), &vec![owing(R, 500, RATE_SCALE)]);
    assert_eq!(repay(&mut reserve, &mut obligation, 999), Ok(999));
    assert_eq!(obligation.records(), &vec![owing(R, 1, 2 * RATE_SCALE)]);
}

#[test]
fn liquidity_out_of_range_rolls_the_obligation_back() {
    let mut reserve = pool(u64::MAX - 5, 5000, RATE_SCALE);
    let mut obligation = Obligation::from_records(vec![owing(R, 1000, RATE_SCALE)]).unwrap();
    assert_eq!(
        repay(&mut reserve, &mut obligation, 6),
        Err(LendingError::ArithmeticOverflow)
    );
    assert_eq!(reserve, pool(u64::MAX - 5, 5000, RATE_SCALE));
    assert_eq!(obligation.records(), &vec![owing(R, 1000, RATE_SCALE)]);
}

#[test]
fn checker_accepts_matching_growth() {
    let before = pool(200, 5000, RATE_SCALE);
    let checker = BalanceInvariantChecker::capture(750, &before);
    assert_eq!(checker.vault_balance_before, 750);
    assert_eq!(checker.available_liquidity_before, 200);
    let after = pool(1200, 4000, RATE_SCALE);
    assert_eq!(checker.validate(1750, &after, 1000), Ok(()));
}

#[test]
fn checker_refuses_a_transfer_one_unit_short() {
    let checker = BalanceInvariantChecker::capture(750, &pool(200, 5000, RATE_SCALE));
    let after = pool(1200, 4000, RATE_SCALE);
    assert_eq!(
        checker.validate(1749, &after, 1000),
        Err(LendingError::LiquidityVaultBalanceMismatch)
    );
    assert_eq!(
        checker.validate(1751, &after, 1000),
        Err(LendingError::LiquidityVaultBalanceMismatch)
    );
}

#[test]
fn checker_refuses_a_ledger_that_moved_otherwise() {
    let checker = BalanceInvariantChecker::capture(750, &pool(200, 5000, RATE_SCALE));
    assert_eq!(
        checker.validate(1750, &pool(1199, 4000, RATE_SCALE), 1000),
        Err(LendingError::LiquidityVaultBalanceMismatch)
    );
    assert_eq!(
        checker.validate(1750, &pool(1200, 4000, RATE_SCALE), 999),
        Err(LendingError::LiquidityVaultBalanceMismatch)
    );
}

#[test]
fn checker_refuses_shrinking_balances() {
    let checker = BalanceInvariantChecker::capture(750, &pool(200, 5000, RATE_SCALE));
    assert_eq!(
        checker.validate(749, &pool(1200, 4000, RATE_SCALE), 1000),
        Err(LendingError::LiquidityVaultBalanceMismatch)
    );
    assert_eq!(
        checker.validate(1750, &pool(199, 4000, RATE_SCALE), 1000),
        Err(LendingError::LiquidityVaultBalanceMismatch)
    );
    assert_eq!(
        checker.validate(750, &pool(200, 5000, RATE_SCALE), 0),
        Ok(())
    );
}

fn loaded(vault: u64) -> RepayObligationLiquidity {
    RepayObligationLiquidity {
        repay_reserve: pool(200, 5000, 2 * RATE_SCALE),
        obligation: Obligation::from_records(vec![owing(OTHER, 40, 3), owing(R, 500, RATE_SCALE)])
            .unwrap(),
        reserve_destination_liquidity: vault,
    }
}

#[test]
fn process_stages_and_settle_publishes() {
    let pending = process(loaded(750), 1500).unwrap();
    assert_eq!(pending.repay_amount, 1000);
    assert_eq!(pending.checker.vault_balance_before, 750);
    assert_eq!(pending.checker.available_liquidity_before, 200);
    let settled = pending.settle(1750).unwrap();
    assert_eq!(settled.repay_reserve.total_borrowed, 4000);
    assert_eq!(settled.repay_reserve.available_liquidity, 1200);
    assert_eq!(settled.reserve_destination_liquidity, 1750);
    assert_eq!(settled.obligation.records(), &vec![owing(OTHER, 40, 3)]);
}

#[test]
fn process_partial_keeps_the_rest_at_the_new_index() {
    let pending = process(loaded(0), 300).unwrap();
    assert_eq!(pending.repay_amount, 300);
    let settled = pending.settle(300).unwrap();
    assert_eq!(
        settled.obligation.records(),
        &vec![owing(OTHER, 40, 3), owing(R, 700, 2 * RATE_SCALE)]
    );
    assert_eq!(settled.repay_reserve.total_borrowed, 4700);
}

#[test]
fn settle_refuses_a_transfer_one_unit_short() {
    let pending = process(loaded(750), 1500).unwrap();
    assert_eq!(
        pending.settle(1749).unwrap_err(),
        LendingError::LiquidityVaultBalanceMismatch
    );
}

#[test]
fn settle_refuses_a_transfer_of_the_requested_amount() {
    let pending = process(loaded(750), 1500).unwrap();
    assert_eq!(
        pending.settle(2250).unwrap_err(),
        LendingError::LiquidityVaultBalanceMismatch
    );
}

#[test]
fn settle_refuses_a_vault_that_did_not_move() {
    let pending = process(loaded(750), 1500).unwrap();
    assert_eq!(
        pending.settle(750).unwrap_err(),
        LendingError::LiquidityVaultBalanceMismatch
    );
}

#[test]
fn process_refuses_what_repay_refuses() {
    assert_eq!(
        process(loaded(750), 0).unwrap_err(),
        LendingError::InvalidRepayAmount
    );
    let mut accounts = loaded(750);
    accounts.obligation = Obligation::new();
    assert_eq!(
        process(accounts, 10).unwrap_err(),
        LendingError::ObligationHasNoBorrowForReserve
    );
    let mut accounts = loaded(750);
    accounts.repay_reserve.total_borrowed = 10;
    assert_eq!(
        process(accounts, 11).unwrap_err(),
        LendingError::ArithmeticOverflow
    );
}

#[test]
fn nothing_is_left_to_repay_after_a_full_repayment() {
    let mut reserve = pool(200, 5000, RATE_SCALE);
    let mut obligation = Obligation::from_records(vec![owing(R, 1000, RATE_SCALE)]).unwrap();
    assert_eq!(repay(&mut reserve, &mut obligation, 1000), Ok(1000));
    assert_eq!(
        repay(&mut reserve, &mut obligation, 1),
        Err(LendingError::ObligationHasNoBorrowForReserve)
    );
    assert_eq!(reserve.total_borrowed, 4000);
    assert_eq!(reserve.available_liquidity, 1200);
}

#[test]
fn repayments_add_up_to_the_debt() {
    let mut reserve = pool(0, 1000, 3 * RATE_SCALE);
    let mut obligation = Obligation::from_records(vec![owing(R, 100, RATE_SCALE)]).unwrap();
    let mut paid = 0;
    let mut rounds = 0;
    while let Ok(amount) = repay(&mut reserve, &mut obligation, 70) {
        paid += amount;
        rounds += 1;
        assert_eq!(reserve.available_liquidity, paid);
        assert_eq!(reserve.total_borrowed, 1000 - paid);
    }
    assert_eq!(paid, 300);
    assert_eq!(rounds, 5);
    assert!(obligation.records().is_empty());
}
