//! Scaling of an amount by the ratio of two readings of an accrual index.
//!
//! Amounts are whole units of the underlying asset. Scaling rounds down, so a
//! rounding loss of less than one unit stays with the pool, never with the
//! borrower. Products are formed at full width: a result is refused only
//! where the result itself does not fit, never for an intermediate value.

use vstd::prelude::*;
use vstd::arithmetic::div_mod::{lemma_fundamental_div_mod, lemma_fundamental_div_mod_converse};
use crate::error::LendingError;

verus! {

/// `a * b / d`, rounded down; `None` where `d` is zero or the quotient does
/// not fit in 128 bits.
pub open spec fn mul_div(a: u128, b: u128, d: u128) -> Option<u128> {
    if d == 0 || (a * b) / (d as int) > u128::MAX {
        None
    } else {
        Some(((a * b) / (d as int)) as u128)
    }
}

/// `amount * new_rate / old_rate`, rounded down; `None` where the checked
/// arithmetic fails. Equal readings leave the amount as it is, whatever their
/// value. Otherwise the old reading must be positive and the quotient must
/// fit in 64 bits.
pub open spec fn scaled_amount(amount: u64, new_rate: u128, old_rate: u128) -> Option<u64> {
    if new_rate == old_rate {
        Some(amount)
    } else if old_rate == 0 || (amount * new_rate) / (old_rate as int) > u64::MAX {
        None
    } else {
        Some(((amount * new_rate) / (old_rate as int)) as u64)
    }
}

/// A quotient of `n * r` by a divisor above `r` is at most `n`.
proof fn lemma_quotient_is_bounded(q: int, m: int, n: int, r: int, d: int)
    by (nonlinear_arith)
    requires
        q * d + m == n * r,
        0 <= m,
        0 <= r < d,
        0 <= n,
    ensures
        q <= n,
{
}

/// Two divisions by `d` add up, with or without a carry out of the
/// remainders.
proof fn lemma_divisions_add(
    n1: int,
    q1: int,
    m1: int,
    n2: int,
    q2: int,
    m2: int,
    r: int,
    d: int,
)
    by (nonlinear_arith)
    requires
        n1 * r == q1 * d + m1,
        n2 * r == q2 * d + m2,
    ensures
        (n1 + n2) * r == (q1 + q2) * d + (m1 + m2),
        (n1 + n2) * r == (q1 + q2 + 1) * d + (m1 + m2 - d),
{
}

/// Taking the lowest binary digit off `x` moves it, at weight `p`, into the
/// part already read.
proof fn lemma_digit_moves(a: int, x: int, half: int, digit: int, p: int, low: int)
    by (nonlinear_arith)
    requires
        a == x * p + low,
        x == 2 * half + digit,
    ensures
        digit == 0 ==> a == half * (2 * p) + low,
        digit == 1 ==> a == half * (2 * p) + (low + p),
{
}

/// `a * r / d` for a multiplier below the divisor, by binary long
/// multiplication: quotient and remainder of each partial product are kept
/// apart, so nothing ever leaves 128 bits.
fn mul_div_below(a: u128, r: u128, d: u128) -> (quotient: u128)
    requires
        r < d,
    ensures
        quotient == (a * r) / (d as int),
        quotient <= a,
{
    let mut x: u128 = a;
    let mut acc_q: u128 = 0;
    let mut acc_m: u128 = 0;
    let mut pow_q: u128 = 0;
    let mut pow_m: u128 = r;
    let ghost mut p: int = 1;
    let ghost mut low: int = 0;
    assert(a == x * p + low && low * r == acc_q * d + acc_m && p * r == pow_q * d + pow_m)
        by (nonlinear_arith)
        requires
            x == a,
            p == 1,
            low == 0,
            acc_q == 0,
            acc_m == 0,
            pow_q == 0,
            pow_m == r,
    ;
    while x > 0
        invariant
            r < d,
            p >= 1,
            low >= 0,
            a == x * p + low,
            low * r == acc_q * d + acc_m,
            acc_m < d,
            x > 0 ==> p * r == pow_q * d + pow_m,
            pow_m < d,
        decreases x,
    {
        let digit: u128 = x % 2;
        let half: u128 = x / 2;
        proof {
            assert(x * p >= p) by (nonlinear_arith)
                requires
                    x >= 1,
                    p >= 1,
            ;
            lemma_digit_moves(a as int, x as int, half as int, digit as int, p, low);
        }
        if digit == 1 {
            proof {
                lemma_divisions_add(
                    low,
                    acc_q as int,
                    acc_m as int,
                    p,
                    pow_q as int,
                    pow_m as int,
                    r as int,
                    d as int,
                );
            }
            if acc_m >= d - pow_m {
                proof {
                    lemma_quotient_is_bounded(
                        acc_q + pow_q + 1,
                        acc_m + pow_m - d,
                        low + p,
                        r as int,
                        d as int,
                    );
                }
                acc_q = acc_q + pow_q + 1;
                acc_m = acc_m - (d - pow_m);
            } else {
                proof {
                    lemma_quotient_is_bounded(
                        acc_q + pow_q,
                        acc_m + pow_m,
                        low + p,
                        r as int,
                        d as int,
                    );
                }
                acc_q = acc_q + pow_q;
                acc_m = acc_m + pow_m;
            }
            proof {
                low = low + p;
            }
        }
        if half > 0 {
            proof {
                lemma_divisions_add(
                    p,
                    pow_q as int,
                    pow_m as int,
                    p,
                    pow_q as int,
                    pow_m as int,
                    r as int,
                    d as int,
                );
                assert(half * (2 * p) >= 2 * p) by (nonlinear_arith)
                    requires
                        half >= 1,
                        p >= 1,
                ;
            }
            if pow_m >= d - pow_m {
                proof {
                    lemma_quotient_is_bounded(
                        pow_q + pow_q + 1,
                        pow_m + pow_m - d,
                        2 * p,
                        r as int,
                        d as int,
                    );
                }
                pow_q = pow_q + pow_q + 1;
                pow_m = pow_m - (d - pow_m);
            } else {
                proof {
                    lemma_quotient_is_bounded(
                        pow_q + pow_q,
                        pow_m + pow_m,
                        2 * p,
                        r as int,
                        d as int,
                    );
                }
                pow_q = pow_q + pow_q;
                pow_m = pow_m + pow_m;
            }
        }
        x = half;
        proof {
            p = 2 * p;
        }
    }
    proof {
        assert(a == low) by (nonlinear_arith)
            requires
                a == x * p + low,
                x == 0,
        ;
        lemma_fundamental_div_mod_converse(a * r, d as int, acc_q as int, acc_m as int);
        lemma_quotient_is_bounded(acc_q as int, acc_m as int, a as int, r as int, d as int);
    }
    acc_q
}

/// `a * b / d`, rounded down, with the product formed at full width.
pub fn checked_mul_div(a: u128, b: u128, d: u128) -> (result: Option<u128>)
    ensures
        result == mul_div(a, b, d),
{
    if d == 0 {
        return None;
    }
    let times: u128 = b / d;
    let rest: u128 = b % d;
    let part: u128 = mul_div_below(a, rest, d);
    proof {
        let m = (a * rest) % (d as int);
        lemma_fundamental_div_mod(b as int, d as int);
        lemma_fundamental_div_mod(a * rest, d as int);
        assert(a * b == (a * times + part) * d + m) by (nonlinear_arith)
            requires
                b == d * times + rest,
                a * rest == d * part + m,
        ;
        lemma_fundamental_div_mod_converse(a * b, d as int, a * times + part, m);
    }
    match a.checked_mul(times) {
        Some(whole) => whole.checked_add(part),
        None => None,
    }
}

/// Carries `amount`, last reconciled at index reading `old_rate`, forward to
/// the reading `new_rate`.
pub fn scale_amount(
    amount: u64,
    new_rate: u128,
    old_rate: u128,
) -> (result: Result<u64, LendingError>)
    ensures
        match scaled_amount(amount, new_rate, old_rate) {
            Some(scaled) => result == Ok::<u64, LendingError>(scaled),
            None => result == Err::<u64, LendingError>(LendingError::ArithmeticOverflow),
        },
{
    if new_rate == old_rate {
        return Ok(amount);
    }
    match checked_mul_div(amount as u128, new_rate, old_rate) {
        Some(quotient) => {
            if quotient > u64::MAX as u128 {
                Err(LendingError::ArithmeticOverflow)
            } else {
                Ok(quotient as u64)
            }
        },
        None => Err(LendingError::ArithmeticOverflow),
    }
}

} // verus!
