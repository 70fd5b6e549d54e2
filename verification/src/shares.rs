//! Integer share arithmetic: floor division of a pooled balance by weights.
//!
//! Everything here is stated over mathematical integers; the executable
//! functions compute the same values in 128-bit arithmetic and report the
//! inputs on which that arithmetic would overflow.

use vstd::prelude::*;
use vstd::arithmetic::div_mod::*;
use vstd::arithmetic::mul::*;
use crate::error::SplitterError;

verus! {

/// The sum of all weights.
pub open spec fn total_weight(weights: Seq<u32>) -> nat
    decreases weights.len(),
{
    if weights.len() == 0 {
        0
    } else {
        total_weight(weights.drop_last()) + weights.last() as nat
    }
}

/// `floor(balance * weight / total)`: what a recipient of weight `weight`
/// is owed out of `balance` when all weights add up to `total`.
pub open spec fn share_of(balance: nat, weight: nat, total: nat) -> nat
    recommends
        total > 0,
{
    (balance * weight) / total
}

/// The share of recipient `i` under `weights`.
pub open spec fn share_at(weights: Seq<u32>, balance: nat, i: int) -> nat
    recommends
        0 <= i < weights.len(),
        total_weight(weights) > 0,
{
    share_of(balance, weights[i] as nat, total_weight(weights))
}

/// The sum of the shares of the first `n` recipients.
pub open spec fn distributed_upto(weights: Seq<u32>, balance: nat, n: nat) -> nat
    recommends
        n <= weights.len(),
    decreases n,
{
    if n == 0 {
        0
    } else {
        distributed_upto(weights, balance, (n - 1) as nat) + share_at(weights, balance, n - 1)
    }
}

/// The sum of all shares: what leaves the instance in one distribution.
pub open spec fn distributed(weights: Seq<u32>, balance: nat) -> nat {
    distributed_upto(weights, balance, weights.len())
}

/// What stays with the instance after one distribution: the dust that floor
/// division leaves behind.
pub open spec fn retained(weights: Seq<u32>, balance: nat) -> int {
    balance - distributed(weights, balance)
}

/// Whether some product `balance * weight` exceeds the 128-bit accumulator.
pub open spec fn overflows(weights: Seq<u32>, balance: nat) -> bool {
    exists|i: int| 0 <= i < weights.len() && balance * (#[trigger] weights[i]) > u128::MAX
}

/// Balances below 2^96 never overflow: a weight is below 2^32, so every
/// product stays below 2^128.
pub proof fn lemma_moderate_balance_never_overflows(weights: Seq<u32>, balance: nat)
    requires
        balance <= 0xffff_ffff_ffff_ffff_ffff_ffff,
    ensures
        !overflows(weights, balance),
{
    assert forall|i: int| 0 <= i < weights.len() implies balance * (#[trigger] weights[i])
        <= u128::MAX by {
        let weight = weights[i] as nat;
        assert(balance * weight <= 0xffff_ffff_ffff_ffff_ffff_ffff * 0xffff_ffff)
            by (nonlinear_arith)
            requires
                balance <= 0xffff_ffff_ffff_ffff_ffff_ffff,
                weight <= 0xffff_ffff,
        ;
    }
}

/// Each weight is part of the total.
pub proof fn lemma_weight_le_total(weights: Seq<u32>, i: int)
    requires
        0 <= i < weights.len(),
    ensures
        weights[i] <= total_weight(weights),
    decreases weights.len(),
{
    if i < weights.len() - 1 {
        lemma_weight_le_total(weights.drop_last(), i);
    }
}

/// The total is zero exactly when every weight is zero.
pub proof fn lemma_total_zero_iff_all_zero(weights: Seq<u32>)
    ensures
        total_weight(weights) == 0 <==> (forall|i: int| 0 <= i < weights.len() ==> weights[i] == 0),
    decreases weights.len(),
{
    if weights.len() > 0 {
        let front = weights.drop_last();
        lemma_total_zero_iff_all_zero(front);
        if total_weight(weights) == 0 {
            assert forall|i: int| 0 <= i < weights.len() implies weights[i] == 0 by {
                if i < weights.len() - 1 {
                    assert(front[i] == weights[i]);
                }
            }
        } else {
            if forall|i: int| 0 <= i < weights.len() ==> weights[i] == 0 {
                assert forall|i: int| 0 <= i < front.len() implies front[i] == 0 by {
                    assert(front[i] == weights[i]);
                }
                assert(weights.last() == weights[weights.len() - 1]);
            }
        }
    }
}

/// A share never exceeds the balance it is taken from.
pub proof fn lemma_share_le_balance(balance: nat, weight: nat, total: nat)
    requires
        total > 0,
        weight <= total,
    ensures
        share_of(balance, weight, total) <= balance,
{
    assert(balance * weight <= balance * total) by (nonlinear_arith)
        requires
            weight <= total,
    ;
    lemma_div_is_ordered((balance * weight) as int, (balance * total) as int, total as int);
    lemma_div_multiples_vanish(balance as int, total as int);
    assert(balance * total == total * balance) by (nonlinear_arith);
}

/// A recipient of weight zero is owed nothing.
pub proof fn lemma_zero_weight_zero_share(balance: nat, total: nat)
    requires
        total > 0,
    ensures
        share_of(balance, 0, total) == 0,
{
    assert(balance * 0 == 0) by (nonlinear_arith);
}

/// The weights of a prefix add up to no more than the weights of the whole.
pub proof fn lemma_prefix_weight_le_total(weights: Seq<u32>, n: int)
    requires
        0 <= n <= weights.len(),
    ensures
        total_weight(weights.take(n)) <= total_weight(weights),
    decreases weights.len() - n,
{
    if n == weights.len() {
        assert(weights.take(n) =~= weights);
    } else {
        lemma_prefix_weight_le_total(weights, n + 1);
        assert(weights.take(n + 1).drop_last() =~= weights.take(n));
    }
}

/// Floor division loses nothing to rounding up: the first `n` shares, taken
/// together and scaled by the total, stay within the balance scaled by the
/// first `n` weights.
pub proof fn lemma_partial_distribution_scaled(weights: Seq<u32>, balance: nat, n: nat)
    requires
        n <= weights.len(),
        total_weight(weights) > 0,
    ensures
        distributed_upto(weights, balance, n) * total_weight(weights) <= balance * total_weight(
            weights.take(n as int),
        ),
    decreases n,
{
    let total = total_weight(weights);
    if n == 0 {
        assert(weights.take(0) =~= Seq::<u32>::empty());
        assert(0 * total == 0) by (nonlinear_arith);
        assert(balance * 0 == 0) by (nonlinear_arith);
    } else {
        let m = (n - 1) as nat;
        lemma_partial_distribution_scaled(weights, balance, m);
        let before = distributed_upto(weights, balance, m);
        let weight = weights[n - 1] as nat;
        let share = share_at(weights, balance, n - 1);
        let front = total_weight(weights.take(m as int));
        assert(weights.take(n as int).drop_last() =~= weights.take(m as int));
        assert(total_weight(weights.take(n as int)) == front + weight);
        lemma_fundamental_div_mod((balance * weight) as int, total as int);
        lemma_remainder_lower((balance * weight) as int, total as int);
        assert(share * total <= balance * weight) by (nonlinear_arith)
            requires
                balance * weight == total * share + (balance * weight) % total,
                (balance * weight) % total >= 0,
        ;
        assert((before + share) * total == before * total + share * total) by (nonlinear_arith);
        assert(balance * (front + weight) == balance * front + balance * weight)
            by (nonlinear_arith);
    }
}

/// The running sum of shares never exceeds the balance.
pub proof fn lemma_partial_distribution_bounded(weights: Seq<u32>, balance: nat, n: nat)
    requires
        n <= weights.len(),
        total_weight(weights) > 0,
    ensures
        distributed_upto(weights, balance, n) <= balance,
{
    let total = total_weight(weights);
    let front = total_weight(weights.take(n as int));
    let sum = distributed_upto(weights, balance, n);
    lemma_partial_distribution_scaled(weights, balance, n);
    lemma_prefix_weight_le_total(weights, n as int);
    assert(sum <= balance) by (nonlinear_arith)
        requires
            sum * total <= balance * front,
            front <= total,
            total > 0,
    ;
}

/// The shares of one distribution add up to no more than the balance, so the
/// amount that stays with the instance is never negative.
pub proof fn lemma_distribution_bounded(weights: Seq<u32>, balance: nat)
    requires
        total_weight(weights) > 0,
    ensures
        distributed(weights, balance) <= balance,
        retained(weights, balance) >= 0,
{
    lemma_partial_distribution_bounded(weights, balance, weights.len());
}

/// Adds up the weights.
///
/// A list holds at most `usize::MAX` weights of at most `u32::MAX` each, so
/// the sum always fits 128 bits.
pub fn sum_weights(weights: &Vec<u32>) -> (total: u128)
    ensures
        total == total_weight(weights@),
{
    let mut total: u128 = 0;
    let mut i: usize = 0;
    while i < weights.len()
        invariant
            i <= weights.len(),
            total == total_weight(weights@.take(i as int)),
            total <= i * u32::MAX,
        decreases weights.len() - i,
    {
        proof {
            assert(weights@.take(i + 1).drop_last() =~= weights@.take(i as int));
            assert(i * u32::MAX <= usize::MAX * u32::MAX) by (nonlinear_arith)
                requires
                    i <= usize::MAX,
            ;
            assert((i + 1) * u32::MAX == i * u32::MAX + u32::MAX) by (nonlinear_arith);
        }
        total = total + weights[i] as u128;
        i = i + 1;
    }
    proof {
        assert(weights@.take(i as int) =~= weights@);
    }
    total
}

/// Computes one share, `floor(balance * weight / total)`, in 128-bit
/// arithmetic.
///
/// Fails with `ArithmeticOverflow` exactly when the product does not fit
/// `u128` or the quotient does not fit `i128`; otherwise the result is the
/// mathematical share.
pub fn share_amount(balance: u128, weight: u32, total: u128) -> (r: Result<i128, SplitterError>)
    requires
        total > 0,
    ensures
        r == if balance * weight > u128::MAX || share_of(
            balance as nat,
            weight as nat,
            total as nat,
        ) > i128::MAX {
            Err::<i128, SplitterError>(SplitterError::ArithmeticOverflow)
        } else {
            Ok::<i128, SplitterError>(share_of(balance as nat, weight as nat, total as nat) as i128)
        },
{
    match balance.checked_mul(weight as u128) {
        None => Err(SplitterError::ArithmeticOverflow),
        Some(product) => {
            let quotient: u128 = product / total;
            if quotient > i128::MAX as u128 {
                Err(SplitterError::ArithmeticOverflow)
            } else {
                Ok(quotient as i128)
            }
        },
    }
}

} // verus!
