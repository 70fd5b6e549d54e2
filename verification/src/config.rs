//! The configuration of one splitter instance and the distribution it
//! prescribes for a given balance.

use vstd::prelude::*;
use crate::error::SplitterError;
use crate::shares::{
    distributed, distributed_upto, lemma_distribution_bounded, lemma_partial_distribution_bounded,
    lemma_share_le_balance, lemma_weight_le_total, lemma_zero_weight_zero_share, overflows,
    retained, share_amount, share_at, sum_weights, total_weight,
};

verus! {

/// One payment out of the instance: `amount` goes to the recipient that
/// stands at position `recipient` of the configured recipient list.
#[derive(Debug, Clone, Copy, PartialEq, Eq, Structural)]
pub struct Transfer {
    pub recipient: usize,
    pub amount: i128,
}

/// The outcome of apportioning one balance: the payments to make, in the
/// order of the recipient list, and the dust that stays with the instance.
#[derive(Debug, PartialEq, Eq)]
pub struct Distribution {
    pub transfers: Vec<Transfer>,
    pub retained: i128,
}

/// The mathematical content of a [`Distribution`].
pub struct DistributionModel {
    pub transfers: Seq<Transfer>,
    pub retained: int,
}

impl View for Distribution {
    type V = DistributionModel;

    open spec fn view(&self) -> DistributionModel {
        DistributionModel { transfers: self.transfers@, retained: self.retained as int }
    }
}

/// Selects the entitlements that lead to a payment: those of a positive
/// amount.
pub open spec fn payable() -> spec_fn(Transfer) -> bool {
    |t: Transfer| t.amount > 0
}

/// What each recipient is owed out of `balance`, one entry per recipient, in
/// the order of the list; entries of amount zero included.
pub open spec fn entitlements(weights: Seq<u32>, balance: nat) -> Seq<Transfer> {
    Seq::new(
        weights.len(),
        |i: int| Transfer { recipient: i as usize, amount: share_at(weights, balance, i) as i128 },
    )
}

/// The payments of one distribution: the entitlements of a positive amount,
/// in the order of the recipient list. Nothing is ever paid for an
/// entitlement of zero.
pub open spec fn planned_transfers(weights: Seq<u32>, balance: nat) -> Seq<Transfer> {
    entitlements(weights, balance).filter(payable())
}

/// The sum of the amounts of some payments.
pub open spec fn transferred(transfers: Seq<Transfer>) -> int
    decreases transfers.len(),
{
    if transfers.len() == 0 {
        0
    } else {
        transferred(transfers.drop_last()) + transfers.last().amount
    }
}

/// The mathematical content of a [`DistributionConfig`].
pub struct ConfigModel<A> {
    pub token: A,
    pub recipients: Seq<A>,
    pub weights: Seq<u32>,
}

impl<A> ConfigModel<A> {
    /// A configuration is valid when every recipient has a weight and the
    /// weights do not all vanish.
    pub open spec fn valid(self) -> bool {
        &&& self.recipients.len() == self.weights.len()
        &&& total_weight(self.weights) > 0
    }

    /// Why `new` refuses these lists, if it does.
    pub open spec fn rejection(recipients: Seq<A>, weights: Seq<u32>) -> Option<SplitterError> {
        if recipients.len() != weights.len() {
            Some(SplitterError::LengthMismatch)
        } else if total_weight(weights) == 0 {
            Some(SplitterError::ZeroTotalWeight)
        } else {
            None
        }
    }

    /// What one distribution of `balance` under this configuration comes to.
    pub open spec fn plan(self, balance: int) -> Result<DistributionModel, SplitterError> {
        if balance < 0 {
            Err(SplitterError::InvalidBalance)
        } else if overflows(self.weights, balance as nat) {
            Err(SplitterError::ArithmeticOverflow)
        } else {
            Ok(
                DistributionModel {
                    transfers: planned_transfers(self.weights, balance as nat),
                    retained: retained(self.weights, balance as nat),
                },
            )
        }
    }
}

/// The immutable configuration of one instance: the asset, the recipients in
/// their order, and one weight per recipient.
#[derive(Debug)]
pub struct DistributionConfig<A> {
    token: A,
    recipients: Vec<A>,
    weights: Vec<u32>,
}

impl<A> View for DistributionConfig<A> {
    type V = ConfigModel<A>;

    closed spec fn view(&self) -> ConfigModel<A> {
        ConfigModel { token: self.token, recipients: self.recipients@, weights: self.weights@ }
    }
}

impl<A> DistributionConfig<A> {
    /// Every configuration that exists is valid.
    #[verifier::type_invariant]
    pub open spec fn well_formed(self) -> bool {
        self@.valid()
    }

    /// Builds a configuration, or says why the lists are refused: first a
    /// difference in length, then a total weight of zero.
    pub fn new(token: A, recipients: Vec<A>, weights: Vec<u32>) -> (r: Result<Self, SplitterError>)
        ensures
            match r {
                Ok(config) => {
                    &&& ConfigModel::<A>::rejection(recipients@, weights@) is None
                    &&& config@ == ConfigModel { token, recipients: recipients@, weights: weights@ }
                },
                Err(e) => ConfigModel::<A>::rejection(recipients@, weights@) == Some(e),
            },
    {
        if recipients.len() != weights.len() {
            return Err(SplitterError::LengthMismatch);
        }
        let total = sum_weights(&weights);
        if total == 0 {
            return Err(SplitterError::ZeroTotalWeight);
        }
        Ok(DistributionConfig { token, recipients, weights })
    }

    /// The asset that this instance splits.
    pub fn token(&self) -> (token: &A)
        ensures
            *token == self@.token,
    {
        &self.token
    }

    /// The recipients, in their order.
    pub fn recipients(&self) -> (recipients: &Vec<A>)
        ensures
            recipients@ == self@.recipients,
    {
        &self.recipients
    }

    /// The weights, one per recipient.
    pub fn weights(&self) -> (weights: &Vec<u32>)
        ensures
            weights@ == self@.weights,
    {
        &self.weights
    }

    /// Apportions `balance` among the recipients.
    ///
    /// A negative balance is refused with `InvalidBalance`. Otherwise
    /// recipient `i` is owed `floor(balance * weight_i / total)`; if one of
    /// the products exceeds 128 bits the whole call fails with
    /// `ArithmeticOverflow`. The payments returned are the positive
    /// entitlements in list order, and `retained` is what they leave of the
    /// balance.
    pub fn plan(&self, balance: i128) -> (r: Result<Distribution, SplitterError>)
        ensures
            match r {
                Ok(d) => self@.plan(balance as int) == Ok::<DistributionModel, SplitterError>(d@),
                Err(e) => self@.plan(balance as int) == Err::<DistributionModel, SplitterError>(e),
            },
    {
        proof {
            use_type_invariant(self);
        }
        if balance < 0 {
            return Err(SplitterError::InvalidBalance);
        }
        let pool: u128 = balance as u128;
        let total = sum_weights(&self.weights);
        let ghost weights = self.weights@;
        let ghost owed = entitlements(weights, pool as nat);
        let mut transfers: Vec<Transfer> = Vec::new();
        let mut paid: i128 = 0;
        let mut i: usize = 0;
        proof {
            assert(owed.take(0) =~= Seq::<Transfer>::empty());
            assert(Seq::<Transfer>::empty().filter(payable()) =~= Seq::<Transfer>::empty()) by {
                reveal(Seq::filter);
            }
        }
        while i < self.weights.len()
            invariant
                i <= weights.len(),
                weights == self.weights@,
                owed == entitlements(weights, pool as nat),
                pool == balance,
                total == total_weight(weights),
                total > 0,
                forall|j: int| 0 <= j < i ==> pool * (#[trigger] weights[j]) <= u128::MAX,
                transfers@ == owed.take(i as int).filter(payable()),
                paid == distributed_upto(weights, pool as nat, i as nat),
            decreases weights.len() - i,
        {
            let weight = self.weights[i];
            proof {
                lemma_weight_le_total(weights, i as int);
                lemma_share_le_balance(pool as nat, weight as nat, total as nat);
                lemma_partial_distribution_bounded(weights, pool as nat, (i + 1) as nat);
                assert(owed.take(i + 1) =~= owed.take(i as int).push(owed[i as int]));
                owed.take(i as int).lemma_filter_push(owed[i as int], payable());
            }
            let amount = match share_amount(pool, weight, total) {
                Ok(amount) => amount,
                Err(_) => {
                    assert(pool * weights[i as int] > u128::MAX);
                    return Err(SplitterError::ArithmeticOverflow);
                },
            };
            if amount > 0 {
                transfers.push(Transfer { recipient: i, amount });
            }
            paid = paid + amount;
            i = i + 1;
        }
        proof {
            assert(owed.take(i as int) =~= owed);
        }
        Ok(Distribution { transfers, retained: balance - paid })
    }
}

/// The entitlement of recipient `i` names that recipient and holds exactly
/// `floor(balance * weight_i / total)`, for every list and balance that the
/// machine types can hold.
pub proof fn lemma_entitlement_is_floor_share(weights: Seq<u32>, balance: nat, i: int)
    requires
        total_weight(weights) > 0,
        weights.len() <= usize::MAX,
        balance <= i128::MAX,
        0 <= i < weights.len(),
    ensures
        entitlements(weights, balance)[i].recipient == i,
        entitlements(weights, balance)[i].amount == (balance * weights[i]) / (total_weight(
            weights,
        ) as int),
        0 <= entitlements(weights, balance)[i].amount <= balance,
{
    lemma_weight_le_total(weights, i);
    lemma_share_le_balance(balance, weights[i] as nat, total_weight(weights));
}

/// The payments made for the first `n` recipients add up to the sum of
/// their shares.
proof fn lemma_transferred_upto(weights: Seq<u32>, balance: nat, n: nat)
    requires
        total_weight(weights) > 0,
        weights.len() <= usize::MAX,
        balance <= i128::MAX,
        n <= weights.len(),
    ensures
        transferred(entitlements(weights, balance).take(n as int).filter(payable()))
            == distributed_upto(weights, balance, n),
    decreases n,
{
    let owed = entitlements(weights, balance);
    if n == 0 {
        assert(owed.take(0) =~= Seq::<Transfer>::empty());
        assert(Seq::<Transfer>::empty().filter(payable()) =~= Seq::<Transfer>::empty()) by {
            reveal(Seq::filter);
        }
    } else {
        let m = (n - 1) as nat;
        lemma_transferred_upto(weights, balance, m);
        lemma_entitlement_is_floor_share(weights, balance, m as int);
        let front = owed.take(m as int);
        let entry = owed[m as int];
        assert(owed.take(n as int) =~= front.push(entry));
        front.lemma_filter_push(entry, payable());
        if entry.amount > 0 {
            assert(front.filter(payable()).push(entry).drop_last() =~= front.filter(payable()));
        }
    }
}

/// Nothing is lost and nothing is created: what one distribution pays out
/// and what it leaves with the instance add up to the balance, and neither
/// part is negative.
pub proof fn lemma_distribution_accounts_for_balance(weights: Seq<u32>, balance: nat)
    requires
        total_weight(weights) > 0,
        weights.len() <= usize::MAX,
        balance <= i128::MAX,
    ensures
        transferred(planned_transfers(weights, balance)) == distributed(weights, balance),
        transferred(planned_transfers(weights, balance)) + retained(weights, balance) == balance,
        0 <= transferred(planned_transfers(weights, balance)) <= balance,
        0 <= retained(weights, balance) <= balance,
{
    lemma_transferred_upto(weights, balance, weights.len());
    assert(entitlements(weights, balance).take(weights.len() as int) =~= entitlements(
        weights,
        balance,
    ));
    lemma_distribution_bounded(weights, balance);
}

/// Every payment of a distribution is the positive entitlement of the
/// recipient it names, and that recipient has a positive weight.
pub proof fn lemma_payment_is_positive_share(weights: Seq<u32>, balance: nat, k: int)
    requires
        total_weight(weights) > 0,
        weights.len() <= usize::MAX,
        balance <= i128::MAX,
        0 <= k < planned_transfers(weights, balance).len(),
    ensures
        ({
            let t = planned_transfers(weights, balance)[k];
            &&& 0 <= t.recipient < weights.len()
            &&& t.amount > 0
            &&& t.amount == share_at(weights, balance, t.recipient as int)
            &&& weights[t.recipient as int] > 0
        }),
{
    let owed = entitlements(weights, balance);
    let t = planned_transfers(weights, balance)[k];
    owed.lemma_filter_pred(payable(), k);
    assert(owed.filter(payable()).contains(t));
    owed.lemma_filter_contains_rev(payable(), t);
    let i = choose|i: int| 0 <= i < owed.len() && owed[i] == t;
    lemma_entitlement_is_floor_share(weights, balance, i);
    if weights[i] == 0 {
        lemma_zero_weight_zero_share(balance, total_weight(weights));
    }
}

/// A recipient of weight zero is owed nothing, and no payment of the
/// distribution names it.
pub proof fn lemma_zero_weight_receives_nothing(weights: Seq<u32>, balance: nat, i: int)
    requires
        total_weight(weights) > 0,
        weights.len() <= usize::MAX,
        balance <= i128::MAX,
        0 <= i < weights.len(),
        weights[i] == 0,
    ensures
        share_at(weights, balance, i) == 0,
        forall|k: int|
            0 <= k < planned_transfers(weights, balance).len() ==> (#[trigger] planned_transfers(
                weights,
                balance,
            )[k]).recipient != i,
{
    lemma_zero_weight_zero_share(balance, total_weight(weights));
    assert forall|k: int| 0 <= k < planned_transfers(weights, balance).len() implies (
    #[trigger] planned_transfers(weights, balance)[k]).recipient != i by {
        lemma_payment_is_positive_share(weights, balance, k);
    }
}

/// The payments of a distribution come in the order of the recipient list,
/// and no recipient is paid twice.
pub proof fn lemma_payments_in_list_order(weights: Seq<u32>, balance: nat, j: int, k: int)
    requires
        total_weight(weights) > 0,
        weights.len() <= usize::MAX,
        balance <= i128::MAX,
        0 <= j < k < planned_transfers(weights, balance).len(),
    ensures
        planned_transfers(weights, balance)[j].recipient < planned_transfers(
            weights,
            balance,
        )[k].recipient,
{
    assert(entitlements(weights, balance).take(weights.len() as int) =~= entitlements(
        weights,
        balance,
    ));
    lemma_payments_ordered_upto(weights, balance, weights.len(), j, k);
}

/// Among the payments for the first `n` recipients, a later payment names a
/// later recipient, and every recipient named is among the first `n`.
proof fn lemma_payments_ordered_upto(weights: Seq<u32>, balance: nat, n: nat, j: int, k: int)
    requires
        total_weight(weights) > 0,
        weights.len() <= usize::MAX,
        balance <= i128::MAX,
        n <= weights.len(),
        0 <= j <= k < entitlements(weights, balance).take(n as int).filter(payable()).len(),
    ensures
        ({
            let paid = entitlements(weights, balance).take(n as int).filter(payable());
            &&& paid[k].recipient < n
            &&& j < k ==> paid[j].recipient < paid[k].recipient
        }),
    decreases n,
{
    let owed = entitlements(weights, balance);
    if n == 0 {
        assert(owed.take(0) =~= Seq::<Transfer>::empty());
        assert(Seq::<Transfer>::empty().filter(payable()) =~= Seq::<Transfer>::empty()) by {
            reveal(Seq::filter);
        }
    } else {
        let m = (n - 1) as nat;
        let front = owed.take(m as int);
        let entry = owed[m as int];
        assert(owed.take(n as int) =~= front.push(entry));
        front.lemma_filter_push(entry, payable());
        let before = front.filter(payable());
        if k < before.len() {
            lemma_payments_ordered_upto(weights, balance, m, j, k);
        } else {
            if j < k {
                lemma_payments_ordered_upto(weights, balance, m, j, j);
            }
        }
    }
}

} // verus!
