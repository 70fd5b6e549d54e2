//! One splitter instance: its state, and the operations that change it.
//!
//! The instance is an explicit state object. Whoever hosts it loads the
//! state, calls one operation, performs what the operation hands back (the
//! payments of a distribution) and stores the state again. A distribution is
//! in flight from a successful `distribute` until `settle`; while it is, the
//! instance is locked and refuses a second `distribute`.

use vstd::prelude::*;
use crate::config::{
    lemma_distribution_accounts_for_balance, lemma_payment_is_positive_share, planned_transfers,
    transferred, ConfigModel, Distribution, DistributionConfig, DistributionModel,
};
use crate::error::SplitterError;
use crate::shares::{lemma_total_zero_iff_all_zero, total_weight};

verus! {

/// For how many ledgers an instance's record is kept alive: about one year
/// of ledgers. The host renews the lifetime to this horizon after every
/// call that touches the instance, reads included, so that an instance in
/// use never expires.
pub const ONE_YEAR_LEDGERS: u32 = 5_184_000;

/// The mathematical content of a [`SimpleSplitter`]: the configuration, if
/// one was set, and the lock.
pub struct SplitterModel<A> {
    pub config: Option<ConfigModel<A>>,
    pub locked: bool,
}

impl<A> SplitterModel<A> {
    /// The state of an instance on which nothing was called yet.
    pub open spec fn fresh() -> Self {
        SplitterModel { config: None, locked: false }
    }

    /// Whether `init` has succeeded on this instance.
    pub open spec fn initialized(self) -> bool {
        self.config is Some
    }

    /// What holds of every state that the operations can reach: a
    /// configuration that is set is valid, and only an initialized instance
    /// is ever locked.
    pub open spec fn coherent(self) -> bool {
        &&& self.locked ==> self.initialized()
        &&& self.config matches Some(c) ==> c.valid()
    }

    /// The result of `init` with these lists.
    pub open spec fn init_outcome(self, recipients: Seq<A>, weights: Seq<u32>) -> Result<
        (),
        SplitterError,
    > {
        if self.initialized() {
            Err(SplitterError::AlreadyInitialized)
        } else {
            match ConfigModel::<A>::rejection(recipients, weights) {
                Some(e) => Err(e),
                None => Ok(()),
            }
        }
    }

    /// The state after `init` with these arguments.
    pub open spec fn after_init(self, token: A, recipients: Seq<A>, weights: Seq<u32>) -> Self {
        if self.init_outcome(recipients, weights) is Ok {
            SplitterModel { config: Some(ConfigModel { token, recipients, weights }), ..self }
        } else {
            self
        }
    }

    /// The result of `distribute` when the ledger reports `balance`.
    pub open spec fn distribute_outcome(self, balance: int) -> Result<
        DistributionModel,
        SplitterError,
    > {
        match self.config {
            None => Err(SplitterError::NotInitialized),
            Some(config) => if self.locked {
                Err(SplitterError::ReentrancyDetected)
            } else {
                config.plan(balance)
            },
        }
    }

    /// The state after `distribute`: locked if it succeeded, unchanged if
    /// it did not.
    pub open spec fn after_distribute(self, balance: int) -> Self {
        if self.distribute_outcome(balance) is Ok {
            SplitterModel { locked: true, ..self }
        } else {
            self
        }
    }

    /// The state after `settle`.
    pub open spec fn after_settle(self) -> Self {
        SplitterModel { locked: false, ..self }
    }

    /// The result of `get_config`.
    pub open spec fn config_outcome(self) -> Result<ConfigModel<A>, SplitterError> {
        match self.config {
            None => Err(SplitterError::NotInitialized),
            Some(config) => Ok(config),
        }
    }

    /// The state after one call.
    pub open spec fn after(self, call: Call<A>) -> Self {
        match call {
            Call::Init { token, recipients, weights } => self.after_init(
                token,
                recipients,
                weights,
            ),
            Call::Distribute { balance } => self.after_distribute(balance),
            Call::Settle => self.after_settle(),
            Call::GetConfig => self,
        }
    }

    /// The state after a history of calls, the earliest first.
    pub open spec fn after_all(self, calls: Seq<Call<A>>) -> Self
        decreases calls.len(),
    {
        if calls.len() == 0 {
            self
        } else {
            self.after_all(calls.drop_last()).after(calls.last())
        }
    }
}

/// One call on an instance, with its arguments; whether it succeeds is for
/// the instance to say.
pub enum Call<A> {
    Init { token: A, recipients: Seq<A>, weights: Seq<u32> },
    Distribute { balance: int },
    Settle,
    GetConfig,
}

/// One splitter instance.
#[derive(Debug)]
pub struct SimpleSplitter<A> {
    config: Option<DistributionConfig<A>>,
    locked: bool,
}

impl<A> View for SimpleSplitter<A> {
    type V = SplitterModel<A>;

    closed spec fn view(&self) -> SplitterModel<A> {
        SplitterModel {
            config: match self.config {
                Some(config) => Some(config@),
                None => None,
            },
            locked: self.locked,
        }
    }
}

impl<A> SimpleSplitter<A> {
    /// Every instance that exists is in a coherent state.
    #[verifier::type_invariant]
    pub open spec fn well_formed(self) -> bool {
        self@.coherent()
    }

    /// An instance on which nothing was called yet: no configuration, not
    /// locked.
    pub fn new() -> (s: Self)
        ensures
            s@ == SplitterModel::<A>::fresh(),
            s@.coherent(),
    {
        SimpleSplitter { config: None, locked: false }
    }

    /// Rebuilds an instance from what was stored of it. A lock without a
    /// configuration was never stored by this library; such a pair is
    /// refused.
    pub fn restore(config: Option<DistributionConfig<A>>, locked: bool) -> (r: Option<Self>)
        ensures
            r is None <==> locked && config is None,
            r matches Some(s) ==> {
                &&& s@.locked == locked
                &&& s@.config == match config {
                    Some(c) => Some(c@),
                    None => None::<ConfigModel<A>>,
                }
                &&& s@.coherent()
            },
    {
        match config {
            None => if locked {
                None
            } else {
                Some(SimpleSplitter { config: None, locked })
            },
            Some(c) => {
                proof {
                    use_type_invariant(&c);
                }
                Some(SimpleSplitter { config: Some(c), locked })
            },
        }
    }

    /// Whether `init` has succeeded on this instance.
    pub fn is_initialized(&self) -> (b: bool)
        ensures
            b == self@.initialized(),
    {
        self.config.is_some()
    }

    /// Whether a distribution is in flight.
    pub fn is_locked(&self) -> (b: bool)
        ensures
            b == self@.locked,
    {
        self.locked
    }

    /// Sets the configuration, once.
    ///
    /// Refused, in this order, with `AlreadyInitialized` if a configuration
    /// is set, `LengthMismatch` if the lists differ in length, and
    /// `ZeroTotalWeight` if the weights add up to zero. A refusal leaves the
    /// instance as it was.
    pub fn init(&mut self, token: A, recipients: Vec<A>, shares: Vec<u32>) -> (r: Result<
        (),
        SplitterError,
    >)
        ensures
            r == old(self)@.init_outcome(recipients@, shares@),
            final(self)@ == old(self)@.after_init(token, recipients@, shares@),
            final(self)@.coherent(),
    {
        proof {
            use_type_invariant(&*self);
        }
        if self.config.is_some() {
            return Err(SplitterError::AlreadyInitialized);
        }
        match DistributionConfig::new(token, recipients, shares) {
            Err(e) => Err(e),
            Ok(config) => {
                proof {
                    use_type_invariant(&config);
                }
                self.config = Some(config);
                Ok(())
            },
        }
    }

    /// Starts one distribution of `balance`, the instance's own balance as
    /// the asset ledger reports it.
    ///
    /// Refused, in this order, with `NotInitialized` if no configuration is
    /// set, `ReentrancyDetected` if a distribution is in flight,
    /// `InvalidBalance` if the balance is negative, and `ArithmeticOverflow`
    /// if a product of balance and weight exceeds 128 bits. A refusal leaves
    /// the instance as it was and hands out no payment.
    ///
    /// On success the instance is locked and the payments to make are
    /// returned, in the order of the recipient list; call `settle` once they
    /// are made.
    pub fn distribute(&mut self, balance: i128) -> (r: Result<Distribution, SplitterError>)
        ensures
            match r {
                Ok(d) => old(self)@.distribute_outcome(balance as int) == Ok::<
                    DistributionModel,
                    SplitterError,
                >(d@),
                Err(e) => old(self)@.distribute_outcome(balance as int) == Err::<
                    DistributionModel,
                    SplitterError,
                >(e),
            },
            final(self)@ == old(self)@.after_distribute(balance as int),
            final(self)@.coherent(),
    {
        proof {
            use_type_invariant(&*self);
        }
        let planned = match &self.config {
            None => {
                return Err(SplitterError::NotInitialized);
            },
            Some(config) => {
                if self.locked {
                    return Err(SplitterError::ReentrancyDetected);
                }
                config.plan(balance)
            },
        };
        match planned {
            Err(e) => Err(e),
            Ok(distribution) => {
                self.locked = true;
                Ok(distribution)
            },
        }
    }

    /// Ends the distribution in flight: releases the lock. On an instance
    /// that is not locked this changes nothing.
    ///
    /// A host that does not discard the writes of a call that fails calls
    /// this on every way out of a distribution, also when a payment fails;
    /// otherwise the instance would stay locked.
    pub fn settle(&mut self)
        ensures
            final(self)@ == old(self)@.after_settle(),
            final(self)@.coherent(),
    {
        proof {
            use_type_invariant(&*self);
        }
        self.locked = false;
    }

    /// The configuration: the asset, the recipients and their weights.
    /// Refused with `NotInitialized` while none is set.
    pub fn get_config(&self) -> (r: Result<(&A, &Vec<A>, &Vec<u32>), SplitterError>)
        ensures
            match r {
                Ok((token, recipients, shares)) => self@.config_outcome() == Ok::<
                    ConfigModel<A>,
                    SplitterError,
                >(ConfigModel { token: *token, recipients: recipients@, weights: shares@ }),
                Err(e) => self@.config_outcome() == Err::<ConfigModel<A>, SplitterError>(e),
            },
    {
        match &self.config {
            None => Err(SplitterError::NotInitialized),
            Some(config) => Ok((config.token(), config.recipients(), config.weights())),
        }
    }
}

/// Every operation leads from a coherent state to a coherent state.
pub proof fn lemma_operations_keep_coherence<A>(
    state: SplitterModel<A>,
    token: A,
    recipients: Seq<A>,
    weights: Seq<u32>,
    balance: int,
)
    requires
        state.coherent(),
    ensures
        SplitterModel::<A>::fresh().coherent(),
        state.after_init(token, recipients, weights).coherent(),
        state.after_distribute(balance).coherent(),
        state.after_settle().coherent(),
{
}

/// A configuration, once set, is never changed or removed: no operation
/// touches it.
pub proof fn lemma_configuration_is_immutable<A>(
    state: SplitterModel<A>,
    token: A,
    recipients: Seq<A>,
    weights: Seq<u32>,
    balance: int,
)
    requires
        state.initialized(),
    ensures
        state.after_init(token, recipients, weights).config == state.config,
        state.after_distribute(balance).config == state.config,
        state.after_settle().config == state.config,
{
}

/// Whatever is called on an instance, and in whatever order, it stays in a
/// coherent state; and a configuration that was set stays as it was set.
pub proof fn lemma_history_keeps_configuration<A>(state: SplitterModel<A>, calls: Seq<Call<A>>)
    requires
        state.coherent(),
    ensures
        state.after_all(calls).coherent(),
        state.initialized() ==> state.after_all(calls).config == state.config,
    decreases calls.len(),
{
    if calls.len() > 0 {
        lemma_history_keeps_configuration(state, calls.drop_last());
    }
}

/// The lock is set only by a successful `distribute`, and `settle` always
/// clears it.
pub proof fn lemma_lock_follows_distribution<A>(
    state: SplitterModel<A>,
    token: A,
    recipients: Seq<A>,
    weights: Seq<u32>,
    balance: int,
)
    ensures
        !SplitterModel::<A>::fresh().locked,
        state.after_init(token, recipients, weights).locked == state.locked,
        state.after_distribute(balance).locked == (state.locked || state.distribute_outcome(
            balance,
        ) is Ok),
        !state.after_settle().locked,
{
}

/// While a distribution is in flight, a second `distribute` is refused with
/// `ReentrancyDetected`, whatever balance it is given, and changes nothing:
/// it hands out no payment.
pub proof fn lemma_reentrant_distribute_refused<A>(
    state: SplitterModel<A>,
    first: int,
    second: int,
)
    requires
        state.distribute_outcome(first) is Ok,
    ensures
        state.after_distribute(first).distribute_outcome(second) == Err::<
            DistributionModel,
            SplitterError,
        >(SplitterError::ReentrancyDetected),
        state.after_distribute(first).after_distribute(second) == state.after_distribute(first),
{
}

/// Once the distribution in flight is settled, the instance distributes
/// again as it did before.
pub proof fn lemma_settle_reopens<A>(state: SplitterModel<A>, first: int, second: int)
    requires
        state.distribute_outcome(first) is Ok,
    ensures
        state.after_distribute(first).after_settle() == state,
        state.after_distribute(first).after_settle().distribute_outcome(second)
            == state.distribute_outcome(second),
{
}

/// `distribute` on an instance that was never initialized is refused with
/// `NotInitialized`.
pub proof fn lemma_distribute_before_init_refused<A>(state: SplitterModel<A>, balance: int)
    requires
        !state.initialized(),
    ensures
        state.distribute_outcome(balance) == Err::<DistributionModel, SplitterError>(
            SplitterError::NotInitialized,
        ),
        SplitterModel::<A>::fresh().distribute_outcome(balance) == Err::<
            DistributionModel,
            SplitterError,
        >(SplitterError::NotInitialized),
        state.after_distribute(balance) == state,
{
}

/// `init` with lists of different lengths is refused with `LengthMismatch`
/// and leaves no configuration behind: `get_config` still fails afterwards.
pub proof fn lemma_length_mismatch_leaves_no_config<A>(
    state: SplitterModel<A>,
    token: A,
    recipients: Seq<A>,
    weights: Seq<u32>,
)
    requires
        !state.initialized(),
        recipients.len() != weights.len(),
    ensures
        state.init_outcome(recipients, weights) == Err::<(), SplitterError>(
            SplitterError::LengthMismatch,
        ),
        state.after_init(token, recipients, weights) == state,
        state.after_init(token, recipients, weights).config_outcome() == Err::<
            ConfigModel<A>,
            SplitterError,
        >(SplitterError::NotInitialized),
{
}

/// `init` with weights that are all zero is refused with `ZeroTotalWeight`
/// and leaves no configuration behind.
pub proof fn lemma_all_zero_weights_refused<A>(
    state: SplitterModel<A>,
    token: A,
    recipients: Seq<A>,
    weights: Seq<u32>,
)
    requires
        !state.initialized(),
        recipients.len() == weights.len(),
        forall|i: int| 0 <= i < weights.len() ==> weights[i] == 0,
    ensures
        state.init_outcome(recipients, weights) == Err::<(), SplitterError>(
            SplitterError::ZeroTotalWeight,
        ),
        state.after_init(token, recipients, weights) == state,
{
    lemma_total_zero_iff_all_zero(weights);
}

/// `init` succeeds exactly on an uninitialized instance, with as many
/// weights as recipients and at least one weight that is not zero.
pub proof fn lemma_init_succeeds_iff<A>(
    state: SplitterModel<A>,
    recipients: Seq<A>,
    weights: Seq<u32>,
)
    ensures
        state.init_outcome(recipients, weights) is Ok <==> {
            &&& !state.initialized()
            &&& recipients.len() == weights.len()
            &&& exists|i: int| 0 <= i < weights.len() && weights[i] != 0
        },
{
    lemma_total_zero_iff_all_zero(weights);
}

/// After one successful `init`, every further `init` is refused with
/// `AlreadyInitialized` and changes nothing.
pub proof fn lemma_second_init_refused<A>(
    state: SplitterModel<A>,
    token: A,
    recipients: Seq<A>,
    weights: Seq<u32>,
    other_token: A,
    other_recipients: Seq<A>,
    other_weights: Seq<u32>,
)
    requires
        state.init_outcome(recipients, weights) is Ok,
    ensures
        state.after_init(token, recipients, weights).init_outcome(other_recipients, other_weights)
            == Err::<(), SplitterError>(SplitterError::AlreadyInitialized),
        state.after_init(token, recipients, weights).after_init(
            other_token,
            other_recipients,
            other_weights,
        ) == state.after_init(token, recipients, weights),
        state.after_init(token, recipients, weights).config_outcome() == Ok::<
            ConfigModel<A>,
            SplitterError,
        >(ConfigModel { token, recipients, weights }),
{
}

/// A distribution that succeeds pays each recipient the floor of its
/// pro-rata share and nothing else; what is paid and what is retained add
/// up to the balance.
pub proof fn lemma_distribute_pays_floor_shares<A>(state: SplitterModel<A>, balance: int)
    requires
        state.coherent(),
        state.distribute_outcome(balance) is Ok,
        state.config.unwrap().weights.len() <= usize::MAX,
        balance <= i128::MAX,
    ensures
        ({
            let weights = state.config.unwrap().weights;
            let outcome = state.distribute_outcome(balance).unwrap();
            &&& balance >= 0
            &&& outcome.transfers == planned_transfers(weights, balance as nat)
            &&& transferred(outcome.transfers) + outcome.retained == balance
            &&& 0 <= outcome.retained <= balance
            &&& forall|k: int|
                0 <= k < outcome.transfers.len() ==> {
                    let t = #[trigger] outcome.transfers[k];
                    &&& 0 <= t.recipient < weights.len()
                    &&& t.amount == (balance * weights[t.recipient as int]) / (total_weight(
                        weights,
                    ) as int)
                    &&& t.amount > 0
                }
        }),
{
    let weights = state.config.unwrap().weights;
    let outcome = state.distribute_outcome(balance).unwrap();
    lemma_distribution_accounts_for_balance(weights, balance as nat);
    assert forall|k: int| 0 <= k < outcome.transfers.len() implies {
        let t = #[trigger] outcome.transfers[k];
        &&& 0 <= t.recipient < weights.len()
        &&& t.amount == (balance * weights[t.recipient as int]) / (total_weight(weights) as int)
        &&& t.amount > 0
    } by {
        lemma_payment_is_positive_share(weights, balance as nat, k);
    }
}

} // verus!
