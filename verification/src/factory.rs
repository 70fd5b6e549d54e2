//! The factory: creates splitter instances from a template.
//!
//! A creation runs in two steps around the deployment, which the host
//! performs. `create` checks the factory, settles the salt and initializes
//! the state of the new instance; the host then deploys the template under
//! that salt; `complete` turns the host's answer into the creation record
//! or into the refusal of the whole creation.

use vstd::prelude::*;
use crate::config::ConfigModel;
use crate::error::SplitterError;
use crate::salt::{lemma_preimage_injective, salt_preimage, SaltSource};
use crate::splitter::{SimpleSplitter, SplitterModel};

verus! {

/// Why a creation was refused.
///
/// Every refusal is whole-call atomic: nothing is deployed, no instance
/// becomes visible and no record is written.
#[derive(Debug, Clone, Copy, PartialEq, Eq, Structural)]
pub enum FactoryError {
    /// The factory holds no template yet.
    FactoryNotInitialized,
    /// The salt was already used by this deployer: the identifier of the
    /// new instance would collide with that of an existing one.
    IdentifierCollision,
    /// The new instance refused its configuration, for the reason given.
    Init(SplitterError),
}

impl FactoryError {
    /// The diagnostic text of this refusal.
    pub open spec fn spec_message(self) -> Seq<char> {
        match self {
            FactoryError::FactoryNotInitialized => "Factory not initialized with WASM hash"@,
            FactoryError::IdentifierCollision => "instance identifier already in use"@,
            FactoryError::Init(e) => e.spec_message(),
        }
    }

    /// The diagnostic text with which a host aborts the call; for a
    /// configuration that the new instance refused, the instance's own text.
    pub fn message(&self) -> (text: &'static str)
        ensures
            text@ == self.spec_message(),
    {
        match self {
            FactoryError::FactoryNotInitialized => "Factory not initialized with WASM hash",
            FactoryError::IdentifierCollision => "instance identifier already in use",
            FactoryError::Init(e) => e.message(),
        }
    }
}

/// What the host reports of a deployment.
#[derive(Debug, PartialEq, Eq)]
pub enum DeployOutcome<I> {
    /// The template was instantiated under this identifier.
    Deployed(I),
    /// Nothing was instantiated: this deployer has used the salt before.
    SaltAlreadyUsed,
}

/// The entry that is appended to the creation log for each instance
/// created.
#[derive(Debug, PartialEq, Eq)]
pub struct CreationRecord<I> {
    /// The identifier of the new instance.
    pub instance: I,
}

/// A finished creation: the record for the creation log, and the state in
/// which the new instance starts.
#[derive(Debug)]
pub struct Created<A, I> {
    pub record: CreationRecord<I>,
    pub instance: SimpleSplitter<A>,
}

/// The mathematical content of a [`Created`].
pub struct CreatedModel<A, I> {
    pub record: CreationRecord<I>,
    pub instance: SplitterModel<A>,
}

impl<A, I> View for Created<A, I> {
    type V = CreatedModel<A, I>;

    open spec fn view(&self) -> CreatedModel<A, I> {
        CreatedModel { record: self.record, instance: self.instance@ }
    }
}

/// The mathematical content of a [`SimpleSplitterFactory`]: the template,
/// if one was set.
pub struct FactoryModel {
    pub template: Option<Seq<u8>>,
}

/// The mathematical content of a [`PendingCreation`].
pub struct CreationModel<A> {
    pub template: Seq<u8>,
    pub salt: Seq<u8>,
    pub instance: SplitterModel<A>,
}

impl FactoryModel {
    /// The state of a factory on which nothing was called yet.
    pub open spec fn fresh() -> Self {
        FactoryModel { template: None }
    }

    /// The state after `init` with this template.
    pub open spec fn after_init(self, template: Seq<u8>) -> Self {
        FactoryModel { template: Some(template) }
    }

    /// The result of `create` with these arguments and this salt.
    pub open spec fn create_outcome<A>(
        self,
        token: A,
        recipients: Seq<A>,
        weights: Seq<u32>,
        salt: Seq<u8>,
    ) -> Result<CreationModel<A>, FactoryError> {
        match self.template {
            None => Err(FactoryError::FactoryNotInitialized),
            Some(template) => match SplitterModel::<A>::fresh().init_outcome(recipients, weights) {
                Err(e) => Err(FactoryError::Init(e)),
                Ok(_) => Ok(
                    CreationModel {
                        template,
                        salt,
                        instance: SplitterModel::<A>::fresh().after_init(
                            token,
                            recipients,
                            weights,
                        ),
                    },
                ),
            },
        }
    }
}

impl<A> CreationModel<A> {
    /// The result of `complete` for this answer of the host.
    pub open spec fn completion<I>(self, outcome: DeployOutcome<I>) -> Result<
        CreatedModel<A, I>,
        FactoryError,
    > {
        match outcome {
            DeployOutcome::Deployed(instance) => Ok(
                CreatedModel { record: CreationRecord { instance }, instance: self.instance },
            ),
            DeployOutcome::SaltAlreadyUsed => Err(FactoryError::IdentifierCollision),
        }
    }
}

/// For how many ledgers the factory's record is kept alive after `init`.
pub const FACTORY_LIFETIME_LEDGERS: u32 = 5000;

/// The factory of splitter instances.
#[derive(Debug)]
pub struct SimpleSplitterFactory {
    template: Option<[u8; 32]>,
}

impl View for SimpleSplitterFactory {
    type V = FactoryModel;

    closed spec fn view(&self) -> FactoryModel {
        FactoryModel {
            template: match self.template {
                Some(template) => Some(template@),
                None => None,
            },
        }
    }
}

/// A creation that has passed the factory's checks and awaits deployment.
#[derive(Debug)]
pub struct PendingCreation<A> {
    template: [u8; 32],
    salt: [u8; 32],
    instance: SimpleSplitter<A>,
}

impl<A> View for PendingCreation<A> {
    type V = CreationModel<A>;

    closed spec fn view(&self) -> CreationModel<A> {
        CreationModel { template: self.template@, salt: self.salt@, instance: self.instance@ }
    }
}

impl SimpleSplitterFactory {
    /// A factory on which nothing was called yet: it holds no template.
    pub fn new() -> (factory: Self)
        ensures
            factory@ == FactoryModel::fresh(),
    {
        SimpleSplitterFactory { template: None }
    }

    /// Sets the template from which instances are created.
    ///
    /// There is no guard against a second call: it replaces the template,
    /// and instances created afterwards come from the new one.
    pub fn init(&mut self, splitter_wasm_hash: [u8; 32])
        ensures
            final(self)@ == old(self)@.after_init(splitter_wasm_hash@),
    {
        self.template = Some(splitter_wasm_hash);
    }

    /// The template, if one was set.
    pub fn template(&self) -> (template: Option<[u8; 32]>)
        ensures
            match template {
                Some(t) => self@.template == Some(t@),
                None => self@.template is None,
            },
    {
        self.template
    }

    /// Prepares the creation of one instance.
    ///
    /// Refused with `FactoryNotInitialized` if no template is set. Otherwise
    /// the configuration is handed to a fresh instance; if that instance
    /// refuses it, the creation is refused with the instance's reason, before
    /// anything is deployed. On success the result holds the template and the
    /// salt to deploy under, and the initialized state of the new instance.
    pub fn create<A>(
        &self,
        token: A,
        recipients: Vec<A>,
        shares: Vec<u32>,
        salt: SaltSource,
    ) -> (r: Result<PendingCreation<A>, FactoryError>)
        ensures
            match r {
                Ok(pending) => self@.create_outcome(token, recipients@, shares@, salt.salt())
                    == Ok::<CreationModel<A>, FactoryError>(pending@),
                Err(e) => self@.create_outcome(token, recipients@, shares@, salt.salt()) == Err::<
                    CreationModel<A>,
                    FactoryError,
                >(e),
            },
    {
        let template = match self.template {
            None => {
                return Err(FactoryError::FactoryNotInitialized);
            },
            Some(template) => template,
        };
        let mut instance = SimpleSplitter::new();
        match instance.init(token, recipients, shares) {
            Err(e) => Err(FactoryError::Init(e)),
            Ok(_) => {
                let salt = salt.resolve();
                Ok(PendingCreation { template, salt, instance })
            },
        }
    }
}

impl<A> PendingCreation<A> {
    /// The template to instantiate.
    pub fn template(&self) -> (template: [u8; 32])
        ensures
            template@ == self@.template,
    {
        self.template
    }

    /// The salt to deploy under.
    pub fn salt(&self) -> (salt: [u8; 32])
        ensures
            salt@ == self@.salt,
    {
        self.salt
    }

    /// The state in which the new instance starts: initialized with the
    /// configuration that was handed to `create`.
    pub fn instance(&self) -> (instance: &SimpleSplitter<A>)
        ensures
            instance@ == self@.instance,
    {
        &self.instance
    }

    /// Ends the creation with the host's answer. If the instance was
    /// deployed, the result holds the record to append to the creation log,
    /// which names the new instance, and the instance's state. If the salt
    /// had been used before, the creation fails with `IdentifierCollision`
    /// and leaves nothing behind.
    pub fn complete<I>(self, outcome: DeployOutcome<I>) -> (r: Result<Created<A, I>, FactoryError>)
        ensures
            match r {
                Ok(created) => self@.completion(outcome) == Ok::<CreatedModel<A, I>, FactoryError>(
                    created@,
                ),
                Err(e) => self@.completion(outcome) == Err::<CreatedModel<A, I>, FactoryError>(e),
            },
    {
        match outcome {
            DeployOutcome::Deployed(instance) => Ok(
                Created { record: CreationRecord { instance }, instance: self.instance },
            ),
            DeployOutcome::SaltAlreadyUsed => Err(FactoryError::IdentifierCollision),
        }
    }
}

/// Before any `init`, every creation is refused with
/// `FactoryNotInitialized`, whatever it is asked to create.
pub proof fn lemma_create_before_init_refused<A>(
    token: A,
    recipients: Seq<A>,
    weights: Seq<u32>,
    salt: Seq<u8>,
)
    ensures
        FactoryModel::fresh().create_outcome(token, recipients, weights, salt) == Err::<
            CreationModel<A>,
            FactoryError,
        >(FactoryError::FactoryNotInitialized),
{
}

/// A creation fails exactly when `init` on a fresh instance would fail, and
/// with the same reason; when it succeeds, the new instance holds exactly
/// the configuration that was handed in, and is not locked.
pub proof fn lemma_create_delegates_to_init<A>(
    factory: FactoryModel,
    token: A,
    recipients: Seq<A>,
    weights: Seq<u32>,
    salt: Seq<u8>,
)
    requires
        factory.template is Some,
    ensures
        match factory.create_outcome(token, recipients, weights, salt) {
            Ok(creation) => {
                &&& SplitterModel::<A>::fresh().init_outcome(recipients, weights) is Ok
                &&& creation.template == factory.template.unwrap()
                &&& creation.salt == salt
                &&& creation.instance.config == Some(ConfigModel { token, recipients, weights })
                &&& !creation.instance.locked
                &&& creation.instance.coherent()
            },
            Err(e) => {
                &&& SplitterModel::<A>::fresh().init_outcome(recipients, weights) is Err
                &&& e == FactoryError::Init(
                    SplitterModel::<A>::fresh().init_outcome(recipients, weights)->Err_0,
                )
                &&& e != FactoryError::Init(SplitterError::AlreadyInitialized)
            },
        },
{
}

/// Two creations that differ only in their salt are both accepted and ask
/// for deployments under different salts: the host, which derives the
/// identifier of an instance from the deployer and the salt, sees two
/// different instances of one template with one configuration.
pub proof fn lemma_differing_salts_give_distinct_deployments<A>(
    factory: FactoryModel,
    token: A,
    recipients: Seq<A>,
    weights: Seq<u32>,
    salt: Seq<u8>,
    other_salt: Seq<u8>,
)
    requires
        factory.create_outcome(token, recipients, weights, salt) is Ok,
        salt != other_salt,
    ensures
        ({
            let one = factory.create_outcome(token, recipients, weights, salt);
            let other = factory.create_outcome(token, recipients, weights, other_salt);
            &&& other is Ok
            &&& one.unwrap().salt != other.unwrap().salt
            &&& one.unwrap().template == other.unwrap().template
            &&& one.unwrap().instance == other.unwrap().instance
        }),
{
}

/// Two creations with the same salt ask for the same deployment, whatever
/// they configure; and a deployment that the host refuses because the salt
/// was used before makes the creation fail with `IdentifierCollision`.
pub proof fn lemma_same_salt_collides<A, I>(
    factory: FactoryModel,
    token: A,
    recipients: Seq<A>,
    weights: Seq<u32>,
    other_token: A,
    other_recipients: Seq<A>,
    other_weights: Seq<u32>,
    salt: Seq<u8>,
)
    requires
        factory.create_outcome(token, recipients, weights, salt) is Ok,
        factory.create_outcome(other_token, other_recipients, other_weights, salt) is Ok,
    ensures
        ({
            let one = factory.create_outcome(token, recipients, weights, salt).unwrap();
            let other = factory.create_outcome(
                other_token,
                other_recipients,
                other_weights,
                salt,
            ).unwrap();
            &&& one.salt == other.salt
            &&& one.template == other.template
        }),
        factory.create_outcome(other_token, other_recipients, other_weights, salt).unwrap()
            .completion::<I>(DeployOutcome::SaltAlreadyUsed) == Err::<
            CreatedModel<A, I>,
            FactoryError,
        >(FactoryError::IdentifierCollision),
{
}

/// A salt supplied by the caller is used as it is, so callers that supply
/// different salts get different salts.
pub proof fn lemma_explicit_salts_are_kept(salt: [u8; 32], other_salt: [u8; 32])
    ensures
        SaltSource::Explicit(salt).salt() == salt@,
        salt@ != other_salt@ ==> SaltSource::Explicit(salt).salt() != SaltSource::Explicit(
            other_salt,
        ).salt(),
{
}

/// A salt derived from the ledger is a function of sequence number and
/// timestamp alone: creations in one ledger context get one salt. Contexts
/// that differ are hashed from different bytes.
pub proof fn lemma_ledger_salt_follows_context(
    sequence: u32,
    timestamp: u64,
    other_sequence: u32,
    other_timestamp: u64,
)
    ensures
        (sequence == other_sequence && timestamp == other_timestamp) ==> (SaltSource::Ledger {
            sequence,
            timestamp,
        }).salt() == (SaltSource::Ledger {
            sequence: other_sequence,
            timestamp: other_timestamp,
        }).salt(),
        (sequence != other_sequence || timestamp != other_timestamp) ==> salt_preimage(
            sequence,
            timestamp,
        ) != salt_preimage(other_sequence, other_timestamp),
{
    if salt_preimage(sequence, timestamp) == salt_preimage(other_sequence, other_timestamp) {
        lemma_preimage_injective(sequence, timestamp, other_sequence, other_timestamp);
    }
}

} // verus!
