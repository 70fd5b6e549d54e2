//! Pro-rata splitting of a pooled balance among fixed recipients, and the
//! factory that creates splitter instances.
//!
//! A splitter instance holds one immutable configuration: an asset, a list
//! of recipients and one integer weight for each. A distribution gives
//! recipient `i` the amount `floor(balance * weight_i / total_weight)`; what
//! floor division leaves over stays with the instance. The factory creates
//! instances from a template, each under a salt of its own.
//!
//! The library holds the state and decides what is done; it performs no
//! ledger operation itself. A host keeps the state in its store, reads
//! balances, makes the payments that a distribution names, deploys
//! templates and publishes creation records.
//!
//! - [`shares`]: the arithmetic of shares, and what holds of their sum.
//! - [`config`]: a validated configuration and the distribution it
//!   prescribes.
//! - [`splitter`]: the state of one instance: initialized once, locked
//!   while a distribution is in flight.
//! - [`salt`]: where salts come from.
//! - [`factory`]: the creation of instances.
//! - [`error`]: why a splitter refuses a call.

pub mod config;
pub mod error;
pub mod factory;
pub mod salt;
pub mod shares;
pub mod splitter;

pub use crate::config::{Distribution, DistributionConfig, Transfer};
pub use crate::error::SplitterError;
pub use crate::factory::{
    Created, CreationRecord, DeployOutcome, FactoryError, PendingCreation, SimpleSplitterFactory,
    FACTORY_LIFETIME_LEDGERS,
};
pub use crate::salt::SaltSource;
pub use crate::splitter::{SimpleSplitter, ONE_YEAR_LEDGERS};
