//! A fixed-tier staking ledger.
//!
//! A staker locks a deposit into one of a small set of reward tiers
//! ("packages") and may, once the tier's holding period has run out, withdraw
//! a fixed reward. This crate holds the rules of that ledger and their proofs:
//!
//! - [`catalog`]: the tiers, each with its terms and the number of slots taken;
//! - [`ledger`]: the stake records, in the order in which the stakes were made;
//! - [`engine`]: the state made of both, and the two operations, staking and
//!   withdrawing;
//! - [`transfer`]: the instructions that the operations give to the transfer
//!   service;
//! - [`theorems`]: what follows when operations are taken one after another.
//!
//! The ledger moves no value itself. An operation is taken in two steps:
//! [`stake`] and [`withdraw`] decide a request and name the transfer that
//! goes with it; [`settle_stake`] and [`settle_withdraw`] are told what
//! became of that transfer, and change the state if and only if it went
//! through. Time is an input: the caller says what time it is.
//!
//! Contracts are written over views: a state is seen as a pair of sequences
//! ([`engine::StorageView`]), and the operations as functions on such pairs
//! ([`engine::stake_decision`], [`engine::after_stake`],
//! [`engine::withdraw_decision`], [`engine::after_withdraw`]).

pub mod account;
pub mod catalog;
pub mod engine;
pub mod error;
pub mod ledger;
pub mod theorems;
pub mod transfer;

pub use account::AccountKey;
pub use catalog::{Package, PackageCatalog};
pub use engine::{initialize, settle_stake, settle_withdraw, stake, withdraw, StakingStorage};
pub use error::{ErrorCode, StakingError};
pub use ledger::{StakeLedger, StakeLog};
pub use transfer::{charge_escrow, Party, Transfer};
