//! A restricted-transfer token ledger with a community deed registry.
//!
//! Accounts publish attestable good-deed records, peers endorse ("credit")
//! them at most once each, and each endorsement moves one reward unit from
//! a reserve account to the deed's author. A donation mechanism converts a
//! resource deposit into a proportional payout across all accounts that have
//! ever authored a deed, weighted by their current token balance.
//!
//! The core is host-agnostic: resource footprints, fee rates and attached
//! payments are plain values, and outward value transfers are returned as
//! actions for the embedding host to perform.

pub mod accounting;
pub mod contract;
pub mod deed;
pub mod error;
pub mod laws;
pub mod ledger;
pub mod math;
pub mod text;

pub use accounting::{calculate_and_check_deposit, refund_deposit, refund_deposit_to_account};
pub use contract::Contract;
pub use deed::{SerializableDeed, SocialDeed};
pub use error::Error;
