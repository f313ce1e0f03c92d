//! # Membership registers
//!
//! Allows control of membership of a set of accounts for each of many organisations, useful for
//! managing membership of a collective. A prime member may be set.
//!
//! - [`pallet`] holds the calls: each asks its surroundings whether the origin may make the
//!   change, has the register make it, and tells the receiver of changes.
//! - [`receiver`] keeps a record of all that the surroundings are asked, handed and told.
//! - [`membership`] is the register. It makes approved changes and says what is to be told.
//! - [`genesis`] starts a register with members.
//! - [`model`] says what each change is, on mathematical values, and that it keeps memberships
//!   valid; [`effects`] says what can be seen of each, and [`laws`] what holds over several.
//! - [`order`] treats ordered lists of accounts, [`bounded`] and [`origin`] what comes from
//!   outside, and [`types`] is the vocabulary of callers.

pub mod bounded;
pub mod effects;
pub mod genesis;
pub mod laws;
pub mod membership;
pub mod model;
pub mod order;
pub mod origin;
pub mod pallet;
pub mod receiver;
pub mod types;

pub use crate::genesis::{GenesisConfig, GenesisError};
pub use crate::membership::{Membership, Notice};
pub use crate::pallet::{CallError, CallResult, Config, DaoSortedMembers, Pallet};
pub use crate::receiver::Receiver;
pub use crate::types::{Change, DaoId, DaoPolicy, Error, Event};
