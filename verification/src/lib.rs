//! A multisignature wallet: sensitive actions are proposed, voted on by a
//! bounded set of approvers, and carried out once, and only when approved for
//! exactly what was proposed.
//!
//! `utils` holds the registry of slots and the flags over it, `model` the
//! records (the policy, an operation and its votes, a staged call) with the
//! bytes that store them, `handlers` the steps of each kind of action, and
//! `processor` the entry that hands an instruction to its handler.

pub mod account;
pub mod error;
pub mod handlers;
pub mod hash;
pub mod instruction;
pub mod instruction_pack;
pub mod model;
pub mod pack;
pub mod parse;
pub mod processor;
pub mod pubkey;
pub mod utils;
pub mod version;
