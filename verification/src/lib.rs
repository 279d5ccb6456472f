//! Token-bound accounts: programmable accounts whose controlling authority is
//! whoever currently owns a referenced non-fungible asset.
//!
//! The crate holds the state machines of the account and of the registry that
//! deploys accounts, the derivation of the salt under which an account is
//! deployed, and a small asset ledger. Every function carries a contract that
//! Verus proves; the few calls into the Soroban host are gathered in
//! [`platform`], whose contracts are believed rather than proved.

pub mod account;
pub mod address;
pub mod auth;
pub mod deriver;
pub mod error;
pub mod platform;
pub mod registry;
pub mod ticket_factory;
pub mod ticket_nft;
