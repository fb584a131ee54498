//! Persistent data layer of a marketplace: tokens addressed by a
//! (store, token-number) pair, each carrying an owner, an optional royalty
//! split and an append-only offer history.

pub mod ids;
pub mod market;
pub mod royalty;
pub mod token;
