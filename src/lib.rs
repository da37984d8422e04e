//! State core of an auction ledger: listed items, their bids, ownership
//! transfer at close, and the snapshot that carries the whole aggregate
//! across a restart.

pub mod identity;
pub mod entity;
pub mod error;
pub mod store;
pub mod snapshot;
pub mod laws;
