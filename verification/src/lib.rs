//! Checkpointed on-chain event indexing: block-range planning, log decoding,
//! and a derived balance ledger with arbitrary-precision amounts.

pub mod bytes;
pub mod config;
pub mod events;
pub mod indexer;
pub mod laws;
pub mod ledger;
pub mod num;
