//! Classification of block transactions as publicly observed or privately
//! included, keyed by the block in which they landed.
//!
//! A transaction seen propagating before its block is recorded is "public";
//! one that first appears inside a block is "private". The crate tracks
//! sightings, partitions each finalized block's transactions, persists one
//! record per block number, and serves lookups by number or by the latest
//! known height.

pub mod classify;
pub mod codec;
pub mod pipeline;
pub mod query;
pub mod record;
pub mod seen;
pub mod store;
pub mod txid;
