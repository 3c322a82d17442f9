//! The classification outcome for one finalized block.

use vstd::prelude::*;

verus! {

/// One block's privacy record: every transaction of the block stands in
/// exactly one of the two lists, as `0x`-prefixed hex text, in block order.
/// Keyed by `number`; reclassifying a block (a reorg) replaces the whole
/// record.
#[derive(Debug, Clone)]
pub struct BlockPrivy {
    /// The block height, the record's key.
    pub number: u64,
    /// Transactions observed pending before the block was classified.
    pub public_txs: Vec<String>,
    /// Transactions that had no sighting when the block was classified.
    pub private_txs: Vec<String>,
}

} // verus!
