//! The query service: resolving a block-number-or-latest request to a
//! stored record.

use vstd::prelude::*;
use crate::codec::split_commas_spec;
use crate::codec::texts_of;
use crate::record::BlockPrivy;
use crate::store::load_record;
use crate::store::stored_rows;

verus! {

/// What a caller may ask for: one block by its number, or the highest
/// block the chain currently knows.
#[derive(Debug, Clone, Copy, PartialEq, Eq, Structural)]
pub enum BlockSelector {
    Number(u64),
    Latest,
}

/// Why a query returned no record. None of these is retried here: the
/// caller decides.
#[derive(Debug, Clone, Copy, PartialEq, Eq, Structural)]
pub enum QueryError {
    /// No record is stored for the resolved block number -- also the
    /// answer when the chain's tip has not been classified yet.
    NotIndexed,
    /// The chain adapter reported no height, so `Latest` cannot resolve.
    UpstreamUnavailable,
    /// The store could not be read.
    StoreReadFailed,
}

/// The block number a selector stands for, given the chain height the
/// adapter reported, if it reported one.
pub open spec fn resolved_number(sel: BlockSelector, height: Option<u64>) -> Option<u64> {
    match sel {
        BlockSelector::Number(n) => Some(n),
        BlockSelector::Latest => height,
    }
}

/// Resolves a selector against the reported chain height: an explicit
/// number stands as it is; `Latest` takes the height and fails when none
/// was reported.
pub fn resolve_selector(sel: BlockSelector, height: Option<u64>) -> (r: Result<u64, QueryError>)
    ensures
        match resolved_number(sel, height) {
            Some(n) => r == Result::<u64, QueryError>::Ok(n),
            None => r == Result::<u64, QueryError>::Err(QueryError::UpstreamUnavailable),
        },
{
    match sel {
        BlockSelector::Number(n) => Ok(n),
        BlockSelector::Latest => match height {
            Some(n) => Ok(n),
            None => Err(QueryError::UpstreamUnavailable),
        },
    }
}

/// Serves one query. The record comes back exactly as its stored row
/// splits; `NotIndexed` is returned precisely when the resolved number has
/// no row -- a height the classifier has not caught up with included --
/// and `UpstreamUnavailable` precisely when `Latest` finds no height.
pub fn get_block_privy(conn: &rusqlite::Connection, sel: BlockSelector, height: Option<u64>) -> (r:
    Result<BlockPrivy, QueryError>)
    ensures
        match r {
            Ok(rec) => {
                &&& resolved_number(sel, height) == Some(rec.number)
                &&& stored_rows(*conn).contains_key(rec.number)
                &&& texts_of(rec.public_txs@) == split_commas_spec(
                    stored_rows(*conn)[rec.number].0,
                )
                &&& texts_of(rec.private_txs@) == split_commas_spec(
                    stored_rows(*conn)[rec.number].1,
                )
            },
            Err(QueryError::NotIndexed) => resolved_number(sel, height) matches Some(n)
                && !stored_rows(*conn).contains_key(n),
            Err(QueryError::UpstreamUnavailable) => sel == BlockSelector::Latest
                && height is None,
            Err(QueryError::StoreReadFailed) => resolved_number(sel, height) is Some,
        },
{
    let number = match resolve_selector(sel, height) {
        Ok(n) => n,
        Err(e) => {
            return Err(e);
        },
    };
    match load_record(conn, number) {
        Ok(Some(rec)) => Ok(rec),
        Ok(None) => Err(QueryError::NotIndexed),
        Err(_) => Err(QueryError::StoreReadFailed),
    }
}

} // verus!
