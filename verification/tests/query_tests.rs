//! The pipeline driver and the query service, end to end against an
//! in-memory store.

use block_privy::pipeline::{process_batch, process_block, FinalizedBlock};
use block_privy::query::{get_block_privy, BlockSelector, QueryError};
use block_privy::seen::SeenSet;
use block_privy::store::open_memory_store;
use block_privy::txid::TxId;

#[test]
fn test_classify_store_and_query() {
    // Block 5 holds one never-sighted transaction: the record is all
    // private; it answers an explicit query, a `Latest` query at height 5,
    // and block 6 is not indexed.
    let mut conn = open_memory_store().unwrap();
    let mut seen = SeenSet::new();
    let body = vec![TxId::new(vec![0xc3])];
    let outcome = process_block(&mut conn, &mut seen, 5, &body, 10);
    assert!(outcome.stored);
    assert!(!outcome.maintenance_due);
    assert_eq!(outcome.record.number, 5);
    assert!(outcome.record.public_txs.is_empty());
    assert_eq!(outcome.record.private_txs, vec!["0xc3".to_string()]);

    let by_number = get_block_privy(&conn, BlockSelector::Number(5), None).unwrap();
    assert_eq!(by_number.number, 5);
    assert!(by_number.public_txs.is_empty());
    assert_eq!(by_number.private_txs, vec!["0xc3".to_string()]);

    let latest = get_block_privy(&conn, BlockSelector::Latest, Some(5)).unwrap();
    assert_eq!(latest.number, 5);
    assert_eq!(latest.private_txs, by_number.private_txs);

    assert_eq!(
        get_block_privy(&conn, BlockSelector::Number(6), None).unwrap_err(),
        QueryError::NotIndexed
    );
}

#[test]
fn test_latest_needs_height() {
    let conn = open_memory_store().unwrap();
    assert_eq!(
        get_block_privy(&conn, BlockSelector::Latest, None).unwrap_err(),
        QueryError::UpstreamUnavailable
    );
}

#[test]
fn test_unindexed_height_race() {
    // `Latest` can race the classifier: the adapter reports a height no
    // record exists for yet; that is a distinguishable error, not a stale
    // record.
    let mut conn = open_memory_store().unwrap();
    let mut seen = SeenSet::new();
    let body = vec![TxId::new(vec![0x11])];
    process_block(&mut conn, &mut seen, 4, &body, 10);
    assert_eq!(
        get_block_privy(&conn, BlockSelector::Latest, Some(5)).unwrap_err(),
        QueryError::NotIndexed
    );
}

#[test]
fn test_read_failure_surfaces() {
    let conn = open_memory_store().unwrap();
    conn.execute("DROP TABLE tx_privy", ()).unwrap();
    assert_eq!(
        get_block_privy(&conn, BlockSelector::Number(1), None).unwrap_err(),
        QueryError::StoreReadFailed
    );
}

#[test]
fn test_eviction_sweeps_sightings() {
    // A sighting that survives until the maintenance block is swept: the
    // transaction counts as private when it finally lands.
    let mut conn = open_memory_store().unwrap();
    let mut seen = SeenSet::new();
    seen.record_seen(TxId::new(vec![0xaa]));
    seen.record_seen(TxId::new(vec![0xbb]));

    let outcome = process_block(&mut conn, &mut seen, 10, &vec![], 10);
    assert!(outcome.maintenance_due);
    assert_eq!(outcome.evicted, 2);

    let body = vec![TxId::new(vec![0xaa])];
    let after = process_block(&mut conn, &mut seen, 11, &body, 10);
    assert!(after.record.public_txs.is_empty());
    assert_eq!(after.record.private_txs, vec!["0xaa".to_string()]);
}

#[test]
fn test_sighting_survives_off_interval_blocks() {
    // Off the maintenance interval nothing is swept: a sighting made
    // before block 11 still classifies its transaction public there.
    let mut conn = open_memory_store().unwrap();
    let mut seen = SeenSet::new();
    seen.record_seen(TxId::new(vec![0xaa]));
    process_block(&mut conn, &mut seen, 11, &vec![], 10);
    let body = vec![TxId::new(vec![0xaa])];
    let rec = process_block(&mut conn, &mut seen, 12, &body, 10).record;
    assert_eq!(rec.public_txs, vec!["0xaa".to_string()]);
}

#[test]
fn test_batch_consumes_sightings_in_order() {
    // Within one batch the first block consumes the sighting; a repeat of
    // the same transaction in the next block is private.
    let mut conn = open_memory_store().unwrap();
    let mut seen = SeenSet::new();
    seen.record_seen(TxId::new(vec![0x77]));
    let blocks = vec![
        FinalizedBlock { number: 1, txs: vec![TxId::new(vec![0x77])] },
        FinalizedBlock { number: 2, txs: vec![TxId::new(vec![0x77])] },
    ];
    let outcomes = process_batch(&mut conn, &mut seen, &blocks, 10);
    assert_eq!(outcomes.len(), 2);
    assert_eq!(outcomes[0].record.public_txs, vec!["0x77".to_string()]);
    assert!(outcomes[0].record.private_txs.is_empty());
    assert!(outcomes[1].record.public_txs.is_empty());
    assert_eq!(outcomes[1].record.private_txs, vec!["0x77".to_string()]);

    let first = get_block_privy(&conn, BlockSelector::Number(1), None).unwrap();
    assert_eq!(first.public_txs, vec!["0x77".to_string()]);
    let second = get_block_privy(&conn, BlockSelector::Number(2), None).unwrap();
    assert_eq!(second.private_txs, vec!["0x77".to_string()]);
}

#[test]
fn test_reorg_reclassifies_block() {
    // The same number delivered again with different contents: the stored
    // record reflects only the second classification.
    let mut conn = open_memory_store().unwrap();
    let mut seen = SeenSet::new();
    let old_body = vec![TxId::new(vec![0x01]), TxId::new(vec![0x02])];
    process_block(&mut conn, &mut seen, 3, &old_body, 10);
    let new_body = vec![TxId::new(vec![0x03])];
    process_block(&mut conn, &mut seen, 3, &new_body, 10);
    let rec = get_block_privy(&conn, BlockSelector::Number(3), None).unwrap();
    assert!(rec.public_txs.is_empty());
    assert_eq!(rec.private_txs, vec!["0x03".to_string()]);
}
