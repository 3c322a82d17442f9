//! Classification and membership-tracker behaviour on concrete values.

use block_privy::classify::classify_block;
use block_privy::seen::SeenSet;
use block_privy::txid::TxId;

#[test]
fn test_sighted_then_classified() {
    // Sighting 0xa1, then classifying block 5 holding [0xa1, 0xb2]:
    // 0xa1 is public, 0xb2 private, both in block order.
    let mut seen = SeenSet::new();
    seen.record_seen(TxId::new(vec![0xa1]));
    let body = vec![TxId::new(vec![0xa1]), TxId::new(vec![0xb2])];
    let rec = classify_block(5, &body, &mut seen);
    assert_eq!(rec.number, 5);
    assert_eq!(rec.public_txs, vec!["0xa1".to_string()]);
    assert_eq!(rec.private_txs, vec!["0xb2".to_string()]);
}

#[test]
fn test_never_sighted_is_private() {
    let mut seen = SeenSet::new();
    let body = vec![TxId::new(vec![0xc3])];
    let rec = classify_block(5, &body, &mut seen);
    assert_eq!(rec.number, 5);
    assert!(rec.public_txs.is_empty());
    assert_eq!(rec.private_txs, vec!["0xc3".to_string()]);
}

#[test]
fn test_partition_is_total_and_disjoint() {
    // Every transaction of the block lands in exactly one list; a repeat
    // of a sighted transaction finds its sighting already consumed.
    let mut seen = SeenSet::new();
    seen.record_seen(TxId::new(vec![0x0a]));
    let body = vec![
        TxId::new(vec![0x0a]),
        TxId::new(vec![0x0b]),
        TxId::new(vec![0x0a]),
    ];
    let rec = classify_block(7, &body, &mut seen);
    assert_eq!(rec.public_txs, vec!["0x0a".to_string()]);
    assert_eq!(rec.private_txs, vec!["0x0b".to_string(), "0x0a".to_string()]);
    assert_eq!(rec.public_txs.len() + rec.private_txs.len(), body.len());
}

#[test]
fn test_take_if_present_consumes_once() {
    // Two takes without a fresh sighting: true once, then false.
    let mut seen = SeenSet::new();
    seen.record_seen(TxId::new(vec![0x01, 0x02]));
    let id = TxId::new(vec![0x01, 0x02]);
    assert!(seen.take_if_present(&id));
    assert!(!seen.take_if_present(&id));
}

#[test]
fn test_record_seen_is_idempotent() {
    let mut seen = SeenSet::new();
    seen.record_seen(TxId::new(vec![0x42]));
    seen.record_seen(TxId::new(vec![0x42]));
    let id = TxId::new(vec![0x42]);
    assert!(seen.take_if_present(&id));
    assert!(!seen.take_if_present(&id));
}

#[test]
fn test_evict_all_reports_count() {
    let mut seen = SeenSet::new();
    seen.record_seen(TxId::new(vec![0x01]));
    seen.record_seen(TxId::new(vec![0x02]));
    seen.record_seen(TxId::new(vec![0x01]));
    assert_eq!(seen.evict_all(), 2);
    assert!(!seen.take_if_present(&TxId::new(vec![0x01])));
    assert_eq!(seen.evict_all(), 0);
}

#[test]
fn test_hex_rendering() {
    assert_eq!(TxId::new(vec![]).to_hex(), "0x");
    assert_eq!(TxId::new(vec![0x00, 0xff, 0x1a]).to_hex(), "0x00ff1a");
    assert_eq!(TxId::new(vec![0xde, 0xad, 0xbe, 0xef]).to_hex(), "0xdeadbeef");
}
