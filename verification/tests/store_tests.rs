//! The persisted row layout: the codec, the store round trip, and the raw
//! SQL shape of the `tx_privy` table.

use block_privy::codec::{join_texts, split_commas};
use block_privy::record::BlockPrivy;
use block_privy::store::{load_record, open_memory_store, upsert_record, StoreError};

#[test]
fn test_sql() {
    let db = rusqlite::Connection::open_in_memory().unwrap();

    let _ = db
        .execute(
            "CREATE TABLE IF NOT EXISTS tx_privy (
                number INTEGER PRIMARY KEY,
                public_txs TEXT,
                private_txs TEXT
            )",
            (),
        )
        .unwrap();

    let _ = db
        .execute(
            "INSERT INTO tx_privy (number, public_txs, private_txs) VALUES (?1, ?2, ?3)",
            (1, "0x1,0x2,0x3", "0x5,0x6,0x7"),
        )
        .unwrap();

    let _ = db
        .execute("DELETE FROM tx_privy WHERE number = ?", (1,))
        .unwrap();

    let _ = db
        .execute(
            "INSERT INTO tx_privy (number, public_txs, private_txs) VALUES (?1, ?2, ?3)",
            (1, "0x1,0x2,0x3", "0x5,0x6,0x7"),
        )
        .unwrap();

    let mut stmt = db
        .prepare("SELECT number, public_txs, private_txs FROM tx_privy WHERE number = ?")
        .unwrap();

    let mut privy_iter = stmt
        .query_map((1,), |row| {
            let number: u64 = row.get(0)?;

            let public_txs: String = row.get(1)?;
            let public_txs: Vec<&str> = public_txs.split(",").collect();
            let public_txs = public_txs.into_iter().map(|x| x.to_string()).collect();

            let private_txs: String = row.get(2)?;
            let private_txs: Vec<&str> = private_txs.split(",").collect();
            let private_txs = private_txs.into_iter().map(|x| x.to_string()).collect();

            Ok(BlockPrivy {
                number,
                public_txs,
                private_txs,
            })
        })
        .unwrap();

    let result = privy_iter.next().unwrap().unwrap();

    println!("privy_iter {:?}", result);
}

#[test]
fn test_join_texts_values() {
    assert_eq!(join_texts(&vec![]), "");
    assert_eq!(join_texts(&vec!["0xa1".to_string()]), "0xa1");
    assert_eq!(
        join_texts(&vec!["0x1".to_string(), "0x2".to_string(), "0x3".to_string()]),
        "0x1,0x2,0x3"
    );
}

#[test]
fn test_split_commas_values() {
    assert_eq!(split_commas(""), Vec::<String>::new());
    assert_eq!(split_commas("0xa1"), vec!["0xa1".to_string()]);
    assert_eq!(
        split_commas("0x1,0x2,0x3"),
        vec!["0x1".to_string(), "0x2".to_string(), "0x3".to_string()]
    );
    assert_eq!(
        split_commas("a,,b"),
        vec!["a".to_string(), "".to_string(), "b".to_string()]
    );
}

#[test]
fn test_store_roundtrip() {
    let mut conn = open_memory_store().unwrap();
    let rec = BlockPrivy {
        number: 5,
        public_txs: vec!["0xa1".to_string()],
        private_txs: vec!["0xb2".to_string(), "0xc3".to_string()],
    };
    upsert_record(&mut conn, &rec).unwrap();
    let back = load_record(&conn, 5).unwrap().unwrap();
    assert_eq!(back.number, 5);
    assert_eq!(back.public_txs, rec.public_txs);
    assert_eq!(back.private_txs, rec.private_txs);
}

#[test]
fn test_empty_list_roundtrip() {
    // An empty public list must come back as zero elements, not as one
    // empty text.
    let mut conn = open_memory_store().unwrap();
    let rec = BlockPrivy {
        number: 9,
        public_txs: vec![],
        private_txs: vec!["0xc3".to_string()],
    };
    upsert_record(&mut conn, &rec).unwrap();
    let back = load_record(&conn, 9).unwrap().unwrap();
    assert_eq!(back.public_txs.len(), 0);
    assert_eq!(back.private_txs, vec!["0xc3".to_string()]);
}

#[test]
fn test_reclassification_overwrites() {
    // Writing block 5 twice keeps only the second record: a reorg's
    // reclassification supersedes, it never merges.
    let mut conn = open_memory_store().unwrap();
    let first = BlockPrivy {
        number: 5,
        public_txs: vec!["0xa1".to_string()],
        private_txs: vec!["0xb2".to_string()],
    };
    let second = BlockPrivy {
        number: 5,
        public_txs: vec![],
        private_txs: vec!["0xd4".to_string()],
    };
    upsert_record(&mut conn, &first).unwrap();
    upsert_record(&mut conn, &second).unwrap();
    let back = load_record(&conn, 5).unwrap().unwrap();
    assert_eq!(back.public_txs.len(), 0);
    assert_eq!(back.private_txs, vec!["0xd4".to_string()]);
}

#[test]
fn test_load_missing_block() {
    let conn = open_memory_store().unwrap();
    assert!(load_record(&conn, 99).unwrap().is_none());
}

#[test]
fn test_write_failure_reported() {
    let mut conn = open_memory_store().unwrap();
    conn.execute("DROP TABLE tx_privy", ()).unwrap();
    let rec = BlockPrivy {
        number: 1,
        public_txs: vec![],
        private_txs: vec![],
    };
    assert_eq!(upsert_record(&mut conn, &rec), Err(StoreError::WriteFailed));
}

#[test]
fn test_read_failure_reported() {
    let conn = open_memory_store().unwrap();
    conn.execute("DROP TABLE tx_privy", ()).unwrap();
    assert_eq!(load_record(&conn, 1).unwrap_err(), StoreError::ReadFailed);
}
