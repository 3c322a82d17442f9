//! The classification store: one durable row per block number in the
//! `tx_privy` table of a SQLite database, written through `rusqlite`.

use vstd::prelude::*;
use crate::classify::hex_texts;
use crate::classify::lemma_hex_texts_splittable;
use crate::codec::comma_free;
use crate::codec::join_texts;
use crate::codec::lemma_join_split_roundtrip;
use crate::codec::join_with_commas;
use crate::codec::split_commas;
use crate::codec::split_commas_spec;
use crate::codec::texts_of;
use crate::record::BlockPrivy;

verus! {

/// A failed store operation. Writes that fail are logged and skipped by
/// the classification pipeline; reads that fail surface to the caller.
#[derive(Debug, Clone, Copy, PartialEq, Eq, Structural)]
pub enum StoreError {
    /// The row could not be written; the store keeps its previous contents.
    WriteFailed,
    /// The row could not be read.
    ReadFailed,
}

#[verifier::external_type_specification]
#[verifier::external_body]
pub struct ExConnection(rusqlite::Connection);

#[verifier::external_type_specification]
#[verifier::external_body]
pub struct ExRusqliteError(rusqlite::Error);

/// The rows of the `tx_privy` table behind a connection: block number to
/// the two stored text columns, the public list then the private one.
pub uninterp spec fn stored_rows(conn: rusqlite::Connection) -> Map<u64, (Seq<char>, Seq<char>)>;

/// Relies on `rusqlite::Connection::open_in_memory` and one `CREATE TABLE`
/// statement: a fresh in-memory database holds an empty `tx_privy` table.
#[verifier::external_body]
pub fn open_memory_store() -> (r: Result<rusqlite::Connection, rusqlite::Error>)
    ensures
        r is Ok ==> forall|n: u64| !stored_rows(r->Ok_0).contains_key(n),
{
    let conn = rusqlite::Connection::open_in_memory()?;
    conn.execute(
        "CREATE TABLE IF NOT EXISTS tx_privy (
            number INTEGER PRIMARY KEY,
            public_txs TEXT,
            private_txs TEXT
        )",
        (),
    )?;
    Ok(conn)
}

/// Relies on `rusqlite::Connection::execute` running a single
/// `INSERT OR REPLACE` statement: SQLite applies a statement atomically,
/// so on success the row for `number` holds exactly the two given texts
/// and any earlier row for it is gone, while on failure the table is
/// unchanged.
#[verifier::external_body]
fn db_upsert(
    conn: &mut rusqlite::Connection,
    number: u64,
    public_txs: &str,
    private_txs: &str,
) -> (r: Result<(), rusqlite::Error>)
    ensures
        r is Ok ==> stored_rows(*final(conn)) == stored_rows(*old(conn)).insert(
            number,
            (public_txs@, private_txs@),
        ),
        r is Err ==> stored_rows(*final(conn)) == stored_rows(*old(conn)),
{
    match conn.execute(
        "INSERT OR REPLACE INTO tx_privy (number, public_txs, private_txs) VALUES (?1, ?2, ?3)",
        (number, public_txs, private_txs),
    ) {
        Ok(_) => Ok(()),
        Err(e) => Err(e),
    }
}

/// Relies on `rusqlite`'s `prepare`, `Statement::query`, `Rows::next` and
/// `Row::get`: yields the two text columns of the row keyed by `number`,
/// or `None` when the table has no such row.
#[verifier::external_body]
fn db_get(conn: &rusqlite::Connection, number: u64) -> (r: Result<
    Option<(String, String)>,
    rusqlite::Error,
>)
    ensures
        r matches Ok(Some(row)) ==> stored_rows(*conn).contains_key(number) && stored_rows(
            *conn,
        )[number] == (row.0@, row.1@),
        r matches Ok(None) ==> !stored_rows(*conn).contains_key(number),
{
    let mut stmt = conn.prepare("SELECT number, public_txs, private_txs FROM tx_privy WHERE number = ?")?;
    let mut rows = stmt.query((number,))?;
    match rows.next()? {
        Some(row) => Ok(Some((row.get(1)?, row.get(2)?))),
        None => Ok(None),
    }
}

/// The two text columns a record is stored as: each list joined with
/// commas.
pub open spec fn row_of_record(record: BlockPrivy) -> (Seq<char>, Seq<char>) {
    (join_with_commas(texts_of(record.public_txs@)), join_with_commas(texts_of(record.private_txs@)))
}

/// Writes a record's row, superseding any stored row with the same block
/// number; on failure the store is untouched and the error is reported.
pub fn upsert_record(conn: &mut rusqlite::Connection, record: &BlockPrivy) -> (r: Result<
    (),
    StoreError,
>)
    ensures
        r is Ok ==> stored_rows(*final(conn)) == stored_rows(*old(conn)).insert(
            record.number,
            row_of_record(*record),
        ),
        r is Err ==> stored_rows(*final(conn)) == stored_rows(*old(conn)) && r == Result::<
            (),
            StoreError,
        >::Err(StoreError::WriteFailed),
{
    let public_text = join_texts(&record.public_txs);
    let private_text = join_texts(&record.private_txs);
    match db_upsert(conn, record.number, public_text.as_str(), private_text.as_str()) {
        Ok(()) => Ok(()),
        Err(_) => Err(StoreError::WriteFailed),
    }
}

/// Rebuilds a record from its stored row: the empty column text becomes an
/// empty list, never a list with one empty piece.
pub fn record_from_row(number: u64, public_text: &str, private_text: &str) -> (r: BlockPrivy)
    ensures
        r.number == number,
        texts_of(r.public_txs@) == split_commas_spec(public_text@),
        texts_of(r.private_txs@) == split_commas_spec(private_text@),
{
    BlockPrivy {
        number,
        public_txs: split_commas(public_text),
        private_txs: split_commas(private_text),
    }
}

/// Reads the record stored for a block number: the record as its row
/// splits back, `None` when no row is stored, or the read failure.
pub fn load_record(conn: &rusqlite::Connection, number: u64) -> (r: Result<
    Option<BlockPrivy>,
    StoreError,
>)
    ensures
        r matches Ok(Some(rec)) ==> stored_rows(*conn).contains_key(number) && rec.number == number
            && texts_of(rec.public_txs@) == split_commas_spec(stored_rows(*conn)[number].0)
            && texts_of(rec.private_txs@) == split_commas_spec(stored_rows(*conn)[number].1),
        r matches Ok(None) ==> !stored_rows(*conn).contains_key(number),
        r is Err ==> r == Result::<Option<BlockPrivy>, StoreError>::Err(StoreError::ReadFailed),
{
    match db_get(conn, number) {
        Ok(Some((public_text, private_text))) => Ok(
            Some(record_from_row(number, public_text.as_str(), private_text.as_str())),
        ),
        Ok(None) => Ok(None),
        Err(_) => Err(StoreError::ReadFailed),
    }
}

/// Law: storing is lossless for the rows the classifier writes. A record
/// whose lists hold nonempty comma-free pieces -- as every hex identifier
/// is -- reads back from its stored row exactly as it was written.
pub proof fn lemma_record_row_roundtrip(record: BlockPrivy)
    requires
        forall|i: int|
            0 <= i < record.public_txs@.len() ==> (#[trigger] texts_of(record.public_txs@)[i]).len()
                > 0 && comma_free(texts_of(record.public_txs@)[i]),
        forall|i: int|
            0 <= i < record.private_txs@.len() ==> (#[trigger] texts_of(
                record.private_txs@,
            )[i]).len() > 0 && comma_free(texts_of(record.private_txs@)[i]),
    ensures
        split_commas_spec(row_of_record(record).0) == texts_of(record.public_txs@),
        split_commas_spec(row_of_record(record).1) == texts_of(record.private_txs@),
{
    lemma_join_split_roundtrip(texts_of(record.public_txs@));
    lemma_join_split_roundtrip(texts_of(record.private_txs@));
}

/// Law: a record the classifier produced survives the store unchanged.
/// Its lists are hex texts, hex texts are nonempty and comma-free, and so
/// the stored row splits back into exactly the lists that were written.
pub proof fn lemma_classified_record_readback(
    public: Seq<Seq<u8>>,
    private: Seq<Seq<u8>>,
    record: BlockPrivy,
)
    requires
        texts_of(record.public_txs@) == hex_texts(public),
        texts_of(record.private_txs@) == hex_texts(private),
    ensures
        split_commas_spec(row_of_record(record).0) == texts_of(record.public_txs@),
        split_commas_spec(row_of_record(record).1) == texts_of(record.private_txs@),
{
    lemma_hex_texts_splittable(public);
    lemma_hex_texts_splittable(private);
    lemma_record_row_roundtrip(record);
}

/// Law: writing a block's record twice leaves only the second write --
/// reclassification under a reorg fully supersedes the earlier record, it
/// never merges with it.
pub proof fn lemma_reclassification_supersedes(
    rows: Map<u64, (Seq<char>, Seq<char>)>,
    number: u64,
    first: (Seq<char>, Seq<char>),
    second: (Seq<char>, Seq<char>),
)
    ensures
        rows.insert(number, first).insert(number, second) == rows.insert(number, second),
{
    assert(rows.insert(number, first).insert(number, second) =~= rows.insert(number, second));
}

} // verus!
