//! The per-block pipeline step and the batch driver: classify, persist,
//! and run the periodic maintenance sweep.

use vstd::prelude::*;
use crate::classify::classify_block;
use crate::classify::hex_texts;
use crate::classify::ids_of;
use crate::classify::private_ids;
use crate::classify::public_ids;
use crate::classify::seen_after;
use crate::codec::texts_of;
use crate::record::BlockPrivy;
use crate::seen::SeenSet;
use crate::store::row_of_record;
use crate::store::stored_rows;
use crate::store::upsert_record;
use crate::txid::TxId;

verus! {

/// The default maintenance cadence: after every block whose number is a
/// multiple of this, remaining sightings are swept and the caller is told
/// to release the chain's queued transactions.
pub const DEFAULT_EVICT_INTERVAL: u64 = 10;

/// One finalized block as the chain adapter hands it over: its height and
/// its transactions in block order.
pub struct FinalizedBlock {
    pub number: u64,
    pub txs: Vec<TxId>,
}

/// What one pipeline step did: the record it produced, whether the store
/// took it, and what the maintenance sweep removed.
pub struct ProcessOutcome {
    /// The classification record produced for the block.
    pub record: BlockPrivy,
    /// Whether the record reached the store; a failed write is skipped,
    /// never retried here.
    pub stored: bool,
    /// Whether the block's number fell on the maintenance interval, so
    /// the caller should also release the chain's queued transactions.
    pub maintenance_due: bool,
    /// How many pending sightings the sweep removed; zero off-interval.
    pub evicted: usize,
}

/// The sighted set once one block is processed: the block consumes its
/// sightings, and a block on the maintenance interval then sweeps the set.
pub open spec fn seen_after_block(block: FinalizedBlock, seen: Set<Seq<u8>>, interval: u64) -> Set<
    Seq<u8>,
>
    recommends
        interval > 0,
{
    if block.number % interval == 0 {
        Set::empty()
    } else {
        seen_after(ids_of(block.txs@), seen)
    }
}

/// The sighted set once a whole batch is processed, block by block in
/// batch order.
pub open spec fn seen_after_batch(
    blocks: Seq<FinalizedBlock>,
    seen: Set<Seq<u8>>,
    interval: u64,
) -> Set<Seq<u8>>
    recommends
        interval > 0,
    decreases blocks.len(),
{
    if blocks.len() == 0 {
        seen
    } else {
        seen_after_batch(
            blocks.drop_first(),
            seen_after_block(blocks.first(), seen, interval),
            interval,
        )
    }
}

/// Whether some block of the batch carries this number.
pub open spec fn has_block_number(blocks: Seq<FinalizedBlock>, n: u64) -> bool {
    exists|k: int| 0 <= k < blocks.len() && blocks[k].number == n
}

proof fn lemma_seen_after_batch_push(
    blocks: Seq<FinalizedBlock>,
    block: FinalizedBlock,
    seen: Set<Seq<u8>>,
    interval: u64,
)
    ensures
        seen_after_batch(blocks.push(block), seen, interval) == seen_after_block(
            block,
            seen_after_batch(blocks, seen, interval),
            interval,
        ),
    decreases blocks.len(),
{
    if blocks.len() == 0 {
        assert(blocks.push(block).drop_first() =~= Seq::<FinalizedBlock>::empty());
        assert(blocks.push(block).first() == block);
        assert(seen_after_batch(
            Seq::<FinalizedBlock>::empty(),
            seen_after_block(block, seen, interval),
            interval,
        ) == seen_after_block(block, seen, interval));
    } else {
        lemma_seen_after_batch_push(
            blocks.drop_first(),
            block,
            seen_after_block(blocks.first(), seen, interval),
            interval,
        );
        assert(blocks.push(block).drop_first() =~= blocks.drop_first().push(block));
        assert(blocks.push(block).first() == blocks.first());
    }
}

/// Processes one finalized block: classifies it against the sighted set,
/// writes its record -- superseding any record the number had -- and, on
/// every block whose number is a multiple of `evict_interval`, sweeps the
/// remaining sightings. A failed write leaves the store untouched and
/// does not stop the pipeline.
pub fn process_block(
    conn: &mut rusqlite::Connection,
    seen: &mut SeenSet,
    number: u64,
    body: &Vec<TxId>,
    evict_interval: u64,
) -> (r: ProcessOutcome)
    requires
        old(seen).wf(),
        evict_interval > 0,
    ensures
        final(seen).wf(),
        r.record.number == number,
        texts_of(r.record.public_txs@) == hex_texts(public_ids(ids_of(body@), old(seen)@)),
        texts_of(r.record.private_txs@) == hex_texts(private_ids(ids_of(body@), old(seen)@)),
        r.stored ==> stored_rows(*final(conn)) == stored_rows(*old(conn)).insert(
            number,
            row_of_record(r.record),
        ),
        !r.stored ==> stored_rows(*final(conn)) == stored_rows(*old(conn)),
        r.maintenance_due == (number % evict_interval == 0),
        final(seen)@ == seen_after_block(
            FinalizedBlock { number, txs: *body },
            old(seen)@,
            evict_interval,
        ),
        r.maintenance_due ==> r.evicted == seen_after(ids_of(body@), old(seen)@).len(),
        !r.maintenance_due ==> r.evicted == 0,
{
    let record = classify_block(number, body, seen);
    let stored = upsert_record(conn, &record).is_ok();
    let maintenance_due = number % evict_interval == 0;
    let mut evicted: usize = 0;
    if maintenance_due {
        evicted = seen.evict_all();
    }
    ProcessOutcome { record, stored, maintenance_due, evicted }
}

/// Processes a notification batch in block order: every block is
/// classified and written even when an earlier write in the batch failed.
/// Each block's record partitions it against the sighted set as the
/// preceding blocks of the batch left that set.
pub fn process_batch(
    conn: &mut rusqlite::Connection,
    seen: &mut SeenSet,
    blocks: &Vec<FinalizedBlock>,
    evict_interval: u64,
) -> (r: Vec<ProcessOutcome>)
    requires
        old(seen).wf(),
        evict_interval > 0,
    ensures
        final(seen).wf(),
        final(seen)@ == seen_after_batch(blocks@, old(seen)@, evict_interval),
        r@.len() == blocks@.len(),
        forall|k: int|
            0 <= k < blocks@.len() ==> {
                let before = seen_after_batch(blocks@.take(k), old(seen)@, evict_interval);
                &&& (#[trigger] r@[k]).record.number == blocks@[k].number
                &&& texts_of(r@[k].record.public_txs@) == hex_texts(
                    public_ids(ids_of(blocks@[k].txs@), before),
                )
                &&& texts_of(r@[k].record.private_txs@) == hex_texts(
                    private_ids(ids_of(blocks@[k].txs@), before),
                )
                &&& r@[k].maintenance_due == (blocks@[k].number % evict_interval == 0)
            },
        forall|n: u64|
            !has_block_number(blocks@, n) ==> #[trigger] stored_rows(*final(conn)).contains_key(n)
                == stored_rows(*old(conn)).contains_key(n) && (stored_rows(
                *final(conn),
            ).contains_key(n) ==> stored_rows(*final(conn))[n] == stored_rows(*old(conn))[n]),
{
    let ghost seen0 = old(seen)@;
    let mut outcomes: Vec<ProcessOutcome> = Vec::new();
    proof {
        assert(blocks@.take(0) =~= Seq::<FinalizedBlock>::empty());
    }
    let mut i: usize = 0;
    while i < blocks.len()
        invariant
            i <= blocks.len(),
            seen.wf(),
            evict_interval > 0,
            seen@ == seen_after_batch(blocks@.take(i as int), seen0, evict_interval),
            outcomes@.len() == i,
            forall|k: int|
                0 <= k < i ==> {
                    let before = seen_after_batch(blocks@.take(k), seen0, evict_interval);
                    &&& (#[trigger] outcomes@[k]).record.number == blocks@[k].number
                    &&& texts_of(outcomes@[k].record.public_txs@) == hex_texts(
                        public_ids(ids_of(blocks@[k].txs@), before),
                    )
                    &&& texts_of(outcomes@[k].record.private_txs@) == hex_texts(
                        private_ids(ids_of(blocks@[k].txs@), before),
                    )
                    &&& outcomes@[k].maintenance_due == (blocks@[k].number % evict_interval == 0)
                },
            forall|n: u64|
                !has_block_number(blocks@, n) ==> #[trigger] stored_rows(*conn).contains_key(n)
                    == stored_rows(*old(conn)).contains_key(n) && (stored_rows(
                    *conn,
                ).contains_key(n) ==> stored_rows(*conn)[n] == stored_rows(*old(conn))[n]),
        decreases blocks.len() - i,
    {
        let block = &blocks[i];
        let ghost rows_before = stored_rows(*conn);
        let outcome = process_block(conn, seen, block.number, &block.txs, evict_interval);
        outcomes.push(outcome);
        proof {
            assert forall|n: u64| !has_block_number(blocks@, n) implies #[trigger] stored_rows(
                *conn,
            ).contains_key(n) == stored_rows(*old(conn)).contains_key(n) && (stored_rows(
                *conn,
            ).contains_key(n) ==> stored_rows(*conn)[n] == stored_rows(*old(conn))[n]) by {
                assert(blocks@[i as int].number != n);
                assert(stored_rows(*conn).contains_key(n) == rows_before.contains_key(n));
            }
            assert(blocks@.take(i as int).push(blocks@[i as int]) =~= blocks@.take(i + 1));
            lemma_seen_after_batch_push(
                blocks@.take(i as int),
                blocks@[i as int],
                seen0,
                evict_interval,
            );
            assert(FinalizedBlock { number: block.number, txs: block.txs } == blocks@[i as int]);
        }
        i = i + 1;
    }
    proof {
        assert(blocks@.take(blocks@.len() as int) =~= blocks@);
    }
    outcomes
}

} // verus!
