//! The block classifier: partitioning a block's transactions against the
//! sighted set, in block order, consuming each sighting it uses.

use vstd::prelude::*;
use crate::codec::texts_of;
use crate::record::BlockPrivy;
use crate::seen::SeenSet;
use crate::txid::TxId;
use crate::txid::hex_of;
use vstd::seq_lib::lemma_multiset_commutative;

verus! {

broadcast use vstd::seq_lib::group_seq_properties;

/// The identifier views of a block body.
pub open spec fn ids_of(body: Seq<TxId>) -> Seq<Seq<u8>> {
    body.map_values(|t: TxId| t@)
}

/// The hex forms of a list of identifiers.
pub open spec fn hex_texts(ids: Seq<Seq<u8>>) -> Seq<Seq<char>> {
    ids.map_values(|b: Seq<u8>| hex_of(b))
}

/// The identifiers of `body` classified public: those with a sighting when
/// their turn comes, each consuming that sighting, in block order.
pub open spec fn public_ids(body: Seq<Seq<u8>>, seen: Set<Seq<u8>>) -> Seq<Seq<u8>>
    decreases body.len(),
{
    if body.len() == 0 {
        Seq::empty()
    } else if seen.contains(body.first()) {
        seq![body.first()] + public_ids(body.drop_first(), seen.remove(body.first()))
    } else {
        public_ids(body.drop_first(), seen)
    }
}

/// The identifiers of `body` classified private: those without a sighting
/// when their turn comes, in block order.
pub open spec fn private_ids(body: Seq<Seq<u8>>, seen: Set<Seq<u8>>) -> Seq<Seq<u8>>
    decreases body.len(),
{
    if body.len() == 0 {
        Seq::empty()
    } else if seen.contains(body.first()) {
        private_ids(body.drop_first(), seen.remove(body.first()))
    } else {
        seq![body.first()] + private_ids(body.drop_first(), seen)
    }
}

/// The sighted set left once a block is classified: every sighting the
/// block consumed is gone.
pub open spec fn seen_after(body: Seq<Seq<u8>>, seen: Set<Seq<u8>>) -> Set<Seq<u8>>
    decreases body.len(),
{
    if body.len() == 0 {
        seen
    } else if seen.contains(body.first()) {
        seen_after(body.drop_first(), seen.remove(body.first()))
    } else {
        seen_after(body.drop_first(), seen)
    }
}

/// Law: classification is a total, disjoint partition. For any block and
/// any sighted set, the public and private lists together carry exactly
/// the block's transactions, each occurrence exactly once.
pub proof fn lemma_classification_partitions(body: Seq<Seq<u8>>, seen: Set<Seq<u8>>)
    ensures
        (public_ids(body, seen) + private_ids(body, seen)).to_multiset() == body.to_multiset(),
    decreases body.len(),
{
    let p = public_ids(body, seen);
    let q = private_ids(body, seen);
    lemma_multiset_commutative(p, q);
    if body.len() == 0 {
        assert(p + q =~= Seq::<Seq<u8>>::empty());
        assert((p + q).to_multiset() =~= body.to_multiset());
    } else {
        let first = body.first();
        let rest = body.drop_first();
        assert(body =~= seq![first] + rest);
        lemma_multiset_commutative(seq![first], rest);
        if seen.contains(first) {
            lemma_classification_partitions(rest, seen.remove(first));
            lemma_multiset_commutative(
                public_ids(rest, seen.remove(first)),
                private_ids(rest, seen.remove(first)),
            );
            lemma_multiset_commutative(seq![first], public_ids(rest, seen.remove(first)));
            assert((p + q).to_multiset() =~= body.to_multiset());
        } else {
            lemma_classification_partitions(rest, seen);
            lemma_multiset_commutative(public_ids(rest, seen), private_ids(rest, seen));
            lemma_multiset_commutative(seq![first], private_ids(rest, seen));
            assert((p + q).to_multiset() =~= body.to_multiset());
        }
    }
}

/// No identifier appears in a classification list without appearing in the
/// block itself.
proof fn lemma_classified_come_from_block(body: Seq<Seq<u8>>, seen: Set<Seq<u8>>, id: Seq<u8>)
    requires
        !body.contains(id),
    ensures
        !public_ids(body, seen).contains(id),
        !private_ids(body, seen).contains(id),
    decreases body.len(),
{
    if body.len() > 0 {
        let first = body.first();
        let rest = body.drop_first();
        assert(body[0] == first);
        assert(first != id);
        assert forall|j: int| 0 <= j < rest.len() implies rest[j] != id by {
            assert(body[j + 1] == rest[j]);
        }
        if seen.contains(first) {
            lemma_classified_come_from_block(rest, seen.remove(first), id);
        } else {
            lemma_classified_come_from_block(rest, seen, id);
        }
    }
}

/// An identifier with no sighting never reaches the public list, whatever
/// else the block holds.
proof fn lemma_never_sighted_never_public(body: Seq<Seq<u8>>, seen: Set<Seq<u8>>, id: Seq<u8>)
    requires
        !seen.contains(id),
    ensures
        !public_ids(body, seen).contains(id),
    decreases body.len(),
{
    if body.len() > 0 {
        let first = body.first();
        let rest = body.drop_first();
        if seen.contains(first) {
            lemma_never_sighted_never_public(rest, seen.remove(first), id);
            let p = public_ids(body, seen);
            if p.contains(id) {
                let j = choose|j: int| 0 <= j < p.len() && p[j] == id;
                assert(j != 0);
                assert(public_ids(rest, seen.remove(first))[j - 1] == id);
            }
        } else {
            lemma_never_sighted_never_public(rest, seen, id);
        }
    }
}

/// Law: a transaction sighted strictly before its block is classified is
/// placed in the public list and not in the private one. Stated for a
/// block that lists each transaction once, as chains deliver them.
pub proof fn lemma_sighted_is_public(body: Seq<Seq<u8>>, seen: Set<Seq<u8>>, id: Seq<u8>)
    requires
        body.no_duplicates(),
        body.contains(id),
        seen.contains(id),
    ensures
        public_ids(body, seen).contains(id),
        !private_ids(body, seen).contains(id),
    decreases body.len(),
{
    let first = body.first();
    let rest = body.drop_first();
    assert(body[0] == first);
    if first == id {
        assert(public_ids(body, seen)[0] == id);
        assert forall|j: int| 0 <= j < rest.len() implies rest[j] != id by {
            assert(body[j + 1] == rest[j]);
        }
        lemma_classified_come_from_block(rest, seen.remove(first), id);
    } else {
        let j = choose|j: int| 0 <= j < body.len() && body[j] == id;
        assert(j != 0);
        assert(rest[j - 1] == id);
        assert(rest.contains(id));
        assert(rest.no_duplicates()) by {
            assert forall|a: int, b: int|
                0 <= a < rest.len() && 0 <= b < rest.len() && a != b implies rest[a] != rest[b] by {
                assert(body[a + 1] == rest[a]);
                assert(body[b + 1] == rest[b]);
            }
        }
        if seen.contains(first) {
            lemma_sighted_is_public(rest, seen.remove(first), id);
            let p = public_ids(rest, seen.remove(first));
            let k = choose|k: int| 0 <= k < p.len() && p[k] == id;
            assert(public_ids(body, seen)[k + 1] == id);
            if private_ids(body, seen).contains(id) {
                let m = choose|m: int|
                    0 <= m < private_ids(body, seen).len() && private_ids(body, seen)[m] == id;
            }
        } else {
            lemma_sighted_is_public(rest, seen, id);
        }
    }
}

/// Law: a transaction never sighted is placed in the private list and not
/// in the public one, block duplicates included.
pub proof fn lemma_unsighted_is_private(body: Seq<Seq<u8>>, seen: Set<Seq<u8>>, id: Seq<u8>)
    requires
        body.contains(id),
        !seen.contains(id),
    ensures
        private_ids(body, seen).contains(id),
        !public_ids(body, seen).contains(id),
    decreases body.len(),
{
    lemma_never_sighted_never_public(body, seen, id);
    let first = body.first();
    let rest = body.drop_first();
    assert(body[0] == first);
    if first == id {
        assert(!seen.contains(first));
        assert(private_ids(body, seen)[0] == id);
    } else {
        let j = choose|j: int| 0 <= j < body.len() && body[j] == id;
        assert(j != 0);
        assert(rest[j - 1] == id);
        assert(rest.contains(id));
        if seen.contains(first) {
            lemma_unsighted_is_private(rest, seen.remove(first), id);
            assert(private_ids(body, seen) == private_ids(rest, seen.remove(first)));
        } else {
            lemma_unsighted_is_private(rest, seen, id);
            let q = private_ids(rest, seen);
            let k = choose|k: int| 0 <= k < q.len() && q[k] == id;
            assert(private_ids(body, seen)[k + 1] == id);
        }
    }
}

/// Every hex text a classification list carries is a piece the stored
/// comma layout can hold without loss: nonempty and free of commas.
pub proof fn lemma_hex_texts_splittable(ids: Seq<Seq<u8>>)
    ensures
        forall|i: int|
            0 <= i < hex_texts(ids).len() ==> (#[trigger] hex_texts(ids)[i]).len() > 0
                && crate::codec::comma_free(hex_texts(ids)[i]),
{
    assert forall|i: int|
        0 <= i < hex_texts(ids).len() implies (#[trigger] hex_texts(ids)[i]).len() > 0
        && crate::codec::comma_free(hex_texts(ids)[i]) by {
        crate::txid::lemma_hex_of_wellformed(ids[i]);
    }
}

/// Partitions a block's transactions against the sighted set, consuming
/// the sightings it uses, and renders the block's record: sighted
/// transactions in the public list, the rest in the private one, each list
/// in block order as hex text.
pub fn classify_block(number: u64, body: &Vec<TxId>, seen: &mut SeenSet) -> (r: BlockPrivy)
    requires
        old(seen).wf(),
    ensures
        final(seen).wf(),
        r.number == number,
        texts_of(r.public_txs@) == hex_texts(public_ids(ids_of(body@), old(seen)@)),
        texts_of(r.private_txs@) == hex_texts(private_ids(ids_of(body@), old(seen)@)),
        final(seen)@ == seen_after(ids_of(body@), old(seen)@),
{
    let ghost all = ids_of(body@);
    let ghost seen0 = old(seen)@;
    let mut public_txs: Vec<String> = Vec::new();
    let mut private_txs: Vec<String> = Vec::new();
    proof {
        assert(texts_of(public_txs@) + hex_texts(public_ids(all, seen0)) =~= hex_texts(
            public_ids(all, seen0),
        ));
        assert(texts_of(private_txs@) + hex_texts(private_ids(all, seen0)) =~= hex_texts(
            private_ids(all, seen0),
        ));
        assert(all.skip(0) =~= all);
    }
    let mut i: usize = 0;
    while i < body.len()
        invariant
            i <= body.len(),
            seen.wf(),
            all == ids_of(body@),
            all.len() == body@.len(),
            hex_texts(public_ids(all, seen0)) == texts_of(public_txs@) + hex_texts(
                public_ids(all.skip(i as int), seen@),
            ),
            hex_texts(private_ids(all, seen0)) == texts_of(private_txs@) + hex_texts(
                private_ids(all.skip(i as int), seen@),
            ),
            seen_after(all, seen0) == seen_after(all.skip(i as int), seen@),
        decreases body.len() - i,
    {
        let tx = &body[i];
        let hex = tx.to_hex();
        let ghost rest = all.skip(i as int);
        let ghost seen_before = seen@;
        let ghost pub_before = texts_of(public_txs@);
        let ghost priv_before = texts_of(private_txs@);
        proof {
            assert(rest.len() > 0);
            assert(rest.first() == all[i as int]);
            assert(all[i as int] == tx@);
            assert(rest.drop_first() =~= all.skip(i + 1));
        }
        if seen.take_if_present(tx) {
            public_txs.push(hex);
            proof {
                assert(texts_of(public_txs@) =~= pub_before.push(hex_of(tx@)));
                assert(public_ids(rest, seen_before) == seq![tx@] + public_ids(
                    all.skip(i + 1),
                    seen@,
                ));
                assert(hex_texts(seq![tx@] + public_ids(all.skip(i + 1), seen@)) =~= seq![
                    hex_of(tx@),
                ] + hex_texts(public_ids(all.skip(i + 1), seen@)));
                assert(pub_before + (seq![hex_of(tx@)] + hex_texts(
                    public_ids(all.skip(i + 1), seen@),
                )) =~= texts_of(public_txs@) + hex_texts(public_ids(all.skip(i + 1), seen@)));
                assert(private_ids(rest, seen_before) == private_ids(all.skip(i + 1), seen@));
                assert(seen_after(rest, seen_before) == seen_after(all.skip(i + 1), seen@));
            }
        } else {
            private_txs.push(hex);
            proof {
                assert(texts_of(private_txs@) =~= priv_before.push(hex_of(tx@)));
                assert(seen@ =~= seen_before);
                assert(private_ids(rest, seen_before) == seq![tx@] + private_ids(
                    all.skip(i + 1),
                    seen@,
                ));
                assert(hex_texts(seq![tx@] + private_ids(all.skip(i + 1), seen@)) =~= seq![
                    hex_of(tx@),
                ] + hex_texts(private_ids(all.skip(i + 1), seen@)));
                assert(priv_before + (seq![hex_of(tx@)] + hex_texts(
                    private_ids(all.skip(i + 1), seen@),
                )) =~= texts_of(private_txs@) + hex_texts(private_ids(all.skip(i + 1), seen@)));
                assert(public_ids(rest, seen_before) == public_ids(all.skip(i + 1), seen@));
                assert(seen_after(rest, seen_before) == seen_after(all.skip(i + 1), seen@));
            }
        }
        i = i + 1;
    }
    proof {
        assert(all.skip(body@.len() as int) =~= Seq::<Seq<u8>>::empty());
        assert(texts_of(public_txs@) + hex_texts(public_ids(Seq::empty(), seen@)) =~= texts_of(
            public_txs@,
        ));
        assert(texts_of(private_txs@) + hex_texts(private_ids(Seq::empty(), seen@)) =~= texts_of(
            private_txs@,
        ));
    }
    BlockPrivy { number, public_txs, private_txs }
}

} // verus!
