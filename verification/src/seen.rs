//! The membership tracker: the set of transaction identifiers observed as
//! pending and not yet consumed by a classified block.

use vstd::prelude::*;
use crate::txid::TxId;

verus! {

broadcast use vstd::seq_lib::group_seq_properties;

/// Records which transactions have been sighted. Viewed as the set of the
/// sighted identifiers' byte sequences; an entry leaves the set exactly
/// once, either consumed by a classification or swept by eviction.
pub struct SeenSet {
    ids: Vec<TxId>,
}

impl SeenSet {
    spec fn id_views(&self) -> Seq<Seq<u8>> {
        self.ids@.map_values(|t: TxId| t@)
    }

    /// Well-formed: no identifier is tracked twice. Established by `new`
    /// and preserved by every operation.
    pub closed spec fn wf(&self) -> bool {
        self.id_views().no_duplicates()
    }

    /// An empty tracker: nothing has been sighted.
    pub fn new() -> (r: SeenSet)
        ensures
            r.wf(),
            r@ == Set::<Seq<u8>>::empty(),
    {
        let r = SeenSet { ids: Vec::new() };
        proof {
            assert(r.id_views() =~= Seq::<Seq<u8>>::empty());
            assert(r@ =~= Set::<Seq<u8>>::empty());
        }
        r
    }

    fn find_index(&self, id: &TxId) -> (r: Option<usize>)
        ensures
            match r {
                Some(i) => i < self.id_views().len() && self.id_views()[i as int] == id@,
                None => !self@.contains(id@),
            },
    {
        let mut i: usize = 0;
        while i < self.ids.len()
            invariant
                i <= self.ids.len(),
                forall|j: int| 0 <= j < i ==> self.id_views()[j] != id@,
            decreases self.ids.len() - i,
        {
            if self.ids[i].same_as(id) {
                return Some(i);
            }
            i = i + 1;
        }
        proof {
            if self@.contains(id@) {
                let j = choose|j: int|
                    0 <= j < self.id_views().len() && self.id_views()[j] == id@;
                assert(false);
            }
        }
        None
    }

    /// Marks an identifier as sighted. Idempotent: sighting the same
    /// transaction again changes nothing.
    pub fn record_seen(&mut self, id: TxId)
        requires
            old(self).wf(),
        ensures
            final(self).wf(),
            final(self)@ == old(self)@.insert(id@),
    {
        match self.find_index(&id) {
            Some(i) => {
                proof {
                    assert(self.id_views()[i as int] == id@);
                    assert(self.id_views().contains(id@));
                    assert(self@ =~= old(self)@.insert(id@));
                }
            },
            None => {
                let ghost before = self.id_views();
                self.ids.push(id);
                proof {
                    assert(!before.contains(id@));
                    assert(self.id_views() =~= before.push(id@));
                    before.lemma_push_to_set_commute(id@);
                    assert(self@ =~= old(self)@.insert(id@));
                    assert(self.id_views().no_duplicates());
                }
            },
        }
    }

    /// Atomic check-and-consume: removes the identifier and reports whether
    /// it was present. The combined step is what rules out counting one
    /// sighting twice across two classification passes.
    pub fn take_if_present(&mut self, id: &TxId) -> (r: bool)
        requires
            old(self).wf(),
        ensures
            final(self).wf(),
            r == old(self)@.contains(id@),
            final(self)@ == old(self)@.remove(id@),
    {
        match self.find_index(id) {
            Some(i) => {
                let ghost v = self.id_views();
                self.ids.remove(i);
                proof {
                    assert(v.contains(id@));
                    assert(self.id_views() =~= v.remove(i as int));
                    lemma_remove_view(v, i as int);
                    assert(old(self)@.contains(id@));
                }
                true
            },
            None => {
                proof {
                    assert(self@ =~= old(self)@.remove(id@));
                }
                false
            },
        }
    }

    /// Removes every remaining entry and reports how many there were: the
    /// periodic memory-pressure sweep.
    pub fn evict_all(&mut self) -> (r: usize)
        requires
            old(self).wf(),
        ensures
            final(self).wf(),
            final(self)@ == Set::<Seq<u8>>::empty(),
            r == old(self)@.len(),
    {
        proof {
            old(self).id_views().unique_seq_to_set();
        }
        let count = self.ids.len();
        self.ids.clear();
        proof {
            assert(self.id_views() =~= Seq::<Seq<u8>>::empty());
            assert(self@ =~= Set::<Seq<u8>>::empty());
        }
        count
    }
}

/// Removing one occurrence from a duplicate-free sequence removes exactly
/// that element from the set of its entries.
proof fn lemma_remove_view(v: Seq<Seq<u8>>, i: int)
    requires
        v.no_duplicates(),
        0 <= i < v.len(),
    ensures
        v.remove(i).to_set() == v.to_set().remove(v[i]),
        v.remove(i).no_duplicates(),
{
    let nv = v.remove(i);
    assert forall|a: int, b: int|
        0 <= a < nv.len() && 0 <= b < nv.len() && a != b implies nv[a] != nv[b] by {
        let va: int = if a < i {
            a
        } else {
            a + 1
        };
        let vb: int = if b < i {
            b
        } else {
            b + 1
        };
        assert(nv[a] == v[va]);
        assert(nv[b] == v[vb]);
        assert(v[va] != v[vb]);
    }
    assert forall|b: Seq<u8>| nv.to_set().contains(b) implies v.to_set().remove(
        v[i],
    ).contains(b) by {
        let j = choose|j: int| 0 <= j < nv.len() && nv[j] == b;
        if j < i {
            assert(v[j] == b);
        } else {
            assert(v[j + 1] == b);
        }
    }
    assert forall|b: Seq<u8>| v.to_set().remove(v[i]).contains(b) implies nv.to_set().contains(
        b,
    ) by {
        let j = choose|j: int| 0 <= j < v.len() && v[j] == b;
        assert(j != i);
        if j < i {
            assert(nv[j] == b);
        } else {
            assert(nv[j - 1] == b);
        }
    }
    assert(v.remove(i).to_set() =~= v.to_set().remove(v[i]));
}

impl View for SeenSet {
    type V = Set<Seq<u8>>;

    closed spec fn view(&self) -> Set<Seq<u8>> {
        self.id_views().to_set()
    }
}

} // verus!
