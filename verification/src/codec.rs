//! Text layout of the persisted transaction lists: pieces joined with
//! commas, the empty list written as the empty string.

use vstd::prelude::*;
use vstd::string::StringExecFns;

verus! {

/// The views of a sequence of owned text values.
pub open spec fn texts_of(parts: Seq<String>) -> Seq<Seq<char>> {
    parts.map_values(|p: String| p@)
}

/// What a sequence of text pieces looks like joined with commas.
pub open spec fn join_with_commas(parts: Seq<Seq<char>>) -> Seq<char>
    decreases parts.len(),
{
    if parts.len() == 0 {
        Seq::empty()
    } else if parts.len() == 1 {
        parts[0]
    } else {
        join_with_commas(parts.drop_last()) + seq![','] + parts.last()
    }
}

/// Comma splitting as plain text splitting does it: one piece more than the
/// text has commas, so the empty text yields one empty piece.
pub open spec fn split_full(s: Seq<char>) -> Seq<Seq<char>>
    decreases s.len(),
{
    if s.len() == 0 {
        seq![Seq::<char>::empty()]
    } else if s.last() == ',' {
        split_full(s.drop_last()).push(Seq::empty())
    } else {
        let p = split_full(s.drop_last());
        p.update(p.len() - 1, p.last().push(s.last()))
    }
}

/// How a stored list column reads back: the empty text is the empty list --
/// never a list holding one empty piece -- and any other text splits on
/// commas.
pub open spec fn split_commas_spec(s: Seq<char>) -> Seq<Seq<char>> {
    if s.len() == 0 {
        Seq::empty()
    } else {
        split_full(s)
    }
}

pub proof fn lemma_split_full_nonempty(s: Seq<char>)
    ensures
        split_full(s).len() >= 1,
    decreases s.len(),
{
    if s.len() > 0 {
        lemma_split_full_nonempty(s.drop_last());
    }
}

/// A piece that the comma layout can carry without loss: some text that is
/// itself free of commas.
pub open spec fn comma_free(piece: Seq<char>) -> bool {
    forall|j: int| 0 <= j < piece.len() ==> piece[j] != ','
}

proof fn lemma_split_append_comma_free(x: Seq<char>, y: Seq<char>)
    requires
        comma_free(y),
    ensures
        split_full(x + y) == split_full(x).update(
            split_full(x).len() - 1,
            split_full(x).last() + y,
        ),
    decreases y.len(),
{
    lemma_split_full_nonempty(x);
    let p = split_full(x);
    if y.len() == 0 {
        assert(x + y =~= x);
        assert(p.update(p.len() - 1, p.last() + y) =~= p) by {
            assert(p.last() + y =~= p.last());
        }
    } else {
        lemma_split_append_comma_free(x, y.drop_last());
        let q = split_full(x + y.drop_last());
        assert((x + y).drop_last() =~= x + y.drop_last());
        assert((x + y).last() == y.last());
        assert(split_full(x + y) == q.update(q.len() - 1, q.last().push(y.last())));
        assert(split_full(x + y) =~= p.update(p.len() - 1, p.last() + y)) by {
            assert(q.last() == p.last() + y.drop_last());
            assert((p.last() + y.drop_last()).push(y.last()) =~= p.last() + y);
        }
    }
}

proof fn lemma_split_trailing_comma(x: Seq<char>)
    ensures
        split_full(x + seq![',']) == split_full(x).push(Seq::<char>::empty()),
{
    assert((x + seq![',']).drop_last() =~= x);
    assert((x + seq![',']).last() == ',');
}

proof fn lemma_join_nonempty(parts: Seq<Seq<char>>)
    requires
        parts.len() >= 1,
        parts[0].len() > 0,
    ensures
        join_with_commas(parts).len() > 0,
    decreases parts.len(),
{
    if parts.len() > 1 {
        lemma_join_nonempty(parts.drop_last());
    }
}

/// Law: the stored text layout is lossless. Any list of nonempty,
/// comma-free pieces -- the empty list included -- reads back from its
/// joined form exactly as it was written; in particular the empty list
/// comes back as no piece at all, not as one empty piece.
pub proof fn lemma_join_split_roundtrip(parts: Seq<Seq<char>>)
    requires
        forall|i: int| 0 <= i < parts.len() ==> parts[i].len() > 0 && comma_free(#[trigger] parts[i]),
    ensures
        split_commas_spec(join_with_commas(parts)) == parts,
    decreases parts.len(),
{
    if parts.len() == 0 {
        assert(split_commas_spec(join_with_commas(parts)) =~= parts);
    } else if parts.len() == 1 {
        lemma_split_append_comma_free(Seq::empty(), parts[0]);
        assert(split_full(Seq::<char>::empty()) == seq![Seq::<char>::empty()]);
        assert(Seq::<char>::empty() + parts[0] =~= parts[0]);
        assert(split_full(parts[0]) =~= parts) by {
            assert(seq![Seq::<char>::empty()].update(0, parts[0]) =~= parts);
        }
    } else {
        let front = parts.drop_last();
        let last = parts.last();
        let j = join_with_commas(front);
        lemma_join_split_roundtrip(front);
        lemma_join_nonempty(front);
        lemma_split_trailing_comma(j);
        lemma_split_append_comma_free(j + seq![','], last);
        lemma_split_full_nonempty(j + seq![',']);
        assert(join_with_commas(parts) == j + seq![','] + last);
        assert(split_full(j) == front);
        let withcomma = split_full(j + seq![',']);
        assert(withcomma == front.push(Seq::<char>::empty()));
        assert(split_full(j + seq![','] + last) == withcomma.update(
            withcomma.len() - 1,
            withcomma.last() + last,
        ));
        assert(split_full(j + seq![','] + last) =~= parts) by {
            assert(Seq::<char>::empty() + last =~= last);
        }
        lemma_join_nonempty(parts);
    }
}

/// Relies on `String::push`: appends exactly the given character.
#[verifier::external_body]
pub(crate) fn push_char(s: &mut String, c: char)
    ensures
        final(s)@ == old(s)@.push(c),
{
    s.push(c);
}

/// Joins the given texts with commas; no separator is written for an empty
/// or a singleton list.
pub fn join_texts(parts: &Vec<String>) -> (r: String)
    ensures
        r@ == join_with_commas(texts_of(parts@)),
{
    let ghost all: Seq<Seq<char>> = texts_of(parts@);
    let mut out = String::new();
    let mut i: usize = 0;
    while i < parts.len()
        invariant
            i <= parts.len(),
            all == texts_of(parts@),
            out@ == join_with_commas(all.take(i as int)),
        decreases parts.len() - i,
    {
        let ghost prefix_join = out@;
        if i > 0 {
            push_char(&mut out, ',');
        }
        out.append(parts[i].as_str());
        proof {
            assert(all.take(i + 1).drop_last() =~= all.take(i as int));
            assert(all.take(i + 1).last() == all[i as int]);
            if i > 0 {
                assert(out@ =~= prefix_join + seq![','] + all[i as int]);
            } else {
                assert(out@ =~= all[i as int]);
            }
        }
        i = i + 1;
    }
    proof {
        assert(all.take(parts@.len() as int) =~= all);
    }
    out
}

/// Splits a stored list column back into its pieces: the empty text yields
/// no piece at all, any other text is cut at every comma.
pub fn split_commas(s: &str) -> (r: Vec<String>)
    ensures
        texts_of(r@) == split_commas_spec(s@),
{
    let mut pieces: Vec<String> = Vec::new();
    let mut cur = String::new();
    proof {
        assert(texts_of(pieces@).push(cur@) =~= split_full(s@.take(0)));
    }
    for c in it: s.chars()
        invariant
            it.seq() == s@,
            texts_of(pieces@).push(cur@) == split_full(s@.take(it.index() as int)),
    {
        let ghost done: Seq<char> = s@.take(it.index() as int);
        let ghost p: Seq<Seq<char>> = split_full(done);
        proof {
            assert(s@.take(it.index() + 1).drop_last() =~= done);
            assert(s@.take(it.index() + 1).last() == c);
        }
        if c == ',' {
            let ghost old_pieces = pieces@;
            let ghost old_cur = cur@;
            pieces.push(cur);
            cur = String::new();
            proof {
                assert(texts_of(pieces@) =~= texts_of(old_pieces).push(old_cur));
                assert(texts_of(pieces@).push(cur@) =~= p.push(Seq::<char>::empty()));
            }
        } else {
            push_char(&mut cur, c);
            proof {
                lemma_split_full_nonempty(done);
                assert(texts_of(pieces@).push(cur@) =~= p.update(p.len() - 1, p.last().push(c)));
            }
        }
    }
    proof {
        assert(s@.take(s@.len() as int) =~= s@);
    }
    let ghost final_pieces = texts_of(pieces@);
    let ghost final_cur = cur@;
    if s.is_empty() {
        let r = Vec::<String>::new();
        proof {
            assert(texts_of(r@) =~= split_commas_spec(s@));
        }
        r
    } else {
        pieces.push(cur);
        proof {
            assert(texts_of(pieces@) =~= final_pieces.push(final_cur));
        }
        pieces
    }
}

} // verus!
