//! Transaction identifiers: the raw bytes of a transaction hash, and their
//! rendering as `0x`-prefixed lowercase hex text.

use vstd::prelude::*;
use crate::codec::comma_free;
use crate::codec::push_char;

verus! {

/// A transaction identifier. It is an opaque value: the pipeline only ever
/// compares identifiers and renders them as hex text.
pub struct TxId {
    bytes: Vec<u8>,
}

/// The sixteen lowercase hex digit characters; out-of-range values fall
/// back to the last digit and never arise from a byte's nibbles.
pub open spec fn hex_char(n: int) -> char {
    if n == 0 {
        '0'
    } else if n == 1 {
        '1'
    } else if n == 2 {
        '2'
    } else if n == 3 {
        '3'
    } else if n == 4 {
        '4'
    } else if n == 5 {
        '5'
    } else if n == 6 {
        '6'
    } else if n == 7 {
        '7'
    } else if n == 8 {
        '8'
    } else if n == 9 {
        '9'
    } else if n == 10 {
        'a'
    } else if n == 11 {
        'b'
    } else if n == 12 {
        'c'
    } else if n == 13 {
        'd'
    } else if n == 14 {
        'e'
    } else {
        'f'
    }
}

/// The hex digits of the bytes, two per byte, high nibble first.
pub open spec fn hex_digits(bytes: Seq<u8>) -> Seq<char>
    decreases bytes.len(),
{
    if bytes.len() == 0 {
        Seq::empty()
    } else {
        hex_digits(bytes.drop_last()) + seq![
            hex_char(bytes.last() as int / 16),
            hex_char(bytes.last() as int % 16),
        ]
    }
}

/// The textual form of an identifier: `0x` followed by its hex digits.
pub open spec fn hex_of(bytes: Seq<u8>) -> Seq<char> {
    seq!['0', 'x'] + hex_digits(bytes)
}

proof fn lemma_hex_digits_comma_free(bytes: Seq<u8>)
    ensures
        comma_free(hex_digits(bytes)),
    decreases bytes.len(),
{
    if bytes.len() > 0 {
        lemma_hex_digits_comma_free(bytes.drop_last());
    }
}

/// The hex form of any identifier is a piece the comma layout can carry:
/// it is never empty and holds no comma.
pub proof fn lemma_hex_of_wellformed(bytes: Seq<u8>)
    ensures
        hex_of(bytes).len() >= 2,
        comma_free(hex_of(bytes)),
{
    lemma_hex_digits_comma_free(bytes);
}

fn hex_char_of(n: u8) -> (c: char)
    requires
        n < 16,
    ensures
        c == hex_char(n as int),
{
    if n == 0 {
        '0'
    } else if n == 1 {
        '1'
    } else if n == 2 {
        '2'
    } else if n == 3 {
        '3'
    } else if n == 4 {
        '4'
    } else if n == 5 {
        '5'
    } else if n == 6 {
        '6'
    } else if n == 7 {
        '7'
    } else if n == 8 {
        '8'
    } else if n == 9 {
        '9'
    } else if n == 10 {
        'a'
    } else if n == 11 {
        'b'
    } else if n == 12 {
        'c'
    } else if n == 13 {
        'd'
    } else if n == 14 {
        'e'
    } else {
        'f'
    }
}

impl View for TxId {
    type V = Seq<u8>;

    closed spec fn view(&self) -> Seq<u8> {
        self.bytes@
    }
}

impl TxId {
    /// Wraps raw hash bytes as an identifier.
    pub fn new(bytes: Vec<u8>) -> (r: TxId)
        ensures
            r@ == bytes@,
    {
        TxId { bytes }
    }

    /// Value comparison: two identifiers are the same exactly when their
    /// bytes are.
    pub fn same_as(&self, other: &TxId) -> (r: bool)
        ensures
            r == (self@ == other@),
    {
        let r = self.bytes == other.bytes;
        proof {
            if r {
                assert(self.bytes@ =~= other.bytes@);
            }
        }
        r
    }

    /// Renders the identifier as `0x`-prefixed lowercase hex text.
    pub fn to_hex(&self) -> (r: String)
        ensures
            r@ == hex_of(self@),
    {
        let mut out = String::new();
        push_char(&mut out, '0');
        push_char(&mut out, 'x');
        let mut i: usize = 0;
        while i < self.bytes.len()
            invariant
                i <= self.bytes.len(),
                out@ == hex_of(self@.take(i as int)),
            decreases self.bytes.len() - i,
        {
            let b = self.bytes[i];
            push_char(&mut out, hex_char_of(b / 16));
            push_char(&mut out, hex_char_of(b % 16));
            proof {
                assert(self@.take(i + 1).drop_last() =~= self@.take(i as int));
                assert(self@.take(i + 1).last() == self@[i as int]);
                assert(out@ =~= hex_of(self@.take(i + 1)));
            }
            i = i + 1;
        }
        proof {
            assert(self@.take(self@.len() as int) =~= self@);
        }
        out
    }
}

} // verus!
