//! The XOR metric.
use vstd::prelude::*;
use vstd::string::StringExecFns;
use crate::bytes::{
    bytes_before, lemma_lex_irreflexive, lemma_lex_total, lemma_lex_transitive, lex_before,
};
use crate::kad::node_id::{NODE_ID_BITS, NODE_ID_LEN};
use crate::ordered_map::OrderedKey;
use crate::text::{hex, hex_text};

verus! {

/// Bit `i` of a 32-byte string, counted from the most significant.
pub open spec fn bit_at(d: Seq<u8>, i: int) -> bool {
    (d[i / 8] >> ((7 - i % 8) as u8)) & 1 == 1
}

/// The first set bit at `i` or after it, or 256.
pub open spec fn first_set_bit(d: Seq<u8>, i: int) -> int
    decreases 256 - i,
{
    if i >= 256 {
        256
    } else if bit_at(d, i) {
        i
    } else {
        first_set_bit(d, i + 1)
    }
}

/// The number of leading zero bits of a 32-byte string.
pub open spec fn leading_zero_bits(d: Seq<u8>) -> int {
    first_set_bit(d, 0)
}

/// The bucket for a distance: the position of its highest set bit, counted from
/// the least significant; none for the zero distance.
pub open spec fn bucket_of(d: Seq<u8>) -> Option<int> {
    if leading_zero_bits(d) == 256 {
        None
    } else {
        Some(255 - leading_zero_bits(d))
    }
}

/// Where the first set bit is found, no earlier bit is set.
pub proof fn lemma_first_set_bit(d: Seq<u8>, i: int)
    requires
        0 <= i <= 256,
    ensures
        i <= first_set_bit(d, i) <= 256,
        forall|j: int| i <= j < first_set_bit(d, i) ==> !#[trigger] bit_at(d, j),
        first_set_bit(d, i) < 256 ==> bit_at(d, first_set_bit(d, i)),
    decreases 256 - i,
{
    if i < 256 && !bit_at(d, i) {
        lemma_first_set_bit(d, i + 1);
    }
}

/// A distance has no bucket exactly when it is zero.
pub proof fn lemma_no_bucket_iff_zero(d: Seq<u8>)
    requires
        d.len() == 32,
    ensures
        bucket_of(d) is None <==> forall|i: int| 0 <= i < 32 ==> d[i] == 0,
        bucket_of(d) matches Some(b) ==> 0 <= b < 256,
{
    lemma_first_set_bit(d, 0);
    if leading_zero_bits(d) == 256 {
        assert forall|i: int| 0 <= i < 32 implies d[i] == 0 by {
            let b = d[i];
            assert(!bit_at(d, 8 * i) && !bit_at(d, 8 * i + 1) && !bit_at(d, 8 * i + 2) && !bit_at(
                d,
                8 * i + 3,
            ));
            assert(!bit_at(d, 8 * i + 4) && !bit_at(d, 8 * i + 5) && !bit_at(d, 8 * i + 6)
                && !bit_at(d, 8 * i + 7));
            assert(b == 0) by (bit_vector)
                requires
                    (b >> 7u8) & 1 != 1,
                    (b >> 6u8) & 1 != 1,
                    (b >> 5u8) & 1 != 1,
                    (b >> 4u8) & 1 != 1,
                    (b >> 3u8) & 1 != 1,
                    (b >> 2u8) & 1 != 1,
                    (b >> 1u8) & 1 != 1,
                    (b >> 0u8) & 1 != 1,
            ;
        }
    } else {
        let n = leading_zero_bits(d);
        let b = d[n / 8];
        let s = (7 - n % 8) as u8;
        assert((b >> s) & 1 == 1);
        assert(b != 0) by (bit_vector)
            requires
                (b >> s) & 1 == 1,
                s < 8,
        ;
    }
}

/// The XOR distance between two identifiers, a 256-bit big-endian number.
#[derive(Clone, Copy, Debug, PartialEq, Eq, Hash, PartialOrd, Ord)]
pub struct Distance {
    bytes: [u8; 32],
}

impl View for Distance {
    type V = Seq<u8>;

    closed spec fn view(&self) -> Seq<u8> {
        self.bytes@
    }
}

impl OrderedKey for Distance {
    open spec fn precedes(a: Seq<u8>, b: Seq<u8>) -> bool {
        lex_before(a, b)
    }

    proof fn irreflexive(a: Seq<u8>) {
        lemma_lex_irreflexive(a);
    }

    proof fn transitive(a: Seq<u8>, b: Seq<u8>, c: Seq<u8>) {
        lemma_lex_transitive(a, b, c);
    }

    proof fn total(a: Seq<u8>, b: Seq<u8>) {
        lemma_lex_total(a, b);
    }

    fn before(&self, other: &Self) -> (r: bool) {
        bytes_before(self.bytes.as_slice(), other.bytes.as_slice())
    }

    fn copy_key(&self) -> (copy: Self) {
        *self
    }
}

impl Distance {
    /// The zero distance.
    pub fn zero() -> (d: Self)
        ensures
            d@ == Seq::new(32, |i: int| 0u8),
    {
        let d = Distance { bytes: [0u8; 32] };
        assert(d@ =~= Seq::new(32, |i: int| 0u8));
        d
    }

    /// Wraps raw bytes.
    pub fn from_bytes(bytes: [u8; 32]) -> (d: Self)
        ensures
            d@ == bytes@,
    {
        Distance { bytes }
    }

    /// The raw bytes.
    pub fn as_bytes(&self) -> (bytes: &[u8; 32])
        ensures
            bytes@ == self@,
            self@.len() == 32,
    {
        assert(self.bytes@.len() == 32);
        &self.bytes
    }

    /// Whether the distance is zero.
    pub fn is_zero(&self) -> (r: bool)
        ensures
            r <==> forall|i: int| 0 <= i < 32 ==> self@[i] == 0,
    {
        let mut i: usize = 0;
        while i < NODE_ID_LEN
            invariant
                i <= 32,
                forall|j: int| 0 <= j < i ==> self@[j] == 0,
            decreases 32 - i,
        {
            if self.bytes[i] != 0 {
                assert(self@[i as int] != 0);
                return false;
            }
            i = i + 1;
        }
        true
    }

    /// The number of leading zero bits, 256 for the zero distance.
    pub fn leading_zeros(&self) -> (n: usize)
        ensures
            n == leading_zero_bits(self@),
            n <= NODE_ID_BITS,
    {
        let mut i: usize = 0;
        while i < NODE_ID_BITS
            invariant
                i <= 256,
                first_set_bit(self@, 0) == first_set_bit(self@, i as int),
            decreases 256 - i,
        {
            let byte: u8 = self.bytes[i / 8];
            let shift: u8 = (7 - i % 8) as u8;
            if (byte >> shift) & 1 == 1 {
                return i;
            }
            i = i + 1;
        }
        NODE_ID_BITS
    }

    /// The bucket for a peer at this distance.
    pub fn bucket_index(&self) -> (r: Option<usize>)
        ensures
            match r {
                Some(b) => bucket_of(self@) == Some(b as int) && b < NODE_ID_BITS,
                None => bucket_of(self@) is None,
            },
    {
        let zeros = self.leading_zeros();
        if zeros == NODE_ID_BITS {
            None
        } else {
            Some(NODE_ID_BITS - 1 - zeros)
        }
    }

    /// The distance in words: `xor:` and its hexadecimal digits.
    pub fn describe(&self) -> (text: String)
        ensures
            text@ == "xor:"@ + hex(self@),
    {
        let digits = hex_text(self.bytes.as_slice());
        "xor:".to_owned().concat(digits.as_str())
    }
}

} // verus!
