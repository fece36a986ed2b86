//! Kademlia identifiers.
use vstd::prelude::*;
use vstd::string::StringExecFns;
use crate::bytes::same_bytes;
use crate::crypto::{blake3_hash, hash};
use crate::kad::distance::{bucket_of, lemma_no_bucket_iff_zero, Distance};
use crate::peer_id::PeerId;
use crate::text::{hex, hex_text};

verus! {

/// Width of an identifier in bytes.
pub const NODE_ID_LEN: usize = 32;

/// Width of an identifier in bits, and the number of buckets.
pub const NODE_ID_BITS: usize = 256;

/// A 256-bit Kademlia identifier.
#[derive(Clone, Copy, Debug, PartialEq, Eq, Hash, PartialOrd, Ord)]
pub struct NodeId {
    bytes: [u8; 32],
}

impl View for NodeId {
    type V = Seq<u8>;

    closed spec fn view(&self) -> Seq<u8> {
        self.bytes@
    }
}

/// The byte-wise exclusive or of two identifiers.
pub open spec fn xor(a: Seq<u8>, b: Seq<u8>) -> Seq<u8> {
    Seq::new(32, |i: int| a[i] ^ b[i])
}

/// The XOR distance between two identifiers.
pub open spec fn distance_of(a: NodeId, b: NodeId) -> Seq<u8> {
    xor(a@, b@)
}

/// An identifier is its 32 bytes.
pub broadcast proof fn node_id_is_its_bytes(a: NodeId, b: NodeId)
    requires
        #[trigger] a@ == #[trigger] b@,
    ensures
        a == b,
{
    assert(a.bytes =~= b.bytes) by {
        assert forall|i: int| 0 <= i < 32 implies a.bytes[i] == b.bytes[i] by {
            assert(a.bytes@[i] == b.bytes@[i]);
        }
    }
}

/// The identifier with the given 32 bytes.
pub closed spec fn node_id_of(bytes: Seq<u8>) -> NodeId {
    NodeId {
        bytes: [
            bytes[0], bytes[1], bytes[2], bytes[3], bytes[4], bytes[5], bytes[6], bytes[7],
            bytes[8], bytes[9], bytes[10], bytes[11], bytes[12], bytes[13], bytes[14], bytes[15],
            bytes[16], bytes[17], bytes[18], bytes[19], bytes[20], bytes[21], bytes[22], bytes[23],
            bytes[24], bytes[25], bytes[26], bytes[27], bytes[28], bytes[29], bytes[30], bytes[31],
        ],
    }
}

/// An identifier has exactly the bytes that it was made of.
pub broadcast proof fn node_id_of_bytes(bytes: Seq<u8>)
    requires
        bytes.len() == 32,
    ensures
        #[trigger] node_id_of(bytes)@ == bytes,
{
    let id = node_id_of(bytes);
    assert(id.bytes@.len() == 32);
    assert(id.bytes@ =~= bytes);
}

/// An identifier has 32 bytes.
pub broadcast proof fn node_id_len(a: NodeId)
    ensures
        #[trigger] a@.len() == 32,
{
    assert(a.bytes@.len() == 32);
}

/// The distance is symmetric.
pub proof fn distance_is_symmetric(a: NodeId, b: NodeId)
    ensures
        distance_of(a, b) == distance_of(b, a),
{
    assert forall|i: int| 0 <= i < 32 implies a@[i] ^ b@[i] == b@[i] ^ a@[i] by {
        let x = a@[i];
        let y = b@[i];
        assert(x ^ y == y ^ x) by (bit_vector);
    }
    assert(distance_of(a, b) =~= distance_of(b, a));
}

/// From one identifier every distance leads to one identifier only.
pub proof fn distance_is_injective(a: NodeId, b: NodeId, c: NodeId)
    requires
        distance_of(a, c) == distance_of(b, c),
    ensures
        a == b,
{
    broadcast use node_id_len;

    assert forall|i: int| 0 <= i < 32 implies a@[i] == b@[i] by {
        let x = a@[i];
        let y = b@[i];
        let z = c@[i];
        assert(distance_of(a, c)[i] == x ^ z);
        assert(distance_of(b, c)[i] == y ^ z);
        assert(x == y) by (bit_vector)
            requires
                x ^ z == y ^ z,
        ;
    }
    assert(a@ =~= b@);
    node_id_is_its_bytes(a, b);
}

/// The distance is zero, and has no bucket, exactly between an identifier and
/// itself.
pub proof fn distance_is_zero_iff_equal(a: NodeId, b: NodeId)
    ensures
        bucket_of(distance_of(a, b)) is None <==> a == b,
        a == b <==> forall|i: int| 0 <= i < 32 ==> distance_of(a, b)[i] == 0,
{
    broadcast use node_id_len;

    let d = distance_of(a, b);
    lemma_no_bucket_iff_zero(d);
    if a == b {
        assert forall|i: int| 0 <= i < 32 implies d[i] == 0 by {
            let x = a@[i];
            assert(x ^ x == 0) by (bit_vector);
        }
    } else {
        if forall|i: int| 0 <= i < 32 ==> d[i] == 0 {
            assert forall|i: int| 0 <= i < 32 implies a@[i] == b@[i] by {
                let x = a@[i];
                let y = b@[i];
                assert(d[i] == 0);
                assert(x == y) by (bit_vector)
                    requires
                        x ^ y == 0,
                ;
            }
            assert(a@ =~= b@);
            node_id_is_its_bytes(a, b);
        }
    }
}

/// The triangle holds with exclusive or in place of the sum: two legs determine
/// the third.
pub proof fn distances_compose(a: NodeId, b: NodeId, c: NodeId)
    ensures
        distance_of(a, c) == xor(distance_of(a, b), distance_of(b, c)),
{
    assert forall|i: int| 0 <= i < 32 implies a@[i] ^ c@[i] == (a@[i] ^ b@[i]) ^ (b@[i] ^ c@[i]) by {
        let x = a@[i];
        let y = b@[i];
        let z = c@[i];
        assert(x ^ z == (x ^ y) ^ (y ^ z)) by (bit_vector);
    }
    assert(distance_of(a, c) =~= xor(distance_of(a, b), distance_of(b, c)));
}

impl NodeId {
    /// The identifier of a peer: the BLAKE3 hash of its peer identifier.
    pub fn from_peer_id(peer_id: &PeerId) -> (id: Self)
        ensures
            id@ == blake3_hash(peer_id@),
    {
        NodeId { bytes: hash(peer_id.as_bytes()) }
    }

    /// Wraps raw bytes.
    pub fn from_bytes(bytes: [u8; 32]) -> (id: Self)
        ensures
            id@ == bytes@,
    {
        NodeId { bytes }
    }

    /// The raw bytes.
    pub fn as_bytes(&self) -> (bytes: &[u8; 32])
        ensures
            bytes@ == self@,
            self@.len() == 32,
    {
        assert(self.bytes@.len() == 32);
        &self.bytes
    }

    /// Whether two identifiers are the same.
    pub fn same(&self, other: &Self) -> (r: bool)
        ensures
            r == (*self == *other),
    {
        let r = same_bytes(self.bytes.as_slice(), other.bytes.as_slice());
        proof {
            if r {
                node_id_is_its_bytes(*self, *other);
            }
        }
        r
    }

    /// The XOR distance to `other`.
    pub fn distance(&self, other: &Self) -> (d: Distance)
        ensures
            d@ == distance_of(*self, *other),
    {
        let mut bytes: [u8; 32] = [0u8; 32];
        let mut i: usize = 0;
        while i < NODE_ID_LEN
            invariant
                i <= 32,
                forall|j: int| 0 <= j < i ==> bytes@[j] == self@[j] ^ other@[j],
            decreases 32 - i,
        {
            bytes[i] = self.bytes[i] ^ other.bytes[i];
            i = i + 1;
        }
        assert(bytes@ =~= distance_of(*self, *other));
        Distance::from_bytes(bytes)
    }

    /// The identifier in words: `kad:` and its hexadecimal digits.
    pub fn describe(&self) -> (text: String)
        ensures
            text@ == "kad:"@ + hex(self@),
    {
        let digits = hex_text(self.bytes.as_slice());
        "kad:".to_owned().concat(digits.as_str())
    }
}

impl vstd::std_specs::convert::FromSpecImpl<[u8; 32]> for NodeId {
    open spec fn obeys_from_spec() -> bool {
        true
    }

    closed spec fn from_spec(bytes: [u8; 32]) -> Self {
        NodeId { bytes }
    }
}

impl From<[u8; 32]> for NodeId {
    fn from(bytes: [u8; 32]) -> (id: Self) {
        NodeId { bytes }
    }
}

} // verus!
