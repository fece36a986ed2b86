//! Peer identifiers.
use vstd::prelude::*;

verus! {

/// The identity multihash of the protobuf encoding of an Ed25519 public key,
/// as libp2p writes it: multihash code 0, length 36, then key type 1, and the
/// 32 key bytes as field 2.
pub open spec fn peer_id_bytes(key: Seq<u8>) -> Seq<u8> {
    seq![0x00u8, 0x24u8, 0x08u8, 0x01u8, 0x12u8, 0x20u8] + key
}

/// A libp2p-compatible peer identifier.
#[derive(Clone, Copy, Debug, PartialEq, Eq, Hash, PartialOrd, Ord)]
pub struct PeerId {
    bytes: [u8; 38],
}

impl View for PeerId {
    type V = Seq<u8>;

    closed spec fn view(&self) -> Seq<u8> {
        self.bytes@
    }
}

impl PeerId {
    /// The identifier of an Ed25519 public key.
    pub fn from_ed25519(key: &[u8; 32]) -> (id: Self)
        ensures
            id@ == peer_id_bytes(key@),
    {
        let mut bytes: [u8; 38] = [0u8; 38];
        bytes[1] = 0x24;
        bytes[2] = 0x08;
        bytes[3] = 0x01;
        bytes[4] = 0x12;
        bytes[5] = 0x20;
        let mut i: usize = 0;
        while i < 32
            invariant
                i <= 32,
                bytes@[0] == 0x00,
                bytes@[1] == 0x24,
                bytes@[2] == 0x08,
                bytes@[3] == 0x01,
                bytes@[4] == 0x12,
                bytes@[5] == 0x20,
                forall|j: int| 0 <= j < i ==> bytes@[j + 6] == key@[j],
            decreases 32 - i,
        {
            bytes[i + 6] = key[i];
            assert forall|j: int| 0 <= j < i + 1 implies bytes@[j + 6] == key@[j] by {}
            i = i + 1;
        }
        assert forall|j: int| 6 <= j < 38 implies bytes@[j] == key@[j - 6] by {
            assert(bytes@[(j - 6) + 6] == key@[j - 6]);
        }
        assert(bytes@ =~= peer_id_bytes(key@));
        PeerId { bytes }
    }

    /// The identifier on the wire.
    pub fn as_bytes(&self) -> (bytes: &[u8])
        ensures
            bytes@ == self@,
    {
        self.bytes.as_slice()
    }
}

/// Different keys have different identifiers.
pub proof fn peer_id_is_injective(a: Seq<u8>, b: Seq<u8>)
    requires
        peer_id_bytes(a) == peer_id_bytes(b),
    ensures
        a == b,
{
    assert(peer_id_bytes(a).skip(6) =~= a);
    assert(peer_id_bytes(b).skip(6) =~= b);
}

} // verus!
