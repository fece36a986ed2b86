//! Ed25519 keys and signatures.
use vstd::prelude::*;
use vstd::string::StringExecFns;
use crate::crypto::{
    ed25519_is_neutral, ed25519_is_point, ed25519_parse, ed25519_point_error, ed25519_public, ed25519_public_key,
    ed25519_sign, ed25519_signature, ed25519_verifies,
};
use crate::error::{Error, ErrorView};
use crate::peer_id::{peer_id_bytes, PeerId};

verus! {

/// `libp2p-cat-identity-static-key:`, in front of every signed static key.
pub const DOMAIN_TAG: [u8; 31] = [
    0x6c, 0x69, 0x62, 0x70, 0x32, 0x70, 0x2d, 0x63, 0x61, 0x74, 0x2d, 0x69, 0x64, 0x65, 0x6e, 0x74,
    0x69, 0x74, 0x79, 0x2d, 0x73, 0x74, 0x61, 0x74, 0x69, 0x63, 0x2d, 0x6b, 0x65, 0x79, 0x3a,
];

/// Length of a public key on the wire.
pub const ED25519_PUBLIC_KEY_LEN: usize = 32;

/// Length of a signature on the wire.
pub const ED25519_SIGNATURE_LEN: usize = 64;

/// Why bytes are no public key, if they are none.
pub open spec fn point_complaint(key: Seq<u8>) -> Option<ErrorView> {
    match ed25519_point_error(key) {
        None => None,
        Some(e) => Some(
            ErrorView::IdentityVerify(
                "ed25519 public key bytes are not a valid curve point: "@ + e,
            ),
        ),
    }
}

/// An Ed25519 public key, not yet checked to be a curve point.
#[derive(Clone, Copy, Debug, PartialEq, Eq, Hash)]
pub struct Ed25519PublicKey {
    pub(crate) bytes: [u8; 32],
}

impl View for Ed25519PublicKey {
    type V = Seq<u8>;

    closed spec fn view(&self) -> Seq<u8> {
        self.bytes@
    }
}

impl Ed25519PublicKey {
    /// Wraps raw bytes.
    pub fn from_bytes(bytes: [u8; 32]) -> (key: Self)
        ensures
            key@ == bytes@,
    {
        Ed25519PublicKey { bytes }
    }

    /// The 32 bytes of the key.
    pub fn as_bytes(&self) -> (bytes: &[u8; 32])
        ensures
            bytes@ == self@,
            self@.len() == 32,
    {
        assert(self.bytes@.len() == 32);
        &self.bytes
    }

    /// The peer identifier of the key.
    pub fn peer_id(&self) -> (id: PeerId)
        ensures
            id@ == peer_id_bytes(self@),
    {
        PeerId::from_ed25519(&self.bytes)
    }

    /// Checks that the bytes encode a curve point.
    pub fn verifying_key(&self) -> (r: Result<(), Error>)
        ensures
            match r {
                Ok(()) => point_complaint(self@) is None,
                Err(e) => point_complaint(self@) == Some(e@),
            },
    {
        match ed25519_parse(&self.bytes) {
            Ok(()) => Ok(()),
            Err(e) => Err(
                Error::IdentityVerify {
                    reason: "ed25519 public key bytes are not a valid curve point: ".to_owned().concat(
                        e.as_str(),
                    ),
                },
            ),
        }
    }
}

impl vstd::std_specs::convert::FromSpecImpl<[u8; 32]> for Ed25519PublicKey {
    open spec fn obeys_from_spec() -> bool {
        true
    }

    closed spec fn from_spec(bytes: [u8; 32]) -> Self {
        Ed25519PublicKey { bytes }
    }
}

impl From<[u8; 32]> for Ed25519PublicKey {
    fn from(bytes: [u8; 32]) -> (key: Self) {
        Ed25519PublicKey { bytes }
    }
}

/// An Ed25519 signature.
#[derive(Clone, Copy, Debug, PartialEq, Eq)]
pub struct Ed25519Signature {
    pub(crate) bytes: [u8; 64],
}

impl View for Ed25519Signature {
    type V = Seq<u8>;

    closed spec fn view(&self) -> Seq<u8> {
        self.bytes@
    }
}

impl Ed25519Signature {
    /// Wraps raw bytes.
    pub fn from_bytes(bytes: [u8; 64]) -> (signature: Self)
        ensures
            signature@ == bytes@,
    {
        Ed25519Signature { bytes }
    }

    /// The 64 bytes of the signature.
    pub fn as_bytes(&self) -> (bytes: &[u8; 64])
        ensures
            bytes@ == self@,
            self@.len() == 64,
    {
        assert(self.bytes@.len() == 64);
        &self.bytes
    }
}

impl vstd::std_specs::convert::FromSpecImpl<[u8; 64]> for Ed25519Signature {
    open spec fn obeys_from_spec() -> bool {
        true
    }

    closed spec fn from_spec(bytes: [u8; 64]) -> Self {
        Ed25519Signature { bytes }
    }
}

impl From<[u8; 64]> for Ed25519Signature {
    fn from(bytes: [u8; 64]) -> (signature: Self) {
        Ed25519Signature { bytes }
    }
}

/// A signing key and its public key.
pub struct Ed25519Keypair {
    seed: [u8; 32],
    public_key: Ed25519PublicKey,
}

impl View for Ed25519Keypair {
    type V = Seq<u8>;

    /// The seed, which determines the pair.
    closed spec fn view(&self) -> Seq<u8> {
        self.seed@
    }
}

impl Ed25519Keypair {
    #[verifier::type_invariant]
    closed spec fn matched(&self) -> bool {
        self.public_key@ == ed25519_public(self.seed@) && ed25519_is_point(self.public_key@)
    }

    /// The pair of a 32-byte seed.
    pub fn from_seed(seed: [u8; 32]) -> (pair: Self)
        ensures
            pair@ == seed@,
    {
        let public_key = Ed25519PublicKey { bytes: ed25519_public_key(&seed) };
        Ed25519Keypair { seed, public_key }
    }

    /// The public key.
    pub fn public(&self) -> (key: &Ed25519PublicKey)
        ensures
            key@ == ed25519_public(self@),
            ed25519_is_point(key@),
    {
        proof {
            use_type_invariant(self);
        }
        &self.public_key
    }

    /// The peer identifier of the public key.
    pub fn peer_id(&self) -> (id: PeerId)
        ensures
            id@ == peer_id_bytes(ed25519_public(self@)),
    {
        self.public().peer_id()
    }

    /// Signs `message`. The signature verifies under the public key unless its
    /// first half is the neutral element of the curve.
    pub fn try_sign(&self, message: &[u8]) -> (r: Result<Ed25519Signature, Error>)
        ensures
            r matches Ok(signature) && signature@ == ed25519_signature(self@, message@) && (
            !ed25519_is_neutral(signature@.take(32)) ==> ed25519_verifies(
                ed25519_public(self@),
                message@,
                signature@,
            )),
    {
        match ed25519_sign(&self.seed, message) {
            Ok(bytes) => Ok(Ed25519Signature { bytes }),
            Err(()) => Err(
                Error::IdentityVerify { reason: "ed25519 try_sign failed".to_owned() },
            ),
        }
    }
}

} // verus!
