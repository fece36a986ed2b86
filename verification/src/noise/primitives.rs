//! X25519 keys and Diffie-Hellman outputs, each a type of its own.
use vstd::prelude::*;
use crate::crypto::{x25519_diffie_hellman, x25519_public, x25519_public_key, x25519_shared};

verus! {

/// The length of every key in bytes.
pub const KEY_LEN: usize = 32;

/// A long-lived private key.
pub struct StaticPrivateKey {
    pub(crate) bytes: [u8; 32],
}

impl View for StaticPrivateKey {
    type V = Seq<u8>;

    closed spec fn view(&self) -> Seq<u8> {
        self.bytes@
    }
}

impl Clone for StaticPrivateKey {
    fn clone(&self) -> (copy: Self)
        ensures
            copy == *self,
    {
        StaticPrivateKey { bytes: self.bytes }
    }
}

impl StaticPrivateKey {
    /// Wraps raw bytes.
    pub fn from_bytes(bytes: [u8; 32]) -> (key: Self)
        ensures
            key@ == bytes@,
    {
        StaticPrivateKey { bytes }
    }

    /// The raw bytes.
    pub fn as_bytes(&self) -> (bytes: &[u8; 32])
        ensures
            bytes@ == self@,
    {
        &self.bytes
    }
}

/// A long-lived public key.
#[derive(Clone, Copy, Debug, PartialEq, Eq, Hash, PartialOrd, Ord)]
pub struct StaticPublicKey {
    pub(crate) bytes: [u8; 32],
}

impl View for StaticPublicKey {
    type V = Seq<u8>;

    closed spec fn view(&self) -> Seq<u8> {
        self.bytes@
    }
}

impl StaticPublicKey {
    /// Wraps raw bytes.
    pub fn from_bytes(bytes: [u8; 32]) -> (key: Self)
        ensures
            key@ == bytes@,
    {
        StaticPublicKey { bytes }
    }

    /// The raw bytes.
    pub fn as_bytes(&self) -> (bytes: &[u8; 32])
        ensures
            bytes@ == self@,
    {
        &self.bytes
    }
}

/// A private key together with its public key.
pub struct StaticKeypair {
    pub(crate) private: StaticPrivateKey,
    pub(crate) public: StaticPublicKey,
}

impl View for StaticKeypair {
    type V = Seq<u8>;

    /// The private key, which determines the pair.
    closed spec fn view(&self) -> Seq<u8> {
        self.private@
    }
}

impl Clone for StaticKeypair {
    fn clone(&self) -> (copy: Self)
        ensures
            copy == *self,
    {
        proof {
            use_type_invariant(self);
        }
        StaticKeypair { private: self.private.clone(), public: self.public }
    }
}

impl StaticKeypair {
    #[verifier::type_invariant]
    pub(crate) closed spec fn matched(&self) -> bool {
        self.public@ == x25519_public(self.private@)
    }

    /// The pair of a private key.
    pub fn from_private_bytes(private_bytes: [u8; 32]) -> (pair: Self)
        ensures
            pair@ == private_bytes@,
    {
        let public_bytes = x25519_public_key(&private_bytes);
        StaticKeypair {
            private: StaticPrivateKey { bytes: private_bytes },
            public: StaticPublicKey { bytes: public_bytes },
        }
    }

    /// The private key.
    pub fn private(&self) -> (key: &StaticPrivateKey)
        ensures
            key@ == self@,
            key@.len() == 32,
    {
        assert(self.private.bytes@.len() == 32);
        &self.private
    }

    /// The public key.
    pub fn public(&self) -> (key: &StaticPublicKey)
        ensures
            key@ == x25519_public(self@),
            key@.len() == 32,
    {
        proof {
            use_type_invariant(self);
        }
        assert(self.public.bytes@.len() == 32);
        &self.public
    }
}

/// A private key that lives for one handshake.
pub struct EphemeralPrivateKey {
    pub(crate) bytes: [u8; 32],
}

impl View for EphemeralPrivateKey {
    type V = Seq<u8>;

    closed spec fn view(&self) -> Seq<u8> {
        self.bytes@
    }
}

impl Clone for EphemeralPrivateKey {
    fn clone(&self) -> (copy: Self)
        ensures
            copy == *self,
    {
        EphemeralPrivateKey { bytes: self.bytes }
    }
}

impl EphemeralPrivateKey {
    /// The key of a random seed.
    pub fn from_seed(seed: [u8; 32]) -> (key: Self)
        ensures
            key@ == seed@,
    {
        EphemeralPrivateKey { bytes: seed }
    }

    /// Its public key.
    pub fn public(&self) -> (key: EphemeralPublicKey)
        ensures
            key@ == x25519_public(self@),
            key@.len() == 32,
            self@.len() == 32,
    {
        assert(self.bytes@.len() == 32);
        let key = EphemeralPublicKey { bytes: x25519_public_key(&self.bytes) };
        assert(key.bytes@.len() == 32);
        key
    }
}

/// A public key that lives for one handshake.
#[derive(Clone, Copy, Debug, PartialEq, Eq)]
pub struct EphemeralPublicKey {
    pub(crate) bytes: [u8; 32],
}

impl View for EphemeralPublicKey {
    type V = Seq<u8>;

    closed spec fn view(&self) -> Seq<u8> {
        self.bytes@
    }
}

impl EphemeralPublicKey {
    /// Wraps raw bytes.
    pub fn from_bytes(bytes: [u8; 32]) -> (key: Self)
        ensures
            key@ == bytes@,
    {
        EphemeralPublicKey { bytes }
    }

    /// The raw bytes.
    pub fn as_bytes(&self) -> (bytes: &[u8; 32])
        ensures
            bytes@ == self@,
    {
        &self.bytes
    }
}

/// The output of one Diffie-Hellman step.
pub struct DhOutput {
    pub(crate) bytes: [u8; 32],
}

impl View for DhOutput {
    type V = Seq<u8>;

    closed spec fn view(&self) -> Seq<u8> {
        self.bytes@
    }
}

impl DhOutput {
    /// The raw bytes.
    pub fn as_bytes(&self) -> (bytes: &[u8; 32])
        ensures
            bytes@ == self@,
    {
        &self.bytes
    }
}

/// The owner of the other private key computes the same secret from the public
/// key of `private`.
pub open spec fn dh_agrees(secret: Seq<u8>, private: Seq<u8>, public: Seq<u8>) -> bool {
    forall|other: Seq<u8>|
        other.len() == 32 && public == #[trigger] x25519_public(other) ==> secret == x25519_shared(
            other,
            x25519_public(private),
        )
}

/// Diffie-Hellman between two ephemeral keys.
pub fn dh_ee(private: &EphemeralPrivateKey, public: &EphemeralPublicKey) -> (out: DhOutput)
    ensures
        out@ == x25519_shared(private@, public@),
        dh_agrees(out@, private@, public@),
{
    DhOutput { bytes: x25519_diffie_hellman(&private.bytes, &public.bytes) }
}

/// Diffie-Hellman between an own ephemeral and a remote static key.
pub fn dh_es(private: &EphemeralPrivateKey, public: &StaticPublicKey) -> (out: DhOutput)
    ensures
        out@ == x25519_shared(private@, public@),
        dh_agrees(out@, private@, public@),
{
    DhOutput { bytes: x25519_diffie_hellman(&private.bytes, &public.bytes) }
}

/// Diffie-Hellman between an own static and a remote ephemeral key.
pub fn dh_se(private: &StaticPrivateKey, public: &EphemeralPublicKey) -> (out: DhOutput)
    ensures
        out@ == x25519_shared(private@, public@),
        dh_agrees(out@, private@, public@),
{
    DhOutput { bytes: x25519_diffie_hellman(&private.bytes, &public.bytes) }
}

} // verus!
