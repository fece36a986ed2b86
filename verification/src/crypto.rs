//! The cryptographic primitives that the stack builds on. Each function here
//! is one call into an outside crate; its contract is what the rest of the
//! library relies on.
use vstd::prelude::*;
use blake3;
use chacha20poly1305::aead::{Aead, KeyInit, Payload};
use chacha20poly1305::ChaCha20Poly1305;
use ed25519_dalek::ed25519::signature::Signer;
use ed25519_dalek::{Signature, SigningKey, VerifyingKey};
use x25519_dalek::{PublicKey, StaticSecret};

verus! {

/// The number of bytes by which authenticated encryption lengthens a message.
pub const AEAD_TAG_LEN: usize = 16;

/// The number of bytes from which on a message is too long to encrypt: the block
/// counter has room for 2^32 - 2 blocks of 64 bytes.
pub const AEAD_PLAINTEXT_LIMIT: u64 = 274_877_906_817;

/// The BLAKE3 hash of a byte string.
pub uninterp spec fn blake3_hash(data: Seq<u8>) -> Seq<u8>;

/// The BLAKE3 keyed hash of a byte string.
pub uninterp spec fn blake3_keyed_hash(key: Seq<u8>, data: Seq<u8>) -> Seq<u8>;

/// The first 64 bytes of the extended output of keyed BLAKE3.
pub uninterp spec fn blake3_keyed_xof64(key: Seq<u8>, data: Seq<u8>) -> Seq<u8>;

/// The ChaCha20-Poly1305 ciphertext, tag included.
pub uninterp spec fn aead_seal(
    key: Seq<u8>,
    nonce: Seq<u8>,
    aad: Seq<u8>,
    plaintext: Seq<u8>,
) -> Seq<u8>;

/// What a ChaCha20-Poly1305 ciphertext opens to, where it authenticates.
pub uninterp spec fn aead_open(
    key: Seq<u8>,
    nonce: Seq<u8>,
    aad: Seq<u8>,
    ciphertext: Seq<u8>,
) -> Option<Seq<u8>>;

/// The X25519 public key of a private key.
pub uninterp spec fn x25519_public(private: Seq<u8>) -> Seq<u8>;

/// The X25519 shared secret of a private and a public key.
pub uninterp spec fn x25519_shared(private: Seq<u8>, public: Seq<u8>) -> Seq<u8>;

/// The Ed25519 public key of a seed.
pub uninterp spec fn ed25519_public(seed: Seq<u8>) -> Seq<u8>;

/// The Ed25519 signature of a message.
pub uninterp spec fn ed25519_signature(seed: Seq<u8>, message: Seq<u8>) -> Seq<u8>;

/// Why 32 bytes are not the encoding of a curve point, if they are not.
pub uninterp spec fn ed25519_point_error(public: Seq<u8>) -> Option<Seq<char>>;

/// Why a signature does not verify strictly, if it does not.
pub uninterp spec fn ed25519_verify_error(
    public: Seq<u8>,
    message: Seq<u8>,
    signature: Seq<u8>,
) -> Option<Seq<char>>;

/// Whether 32 bytes are the encoding of a curve point.
pub open spec fn ed25519_is_point(public: Seq<u8>) -> bool {
    ed25519_point_error(public) is None
}

/// Whether a signature verifies strictly.
pub open spec fn ed25519_verifies(
    public: Seq<u8>,
    message: Seq<u8>,
    signature: Seq<u8>,
) -> bool {
    ed25519_verify_error(public, message, signature) is None
}

/// Whether 32 bytes are the encoding of the neutral element of the curve.
pub open spec fn ed25519_is_neutral(point: Seq<u8>) -> bool {
    point.len() == 32 && point[0] == 1 && forall|i: int| 1 <= i < 32 ==> point[i] == 0
}

/// Calls [`blake3::hash`]. The result is a function of the data.
#[verifier::external_body]
pub(crate) fn hash(data: &[u8]) -> (digest: [u8; 32])
    ensures
        digest@ == blake3_hash(data@),
{
    *blake3::hash(data).as_bytes()
}

/// Calls [`blake3::keyed_hash`]. The result is a function of key and data.
#[verifier::external_body]
pub(crate) fn keyed_hash(key: &[u8; 32], data: &[u8]) -> (digest: [u8; 32])
    ensures
        digest@ == blake3_keyed_hash(key@, data@),
{
    *blake3::keyed_hash(key, data).as_bytes()
}

/// Reads 64 bytes of the extended output of [`blake3::Hasher::new_keyed`]
/// after one `update`. They are a function of key and data.
#[verifier::external_body]
pub(crate) fn keyed_xof64(key: &[u8; 32], data: &[u8]) -> (output: [u8; 64])
    ensures
        output@ == blake3_keyed_xof64(key@, data@),
{
    let mut output = [0u8; 64];
    blake3::Hasher::new_keyed(key).update(data).finalize_xof().fill(&mut output);
    output
}

/// Calls `ChaCha20Poly1305::encrypt` on a message that fits the block counter,
/// on which it succeeds. The ciphertext is a function of the arguments, longer
/// than the message by the tag, and opens to the message again under the same
/// key, nonce and associated data.
#[verifier::external_body]
pub(crate) fn seal(key: &[u8; 32], nonce: &[u8; 12], aad: &[u8], plaintext: &[u8]) -> (r: Result<
    Vec<u8>,
    (),
>)
    requires
        plaintext@.len() < AEAD_PLAINTEXT_LIMIT,
    ensures
        r is Ok,
        r matches Ok(c) ==> {
            &&& c@ == aead_seal(key@, nonce@, aad@, plaintext@)
            &&& c@.len() == plaintext@.len() + AEAD_TAG_LEN
            &&& aead_open(key@, nonce@, aad@, c@) == Some(plaintext@)
        },
{
    let payload = Payload { msg: plaintext, aad };
    ChaCha20Poly1305::new(key.into()).encrypt(nonce.into(), payload).map_err(|_| ())
}

/// Calls `ChaCha20Poly1305::decrypt` on a ciphertext whose message fits the block
/// counter. Whether it succeeds, and with what, is a function of the arguments;
/// the message is shorter than the ciphertext by the tag.
#[verifier::external_body]
pub(crate) fn open(key: &[u8; 32], nonce: &[u8; 12], aad: &[u8], ciphertext: &[u8]) -> (r: Result<
    Vec<u8>,
    (),
>)
    requires
        ciphertext@.len() < AEAD_PLAINTEXT_LIMIT + AEAD_TAG_LEN,
    ensures
        match r {
            Ok(p) => aead_open(key@, nonce@, aad@, ciphertext@) == Some(p@) && ciphertext@.len()
                == p@.len() + AEAD_TAG_LEN,
            Err(_) => aead_open(key@, nonce@, aad@, ciphertext@) is None,
        },
{
    let payload = Payload { msg: ciphertext, aad };
    ChaCha20Poly1305::new(key.into()).decrypt(nonce.into(), payload).map_err(|_| ())
}

/// Derives [`x25519_dalek::PublicKey`] from a `StaticSecret`. The result is a
/// function of the private key.
#[verifier::external_body]
pub(crate) fn x25519_public_key(private: &[u8; 32]) -> (public: [u8; 32])
    ensures
        public@ == x25519_public(private@),
{
    PublicKey::from(&StaticSecret::from(*private)).to_bytes()
}

/// Calls `StaticSecret::diffie_hellman`. The result is a function of the two
/// keys. Where the public key belongs to some private key, the owner of that
/// key computes the same secret from the public key of `private`.
#[verifier::external_body]
pub(crate) fn x25519_diffie_hellman(private: &[u8; 32], public: &[u8; 32]) -> (secret: [u8; 32])
    ensures
        secret@ == x25519_shared(private@, public@),
        forall|other: Seq<u8>|
            other.len() == 32 && public@ == #[trigger] x25519_public(other) ==> secret@
                == x25519_shared(other, x25519_public(private@)),
{
    StaticSecret::from(*private).diffie_hellman(&PublicKey::from(*public)).to_bytes()
}

/// Derives the public key of [`ed25519_dalek::SigningKey::from_bytes`]. The
/// result is a function of the seed, and encodes a curve point.
#[verifier::external_body]
pub(crate) fn ed25519_public_key(seed: &[u8; 32]) -> (public: [u8; 32])
    ensures
        public@ == ed25519_public(seed@),
        ed25519_is_point(public@),
{
    SigningKey::from_bytes(seed).verifying_key().to_bytes()
}

/// Calls `SigningKey::try_sign`, which does not fail. The signature is a
/// function of seed and message, and verifies strictly under the public key of
/// the seed unless its first half is the neutral element.
#[verifier::external_body]
pub(crate) fn ed25519_sign(seed: &[u8; 32], message: &[u8]) -> (r: Result<[u8; 64], ()>)
    ensures
        r is Ok,
        r matches Ok(s) ==> {
            &&& s@ == ed25519_signature(seed@, message@)
            &&& !ed25519_is_neutral(s@.take(32)) ==> ed25519_verifies(
                ed25519_public(seed@),
                message@,
                s@,
            )
        },
{
    SigningKey::from_bytes(seed).try_sign(message).map(|s| s.to_bytes()).map_err(|_| ())
}

/// Calls [`ed25519_dalek::VerifyingKey::from_bytes`]. Whether it succeeds, and
/// the words of its error, are a function of the bytes.
#[verifier::external_body]
pub(crate) fn ed25519_parse(public: &[u8; 32]) -> (r: Result<(), String>)
    ensures
        match r {
            Ok(()) => ed25519_point_error(public@) is None,
            Err(e) => ed25519_point_error(public@) == Some(e@),
        },
{
    VerifyingKey::from_bytes(public).map(|_| ()).map_err(|e| e.to_string())
}

/// Calls `VerifyingKey::verify_strict` on a key that parses. The verdict, and the
/// words of its error, are a function of key, message and signature.
#[verifier::external_body]
pub(crate) fn ed25519_verify(public: &[u8; 32], message: &[u8], signature: &[u8; 64]) -> (r: Result<
    (),
    String,
>)
    requires
        ed25519_is_point(public@),
    ensures
        match r {
            Ok(()) => ed25519_verify_error(public@, message@, signature@) is None,
            Err(e) => ed25519_verify_error(public@, message@, signature@) == Some(e@),
        },
{
    VerifyingKey::from_bytes(public)
        .and_then(|key| key.verify_strict(message, &Signature::from_bytes(signature)))
        .map_err(|e| e.to_string())
}

} // verus!
