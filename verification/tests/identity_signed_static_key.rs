//! Static keys signed by an identity.

use libp2p_cat::error::Error;
use libp2p_cat::identity::{Ed25519Keypair, SignedStaticKey, ED25519_PUBLIC_KEY_LEN};
use libp2p_cat::noise::StaticKeypair;

fn check(cond: bool, reason: impl FnOnce() -> String) -> Result<(), Error> {
    if cond {
        Ok(())
    } else {
        Err(Error::IdentityVerify { reason: reason() })
    }
}

fn fixtures() -> (Ed25519Keypair, StaticKeypair) {
    let identity = Ed25519Keypair::from_seed([7u8; 32]);
    let static_keypair = StaticKeypair::from_private_bytes([9u8; 32]);
    (identity, static_keypair)
}

#[test]
fn create_then_verify_returns_matching_peer_id() -> Result<(), Error> {
    let (identity, static_keypair) = fixtures();
    let signed = SignedStaticKey::create(&identity, static_keypair.public())?;
    let (verified_public, verified_peer_id) = signed.verify(static_keypair.public())?;
    check(verified_public == *identity.public(), || {
        "verified public key does not match signing identity".to_owned()
    })?;
    check(verified_peer_id == identity.peer_id(), || {
        "verified peer id does not match signing identity".to_owned()
    })
}

#[test]
fn wire_round_trip_preserves_payload() -> Result<(), Error> {
    let (identity, static_keypair) = fixtures();
    let signed = SignedStaticKey::create(&identity, static_keypair.public())?;
    let bytes = signed.to_bytes();
    check(bytes.len() == SignedStaticKey::WIRE_LEN, || {
        format!(
            "wire payload {} bytes, expected {}",
            bytes.len(),
            SignedStaticKey::WIRE_LEN
        )
    })?;
    let parsed = SignedStaticKey::from_bytes(&bytes)?;
    check(parsed == signed, || {
        "decoded SignedStaticKey differs from original".to_owned()
    })
}

#[test]
fn verify_rejects_mismatched_static_key() -> Result<(), Error> {
    let (identity, alice_static) = fixtures();
    let bob_static = StaticKeypair::from_private_bytes([0xAAu8; 32]);
    // Sign Alice's X25519 public key but try to verify against
    // Bob's: the input bytes that produce the expected signature
    // differ, so verify must reject.
    let signed = SignedStaticKey::create(&identity, alice_static.public())?;
    match signed.verify(bob_static.public()) {
        Err(Error::IdentityVerify { .. }) => Ok(()),
        Err(
            other @ (Error::Io(_)
            | Error::InvalidProtocolId { .. }
            | Error::InvalidPeerId { .. }
            | Error::DatagramTooLarge { .. }
            | Error::NoiseDecrypt
            | Error::NoiseProtocol { .. }
            | Error::NoiseReplay { .. }
            | Error::RlncLayer { .. }
            | Error::PubsubProtocol { .. }
            | Error::HostState { .. }),
        ) => Err(Error::IdentityVerify {
            reason: format!("expected IdentityVerify, got {other:?}"),
        }),
        Ok((_pk, _peer_id)) => Err(Error::IdentityVerify {
            reason: "verify should have rejected mismatched X25519 key".to_owned(),
        }),
    }
}

#[test]
fn verify_rejects_tampered_signature() -> Result<(), Error> {
    let (identity, static_keypair) = fixtures();
    let signed = SignedStaticKey::create(&identity, static_keypair.public())?;
    let original = signed.to_bytes();
    // Flip the first signature byte.
    let bytes: [u8; SignedStaticKey::WIRE_LEN] = core::array::from_fn(|i| {
        let raw = original.get(i).copied().unwrap_or(0);
        if i == ED25519_PUBLIC_KEY_LEN {
            raw ^ 0x80
        } else {
            raw
        }
    });
    let tampered = SignedStaticKey::from_bytes(&bytes)?;
    match tampered.verify(static_keypair.public()) {
        Err(Error::IdentityVerify { .. }) => Ok(()),
        Err(
            other @ (Error::Io(_)
            | Error::InvalidProtocolId { .. }
            | Error::InvalidPeerId { .. }
            | Error::DatagramTooLarge { .. }
            | Error::NoiseDecrypt
            | Error::NoiseProtocol { .. }
            | Error::NoiseReplay { .. }
            | Error::RlncLayer { .. }
            | Error::PubsubProtocol { .. }
            | Error::HostState { .. }),
        ) => Err(Error::IdentityVerify {
            reason: format!("expected IdentityVerify, got {other:?}"),
        }),
        Ok((_pk, _peer_id)) => Err(Error::IdentityVerify {
            reason: "verify should have rejected tampered signature".to_owned(),
        }),
    }
}

#[test]
fn from_bytes_rejects_short_payload() -> Result<(), Error> {
    let too_short = [0u8; SignedStaticKey::WIRE_LEN - 1];
    match SignedStaticKey::from_bytes(&too_short) {
        Err(Error::IdentityVerify { .. }) => Ok(()),
        Err(
            other @ (Error::Io(_)
            | Error::InvalidProtocolId { .. }
            | Error::InvalidPeerId { .. }
            | Error::DatagramTooLarge { .. }
            | Error::NoiseDecrypt
            | Error::NoiseProtocol { .. }
            | Error::NoiseReplay { .. }
            | Error::RlncLayer { .. }
            | Error::PubsubProtocol { .. }
            | Error::HostState { .. }),
        ) => Err(Error::IdentityVerify {
            reason: format!("expected IdentityVerify, got {other:?}"),
        }),
        Ok(parsed) => Err(Error::IdentityVerify {
            reason: format!("from_bytes should have rejected short input, got {parsed:?}"),
        }),
    }
}

#[test]
fn distinct_static_keys_produce_distinct_signatures() -> Result<(), Error> {
    let identity = Ed25519Keypair::from_seed([7u8; 32]);
    let static_a = StaticKeypair::from_private_bytes([9u8; 32]);
    let static_b = StaticKeypair::from_private_bytes([0xBBu8; 32]);
    let signed_a = SignedStaticKey::create(&identity, static_a.public())?;
    let signed_b = SignedStaticKey::create(&identity, static_b.public())?;
    check(
        signed_a.signature().as_bytes() != signed_b.signature().as_bytes(),
        || "signatures over distinct static keys collided".to_owned(),
    )
}
