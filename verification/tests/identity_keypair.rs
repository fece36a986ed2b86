//! Identity keypairs.

use libp2p_cat::error::Error;
use libp2p_cat::identity::Ed25519Keypair;

fn check(cond: bool, reason: impl FnOnce() -> String) -> Result<(), Error> {
    if cond {
        Ok(())
    } else {
        Err(Error::IdentityVerify { reason: reason() })
    }
}

#[test]
fn keypair_is_deterministic_from_seed() -> Result<(), Error> {
    let kp_a = Ed25519Keypair::from_seed([3u8; 32]);
    let kp_b = Ed25519Keypair::from_seed([3u8; 32]);
    check(kp_a.public().as_bytes() == kp_b.public().as_bytes(), || {
        "same seed produced different public keys".to_owned()
    })
}

#[test]
fn distinct_seeds_produce_distinct_public_keys() -> Result<(), Error> {
    let kp_a = Ed25519Keypair::from_seed([3u8; 32]);
    let kp_b = Ed25519Keypair::from_seed([4u8; 32]);
    check(kp_a.public().as_bytes() != kp_b.public().as_bytes(), || {
        "distinct seeds produced equal public keys".to_owned()
    })
}

#[test]
fn signing_is_deterministic_per_rfc_8032() -> Result<(), Error> {
    let kp = Ed25519Keypair::from_seed([5u8; 32]);
    let msg = b"payload to be signed twice";
    let sig_a = kp.try_sign(msg)?;
    let sig_b = kp.try_sign(msg)?;
    check(sig_a.as_bytes() == sig_b.as_bytes(), || {
        "two signings of the same message under the same key differ".to_owned()
    })
}

#[test]
fn peer_id_matches_public_key_path() -> Result<(), Error> {
    let kp = Ed25519Keypair::from_seed([6u8; 32]);
    let direct = kp.peer_id();
    let via_pub = kp.public().peer_id();
    check(direct == via_pub, || {
        "Keypair::peer_id and PublicKey::peer_id disagree".to_owned()
    })
}
