//! Key derivation and authenticated encryption.

use libp2p_cat::error::Error;
use libp2p_cat::noise::primitives::KEY_LEN;
use libp2p_cat::noise::symmetric::{aead_decrypt, aead_encrypt, kdf_two};

fn check(cond: bool, reason: impl FnOnce() -> String) -> Result<(), Error> {
    if cond {
        Ok(())
    } else {
        Err(Error::NoiseProtocol { reason: reason() })
    }
}

#[test]
fn aead_round_trip_through_helpers() -> Result<(), Error> {
    let key = [9u8; KEY_LEN];
    let aad = b"associated-data";
    let plaintext = b"the quick brown fox";
    let ciphertext = aead_encrypt(&key, 17, aad, plaintext)?;
    let recovered = aead_decrypt(&key, 17, aad, &ciphertext)?;
    check(recovered == plaintext, || {
        format!("decrypted bytes do not match plaintext: {recovered:?}")
    })
}

#[test]
fn aead_decrypt_rejects_wrong_nonce() -> Result<(), Error> {
    let key = [9u8; KEY_LEN];
    let aad = b"";
    let ciphertext = aead_encrypt(&key, 1, aad, b"hello")?;
    match aead_decrypt(&key, 2, aad, &ciphertext) {
        Err(Error::NoiseDecrypt) => Ok(()),
        Err(
            other @ (Error::Io(_)
            | Error::InvalidProtocolId { .. }
            | Error::InvalidPeerId { .. }
            | Error::DatagramTooLarge { .. }
            | Error::NoiseProtocol { .. }
            | Error::NoiseReplay { .. }
            | Error::RlncLayer { .. }
            | Error::PubsubProtocol { .. }
            | Error::HostState { .. }
            | Error::IdentityVerify { .. }),
        ) => Err(Error::NoiseProtocol {
            reason: format!("expected NoiseDecrypt, got {other:?}"),
        }),
        Ok(bytes) => Err(Error::NoiseProtocol {
            reason: format!("expected NoiseDecrypt, got Ok({bytes:?})"),
        }),
    }
}

#[test]
fn kdf_outputs_are_deterministic_and_distinct() -> Result<(), Error> {
    let key = [1u8; KEY_LEN];
    let (a, b) = kdf_two(&key, b"input");
    let (a2, b2) = kdf_two(&key, b"input");
    check(a == a2, || "first kdf output not deterministic".to_owned())?;
    check(b == b2, || "second kdf output not deterministic".to_owned())?;
    check(a != b, || "kdf halves must be distinct".to_owned())
}
