//! Exact values: published vectors, byte layouts and texts.

use std::sync::Arc;

use chacha20poly1305::aead::{Aead, KeyInit, Payload};
use chacha20poly1305::{ChaCha20Poly1305, Key, Nonce};
use ed25519_dalek::{Signature, Signer, SigningKey, VerifyingKey};
use libp2p_cat::addr::UdpAddr;
use libp2p_cat::error::Error;
use libp2p_cat::host::cookie::{challenge, mint};
use libp2p_cat::identity::{Ed25519Keypair, Ed25519PublicKey, SignedStaticKey, DOMAIN_TAG};
use libp2p_cat::kad::{
    decode as kad_decode, encode as kad_encode, Distance, Frame, NodeId, Opcode,
};
use libp2p_cat::noise::primitives::{dh_se, EphemeralPublicKey, StaticKeypair};
use libp2p_cat::noise::symmetric::{aead_decrypt, aead_encrypt, kdf_two, PROTOCOL_NAME};
use libp2p_cat::noise::{Initiator, StaticPublicKey, TransportState};
use libp2p_cat::peer_id::PeerId;
use libp2p_cat::pubsub::lattice::{signature_from_bytes, signature_to_vec, signature_width};
use libp2p_cat::pubsub::{
    encode as pubsub_encode, KeyedHashAuthenticator, NullAuthenticator, PubsubState, Topic,
    WireAuthenticator, WirePiece,
};
use libp2p_cat::rlnc::CodedPiece;
use rlnc_cat_rs::coding::piece::OriginalData;

fn unhex(text: &str) -> Vec<u8> {
    (0..text.len() / 2)
        .map(|i| u8::from_str_radix(&text[2 * i..2 * i + 2], 16).unwrap_or(0))
        .collect()
}

fn array<const N: usize>(text: &str) -> [u8; N] {
    let bytes = unhex(text);
    core::array::from_fn(|i| bytes[i])
}

#[test]
fn error_texts() {
    let r = || "why".to_owned();
    let cases = [
        (Error::Io(r()), "I/O error: why"),
        (Error::InvalidProtocolId { reason: r() }, "invalid protocol id: why"),
        (Error::InvalidPeerId { reason: r() }, "invalid peer id: why"),
        (Error::DatagramTooLarge { size: 70000 }, "datagram too large: 70000 bytes"),
        (Error::NoiseDecrypt, "noise decryption failed"),
        (Error::NoiseProtocol { reason: r() }, "noise protocol error: why"),
        (Error::NoiseReplay { nonce: 7 }, "noise replay: nonce 7 rejected"),
        (Error::RlncLayer { reason: r() }, "rlnc error: why"),
        (Error::PubsubProtocol { reason: r() }, "pubsub protocol error: why"),
        (Error::HostState { reason: r() }, "host state error: why"),
        (Error::IdentityVerify { reason: r() }, "identity verification failed: why"),
    ];
    for (error, text) in cases {
        assert_eq!(error.describe(), text);
    }
}

#[test]
fn address_texts() {
    assert_eq!(UdpAddr::v4([192, 0, 2, 10], 4000).describe(), "192.0.2.10:4000");
    assert_eq!(UdpAddr::v4([0, 0, 0, 0], 0).describe(), "0.0.0.0:0");
    let v6 = UdpAddr::V6 {
        ip6: 0x2001_0db8_0000_0000_0000_0000_0000_0001,
        port: 65535,
        flowinfo: 1,
        scope_id: 2,
    };
    assert_eq!(v6.describe(), "[2001:0db8:0000:0000:0000:0000:0000:0001]:65535");
}

#[test]
fn x25519_agrees_with_rfc_7748() {
    let pair = StaticKeypair::from_private_bytes(array(
        "a546e36bf0527c9d3b16154b82465edd62144c0ac1fc5a18506a2244ba449ac4",
    ));
    let point = EphemeralPublicKey::from_bytes(array(
        "e6db6867583030db3594c1a424b15f7c726624ec26b3353b10a903a6d0ab1c4c",
    ));
    let expected: [u8; 32] =
        array("c3da55379de9c6908e94ea4df28d084f32eccf03491c71f754b4075577a28552");
    assert_eq!(dh_se(pair.private(), &point).as_bytes(), &expected);

    let nine: [u8; 32] = core::array::from_fn(|i| if i == 0 { 9 } else { 0 });
    let public: [u8; 32] =
        array("422c8e7a6227d7bca1350b3e2bb7279f7897b87bb6854b783c60e80311ae3079");
    assert_eq!(
        StaticKeypair::from_private_bytes(nine).public().as_bytes(),
        &public
    );
}

#[test]
fn identity_signatures_are_ed25519() -> Result<(), Error> {
    let seed = [0x42; 32];
    let outer = SigningKey::from_bytes(&seed);
    let pair = Ed25519Keypair::from_seed(seed);
    assert_eq!(pair.public().as_bytes(), &outer.verifying_key().to_bytes());
    let signature = pair.try_sign(b"message")?;
    assert_eq!(signature.as_bytes(), &outer.sign(b"message").to_bytes());
    Ok(())
}

#[test]
fn signed_static_key_signs_tag_and_key() -> Result<(), Error> {
    assert_eq!(&DOMAIN_TAG, b"libp2p-cat-identity-static-key:");
    let seed = [0x43; 32];
    let key = StaticPublicKey::from_bytes([0x44; 32]);
    let signed = SignedStaticKey::create(&Ed25519Keypair::from_seed(seed), &key)?;
    let input: Vec<u8> = DOMAIN_TAG.iter().copied().chain([0x44; 32]).collect();
    let outer = SigningKey::from_bytes(&seed);
    let expected: Vec<u8> = outer
        .verifying_key()
        .to_bytes()
        .into_iter()
        .chain(outer.sign(&input).to_bytes())
        .collect();
    assert_eq!(signed.to_bytes().to_vec(), expected);
    Ok(())
}

#[test]
fn bytes_off_the_curve_are_no_public_key() {
    // Half of all encodings are no point; at least one of these is not.
    let refused = (0u8..16)
        .filter(|b| {
            let bytes: [u8; 32] = core::array::from_fn(|i| if i == 0 { *b } else { 0x11 });
            let ours = Ed25519PublicKey::from_bytes(bytes)
                .verifying_key()
                .map_err(|e| e.describe());
            let outer = VerifyingKey::from_bytes(&bytes).map(|_| ()).map_err(|e| {
                format!(
                    "identity verification failed: ed25519 public key bytes are not a valid curve point: {e}"
                )
            });
            assert_eq!(ours, outer);
            ours.is_err()
        })
        .count();
    assert!(refused > 0);
}

#[test]
fn peer_id_layout() {
    let id = PeerId::from_ed25519(&[0xAB; 32]);
    let expected: Vec<u8> = [0x00, 0x24, 0x08, 0x01, 0x12, 0x20]
        .into_iter()
        .chain([0xAB; 32])
        .collect();
    assert_eq!(id.as_bytes(), expected.as_slice());
}

#[test]
fn node_id_is_the_hash_of_the_peer_id() {
    let id = PeerId::from_ed25519(&[0xAB; 32]);
    assert_eq!(
        NodeId::from_peer_id(&id).as_bytes(),
        blake3::hash(id.as_bytes()).as_bytes()
    );
    assert_eq!(NodeId::from([7; 32]), NodeId::from_bytes([7; 32]));
}

#[test]
fn distance_bytes_and_text() {
    let a = NodeId::from_bytes([0xF0; 32]);
    let b = NodeId::from_bytes([0x0F; 32]);
    assert_eq!(a.distance(&b).as_bytes(), &[0xFF; 32]);
    assert_eq!(
        Distance::from_bytes([0x5A; 32]).describe(),
        format!("xor:{}", "5a".repeat(32))
    );
    assert_eq!(a.describe(), format!("kad:{}", "f0".repeat(32)));
    let d = Distance::from_bytes(core::array::from_fn(|i| if i == 2 { 0x10 } else { 0 }));
    assert_eq!(d.leading_zeros(), 19);
    assert_eq!(d.bucket_index(), Some(236));
}

#[test]
fn cookie_is_a_truncated_keyed_hash() {
    let secret = [7u8; 32];
    let e = [9u8; 32];
    let input: Vec<u8> = b"libp2p-cat-host cookie v1"
        .iter()
        .copied()
        .chain([0x04, 192, 0, 2, 7])
        .chain(4000u16.to_be_bytes())
        .chain(e)
        .collect();
    let hash = blake3::keyed_hash(&secret, &input);
    let mac = mint(&secret, UdpAddr::v4([192, 0, 2, 7], 4000), &e);
    assert_eq!(&mac[..], &hash.as_bytes()[..16]);

    let reply = challenge(&secret, UdpAddr::v4([192, 0, 2, 7], 4000), &e);
    assert_eq!(reply[0], 0xC0);
    assert_eq!(&reply[1..], &mac[..]);
}

#[test]
fn kdf_reads_the_keyed_output() {
    let key = [3u8; 32];
    let mut out = [0u8; 64];
    blake3::Hasher::new_keyed(&key).update(b"input").finalize_xof().fill(&mut out);
    let (a, b) = kdf_two(&key, b"input");
    assert_eq!(&a[..], &out[..32]);
    assert_eq!(&b[..], &out[32..]);
}

/// Encryption with the outside crate, under a counter.
fn outer_seal(key: [u8; 32], counter: u64, aad: &[u8], msg: &[u8]) -> Vec<u8> {
    let nonce: Vec<u8> = [0u8; 4].into_iter().chain(counter.to_le_bytes()).collect();
    ChaCha20Poly1305::new(Key::from_slice(&key))
        .encrypt(Nonce::from_slice(&nonce), Payload { msg, aad })
        .unwrap_or_default()
}

#[test]
fn aead_takes_the_counter_as_its_nonce() -> Result<(), Error> {
    let expected = outer_seal([5; 32], 0x0102_0304, b"aad", b"message");
    assert_eq!(expected.len(), 7 + 16);
    let sealed = aead_encrypt(&[5; 32], 0x0102_0304, b"aad", b"message")?;
    assert_eq!(sealed, expected);
    assert_eq!(aead_decrypt(&[5; 32], 0x0102_0304, b"aad", &sealed)?, b"message");
    assert!(matches!(
        aead_decrypt(&[5; 32], 0x0102_0304, b"other", &sealed),
        Err(Error::NoiseDecrypt)
    ));
    Ok(())
}

#[test]
fn transport_datagram_layout() -> Result<(), Error> {
    let session = TransportState::new([1; 32], [2; 32]);
    let (session, first) = session.encrypt(b"one")?;
    let (session, second) = session.encrypt(b"two")?;
    let layout = |n: u64, msg: &[u8]| -> Vec<u8> {
        n.to_be_bytes()
            .into_iter()
            .chain(outer_seal([1; 32], n, b"", msg))
            .collect()
    };
    assert_eq!(first, layout(0, b"one"));
    assert_eq!(second, layout(1, b"two"));
    assert_eq!(session.send_nonce(), 2);
    assert_eq!(session.recv_max_nonce(), 0);
    Ok(())
}

#[test]
fn first_message_is_the_ephemeral_key() -> Result<(), Error> {
    assert_eq!(&PROTOCOL_NAME[..], b"Noise_XX_25519_ChaChaPoly_BLAKE3");
    let seed = [0x31; 32];
    let pair = StaticKeypair::from_private_bytes([0x32; 32]);
    let (_, msg1) = Initiator::new(pair).write_e(seed)?;
    let ephemeral = StaticKeypair::from_private_bytes(seed);
    assert_eq!(msg1, ephemeral.public().as_bytes().to_vec());
    Ok(())
}

#[test]
fn kad_frame_layout() -> Result<(), Error> {
    let peers = vec![
        (NodeId::from_bytes([1; 32]), UdpAddr::v4([10, 0, 0, 1], 0x1234)),
        (
            NodeId::from_bytes([2; 32]),
            UdpAddr::V6 {
                ip6: 0x2001_0db8_0000_0000_0000_0000_0000_0005,
                port: 7,
                flowinfo: 0,
                scope_id: 0,
            },
        ),
    ];
    let bytes = kad_encode(&Frame::FindNodeResp { peers })?;
    let expected: Vec<u8> = [3u8, 2]
        .into_iter()
        .chain([1; 32])
        .chain([0x04, 10, 0, 0, 1, 0x12, 0x34])
        .chain([2; 32])
        .chain([0x06, 0x20, 0x01, 0x0d, 0xb8])
        .chain([0; 11])
        .chain([5, 0, 7])
        .collect();
    assert_eq!(bytes, expected);
    assert_eq!(Opcode::FindNodeResp.to_byte(), 3);
    assert_eq!(Opcode::from_byte(2)?, Opcode::FindNodeReq);
    assert!(matches!(Opcode::from_byte(4), Err(Error::PubsubProtocol { .. })));
    // A trailing byte is refused.
    let longer: Vec<u8> = bytes.into_iter().chain([0]).collect();
    assert!(matches!(kad_decode(&longer), Err(Error::PubsubProtocol { .. })));
    Ok(())
}

#[test]
fn too_many_peers_do_not_fit_a_frame() {
    let peers: Vec<(NodeId, UdpAddr)> = (0..256u16)
        .map(|i| (NodeId::from_bytes([1; 32]), UdpAddr::v4([10, 0, 0, 1], i)))
        .collect();
    assert!(matches!(
        kad_encode(&Frame::FindNodeResp { peers }),
        Err(Error::PubsubProtocol { .. })
    ));
}

#[test]
fn pubsub_frame_layout() -> Result<(), Error> {
    let topic = Topic::try_from("/t")?;
    let piece = CodedPiece { coding_vector: vec![1, 2], data: vec![9, 8, 7] };
    let wp: WirePiece<NullAuthenticator> = WirePiece::new((), piece, ());
    assert_eq!(
        pubsub_encode(&topic, 2, 3, &wp)?,
        vec![2, b'/', b't', 0, 0, 0, 2, 0, 0, 0, 3, 1, 2, 9, 8, 7]
    );
    Ok(())
}

#[test]
fn keyed_hash_commitment_and_tag() -> Result<(), Error> {
    let key = [0x42; 32];
    let auth = KeyedHashAuthenticator::new(key);
    // Two pieces of three bytes: the data, the marker, padding.
    let data = OriginalData::from_bytes(b"hello", 2).map_err(|e| Error::RlncLayer {
        reason: e.to_string(),
    })?;
    let padded = [b'h', b'e', b'l', b'l', b'o', 0x81];
    let commitment = auth.commit(&data);
    assert_eq!(commitment.as_bytes(), blake3::hash(&padded).as_bytes());
    let state = PubsubState::new(Arc::new(KeyedHashAuthenticator::new(key)));
    assert_eq!(state.commit(&data), commitment);

    let piece = CodedPiece { coding_vector: vec![1, 0], data: vec![b'h', b'e', b'l'] };
    let input: Vec<u8> = commitment
        .as_bytes()
        .iter()
        .copied()
        .chain([1, 0, b'h', b'e', b'l'])
        .collect();
    let tag = auth.tag(&commitment, &piece);
    assert_eq!(tag.as_bytes(), blake3::keyed_hash(&key, &input).as_bytes());
    assert!(auth.verify(&commitment, &piece, &tag).is_ok());
    assert!(KeyedHashAuthenticator::new([0x43; 32])
        .verify(&commitment, &piece, &tag)
        .is_err());
    Ok(())
}

#[test]
fn lattice_block_layout() -> Result<(), Error> {
    let entries = [5i64, -1, i64::MIN];
    let bytes = signature_to_vec(&entries).unwrap_or_default();
    let expected: Vec<u8> = [0, 0, 0, 3]
        .into_iter()
        .chain([0, 0, 0, 0, 0, 0, 0, 5])
        .chain([0xFF; 8])
        .chain([0x80, 0, 0, 0, 0, 0, 0, 0])
        .collect();
    assert_eq!(bytes, expected);
    let followed: Vec<u8> = bytes.iter().copied().chain([7, 7]).collect();
    assert_eq!(signature_width(&followed), Some(28));
    assert_eq!(signature_width(&bytes[..27]), None);
    assert_eq!(signature_width(&[0, 0, 0]), None);
    assert_eq!(signature_from_bytes(&bytes)?, entries.to_vec());
    assert!(matches!(
        signature_from_bytes(&followed),
        Err(Error::PubsubProtocol { .. })
    ));
    assert_eq!(signature_from_bytes(&[0, 0, 0, 0])?, Vec::<i64>::new());
    Ok(())
}

#[test]
fn refused_signatures_say_why() -> Result<(), Error> {
    let identity = Ed25519Keypair::from_seed([0x43; 32]);
    let signed = SignedStaticKey::create(&identity, &StaticPublicKey::from_bytes([0x44; 32]))?;
    let other = StaticPublicKey::from_bytes([0x45; 32]);
    let input: Vec<u8> = DOMAIN_TAG.iter().copied().chain([0x45; 32]).collect();
    let outer = SigningKey::from_bytes(&[0x43; 32]).verifying_key();
    let signature = Signature::from_bytes(signed.signature().as_bytes());
    let expected = match outer.verify_strict(&input, &signature) {
        Err(e) => format!("ed25519 signature did not verify: {e}"),
        Ok(()) => String::new(),
    };
    match signed.verify(&other) {
        Err(Error::IdentityVerify { reason }) => assert_eq!(reason, expected),
        other => panic!("unexpected outcome {other:?}"),
    }
    Ok(())
}
