//! Frames.

use libp2p_cat::error::Error;
use libp2p_cat::pubsub::{decode, encode, NullAuthenticator, Topic, WirePiece};
use libp2p_cat::rlnc::CodedPiece;

fn sample_wire_piece() -> WirePiece<NullAuthenticator> {
    let piece = CodedPiece {
        coding_vector: vec![1, 0, 0],
        data: vec![7, 8, 9, 10],
    };
    WirePiece::new((), piece, ())
}

fn check(cond: bool, reason: impl FnOnce() -> String) -> Result<(), Error> {
    if cond {
        Ok(())
    } else {
        Err(Error::PubsubProtocol { reason: reason() })
    }
}

fn expect_pubsub_rejection<T>(outcome: Result<T, Error>) -> Result<(), Error> {
    match outcome {
        Err(Error::PubsubProtocol { .. }) => Ok(()),
        Err(other) => Err(Error::PubsubProtocol {
            reason: format!("expected PubsubProtocol, got error {other:?}"),
        }),
        Ok(_) => Err(Error::PubsubProtocol {
            reason: "expected PubsubProtocol, got Ok".to_owned(),
        }),
    }
}

#[test]
fn encode_decode_round_trip() -> Result<(), Error> {
    let topic: Topic = "/chat/v1".try_into()?;
    let wp = sample_wire_piece();
    let bytes = encode(&topic, 3, 4, &wp)?;
    let (frame, decoded) = decode::<NullAuthenticator>(&bytes)?;
    check(frame.topic == topic, || {
        format!("topic mismatch: {:?}", frame.topic)
    })?;
    check(frame.piece_count == 3, || {
        format!("piece_count mismatch: {}", frame.piece_count)
    })?;
    check(frame.piece_byte_len == 4, || {
        format!("piece_byte_len mismatch: {}", frame.piece_byte_len)
    })?;
    check(decoded.piece() == wp.piece(), || {
        "decoded piece does not equal original".to_owned()
    })
}

#[test]
fn decode_rejects_truncated_header() -> Result<(), Error> {
    expect_pubsub_rejection(decode::<NullAuthenticator>(&[5u8, b'x']))
}

#[test]
fn decode_rejects_invalid_topic_bytes() -> Result<(), Error> {
    let bad: Vec<u8> = [3u8, b'a', 0x01, b'b']
        .into_iter()
        .chain([0u8; 8])
        .chain([0u8; 4])
        .collect();
    expect_pubsub_rejection(decode::<NullAuthenticator>(&bad))
}
