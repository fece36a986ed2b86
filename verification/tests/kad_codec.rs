//! Frames.

use libp2p_cat::addr::UdpAddr;
use libp2p_cat::error::Error;
use libp2p_cat::kad::{decode, encode, Frame, NodeId, ENTRY_V4_LEN, NODE_ID_LEN, ENTRY_V6_LEN};

fn check(cond: bool, reason: impl FnOnce() -> String) -> Result<(), Error> {
    if cond {
        Ok(())
    } else {
        Err(Error::HostState { reason: reason() })
    }
}

#[test]
fn ping_req_round_trip() -> Result<(), Error> {
    let bytes = encode(&Frame::PingReq)?;
    check(bytes == vec![0x00], || {
        format!("expected [0x00], got {bytes:?}")
    })?;
    let parsed = decode(&bytes)?;
    check(parsed == Frame::PingReq, || {
        format!("decode mismatch: {parsed:?}")
    })
}

#[test]
fn ping_resp_round_trip() -> Result<(), Error> {
    let bytes = encode(&Frame::PingResp)?;
    check(bytes == vec![0x01], || {
        format!("expected [0x01], got {bytes:?}")
    })?;
    let parsed = decode(&bytes)?;
    check(parsed == Frame::PingResp, || {
        format!("decode mismatch: {parsed:?}")
    })
}

#[test]
fn find_node_req_round_trip() -> Result<(), Error> {
    let target = NodeId::from_bytes([7u8; NODE_ID_LEN]);
    let frame = Frame::FindNodeReq { target };
    let bytes = encode(&frame)?;
    check(bytes.len() == 1 + NODE_ID_LEN, || {
        format!("FindNodeReq wire length should be 33, got {}", bytes.len())
    })?;
    let parsed = decode(&bytes)?;
    check(parsed == frame, || format!("decode mismatch: {parsed:?}"))
}

#[test]
fn find_node_resp_v4_round_trip() -> Result<(), Error> {
    let peers = vec![
        (
            NodeId::from_bytes([1u8; NODE_ID_LEN]),
            UdpAddr::v4([10, 0, 0, 1], 5000),
        ),
        (
            NodeId::from_bytes([2u8; NODE_ID_LEN]),
            UdpAddr::v4([127, 0, 0, 1], 6000),
        ),
    ];
    let frame = Frame::FindNodeResp {
        peers: peers.clone(),
    };
    let bytes = encode(&frame)?;
    let expected = 1 + 1 + peers.len() * ENTRY_V4_LEN;
    check(bytes.len() == expected, || {
        format!("expected wire length {expected:?}, got {}", bytes.len())
    })?;
    let parsed = decode(&bytes)?;
    check(parsed == frame, || format!("decode mismatch: {parsed:?}"))
}

#[test]
fn find_node_resp_v6_round_trip() -> Result<(), Error> {
    let peers = vec![(
        NodeId::from_bytes([0xAB; NODE_ID_LEN]),
        UdpAddr::V6 { ip6: 1, port: 7000, flowinfo: 0, scope_id: 0 },
    )];
    let frame = Frame::FindNodeResp {
        peers: peers.clone(),
    };
    let bytes = encode(&frame)?;
    let expected = 1 + 1 + peers.len() * ENTRY_V6_LEN;
    check(bytes.len() == expected, || {
        format!("expected wire length {expected:?}, got {}", bytes.len())
    })?;
    let parsed = decode(&bytes)?;
    check(parsed == frame, || format!("decode mismatch: {parsed:?}"))
}

#[test]
fn empty_buffer_is_rejected() -> Result<(), Error> {
    match decode(&[]) {
        Err(Error::PubsubProtocol { .. }) => Ok(()),
        Err(
            other @ (Error::Io(_)
            | Error::InvalidProtocolId { .. }
            | Error::InvalidPeerId { .. }
            | Error::DatagramTooLarge { .. }
            | Error::NoiseDecrypt
            | Error::NoiseProtocol { .. }
            | Error::NoiseReplay { .. }
            | Error::RlncLayer { .. }
            | Error::HostState { .. }
            | Error::IdentityVerify { .. }),
        ) => Err(Error::HostState {
            reason: format!("expected PubsubProtocol, got {other:?}"),
        }),
        Ok(parsed) => Err(Error::HostState {
            reason: format!("expected rejection, got Ok({parsed:?})"),
        }),
    }
}

#[test]
fn unknown_opcode_is_rejected() -> Result<(), Error> {
    match decode(&[0xFF]) {
        Err(Error::PubsubProtocol { .. }) => Ok(()),
        Err(
            other @ (Error::Io(_)
            | Error::InvalidProtocolId { .. }
            | Error::InvalidPeerId { .. }
            | Error::DatagramTooLarge { .. }
            | Error::NoiseDecrypt
            | Error::NoiseProtocol { .. }
            | Error::NoiseReplay { .. }
            | Error::RlncLayer { .. }
            | Error::HostState { .. }
            | Error::IdentityVerify { .. }),
        ) => Err(Error::HostState {
            reason: format!("expected PubsubProtocol, got {other:?}"),
        }),
        Ok(parsed) => Err(Error::HostState {
            reason: format!("expected rejection, got Ok({parsed:?})"),
        }),
    }
}

#[test]
fn ping_req_rejects_trailing_bytes() -> Result<(), Error> {
    // PingReq has an empty body; trailing bytes must be rejected
    // so an attacker cannot smuggle a PING-shaped frame with a
    // payload past the parser.
    match decode(&[0x00, 0xAA]) {
        Err(Error::PubsubProtocol { .. }) => Ok(()),
        other => Err(Error::HostState {
            reason: format!("expected PubsubProtocol rejection, got {other:?}"),
        }),
    }
}

#[test]
fn find_node_req_rejects_short_target() -> Result<(), Error> {
    // 1 (opcode) + 31 zeros (one byte short of NODE_ID_LEN).
    let truncated: Vec<u8> = core::iter::once(0x02u8).chain([0u8; 31]).collect();
    match decode(&truncated) {
        Err(Error::PubsubProtocol { .. }) => Ok(()),
        other => Err(Error::HostState {
            reason: format!("expected PubsubProtocol rejection, got {other:?}"),
        }),
    }
}

#[test]
fn find_node_resp_rejects_count_underflow() -> Result<(), Error> {
    // count=2 but only one entry's worth of body.
    let mut bytes = vec![0x03u8, 0x02u8];
    bytes.extend(core::iter::repeat_n(0u8, ENTRY_V4_LEN));
    match decode(&bytes) {
        Err(Error::PubsubProtocol { .. }) => Ok(()),
        other => Err(Error::HostState {
            reason: format!("expected PubsubProtocol rejection, got {other:?}"),
        }),
    }
}

#[test]
fn find_node_resp_rejects_unknown_addr_kind() -> Result<(), Error> {
    // count=1, NodeId zeros, addr_kind=0x09 (unknown), then 6 zero bytes.
    let bytes: Vec<u8> = core::iter::once(0x03u8)
        .chain(core::iter::once(0x01u8))
        .chain([0u8; NODE_ID_LEN])
        .chain(core::iter::once(0x09u8))
        .chain([0u8; 6])
        .collect();
    match decode(&bytes) {
        Err(Error::PubsubProtocol { .. }) => Ok(()),
        other => Err(Error::HostState {
            reason: format!("expected PubsubProtocol rejection, got {other:?}"),
        }),
    }
}
