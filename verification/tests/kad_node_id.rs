//! Node identifiers.

use libp2p_cat::error::Error;
use libp2p_cat::kad::{NodeId, NODE_ID_LEN};
use libp2p_cat::peer_id::PeerId;

fn check(cond: bool, reason: impl FnOnce() -> String) -> Result<(), Error> {
    if cond {
        Ok(())
    } else {
        Err(Error::HostState { reason: reason() })
    }
}

#[test]
fn from_peer_id_is_deterministic() -> Result<(), Error> {
    let pid = PeerId::from_ed25519(&[3u8; 32]);
    let a = NodeId::from_peer_id(&pid);
    let b = NodeId::from_peer_id(&pid);
    check(a == b, || {
        "same PeerId produced different NodeIds".to_owned()
    })
}

#[test]
fn distinct_peer_ids_produce_distinct_node_ids() -> Result<(), Error> {
    let pa = PeerId::from_ed25519(&[3u8; 32]);
    let pb = PeerId::from_ed25519(&[4u8; 32]);
    let a = NodeId::from_peer_id(&pa);
    let b = NodeId::from_peer_id(&pb);
    check(a != b, || {
        "distinct PeerIds collided to one NodeId".to_owned()
    })
}

#[test]
fn distance_to_self_is_zero() -> Result<(), Error> {
    let id = NodeId::from_bytes([0x55; NODE_ID_LEN]);
    let d = id.distance(&id);
    check(d.is_zero(), || {
        "distance from a NodeId to itself must be zero".to_owned()
    })
}

#[test]
fn distance_is_symmetric() -> Result<(), Error> {
    let a = NodeId::from_bytes([0xAA; NODE_ID_LEN]);
    let b = NodeId::from_bytes([0x33; NODE_ID_LEN]);
    check(a.distance(&b) == b.distance(&a), || {
        "XOR distance must be symmetric".to_owned()
    })
}

#[test]
fn display_emits_kad_prefixed_hex() -> Result<(), Error> {
    let id = NodeId::from_bytes([0u8; NODE_ID_LEN]);
    let s = id.describe();
    check(s.starts_with("kad:"), || {
        format!("display should be kad:-prefixed hex, got {s}")
    })?;
    check(s.len() == 4 + 2 * NODE_ID_LEN, || {
        format!("unexpected display length {}", s.len())
    })
}
