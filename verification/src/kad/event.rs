//! What one inbound datagram amounted to for a Kademlia node.
use vstd::prelude::*;
use crate::addr::UdpAddr;
use crate::kad::bucket::{copy_peers, Peers};
use crate::kad::node_id::NodeId;
use crate::noise::primitives::StaticPublicKey;
use crate::peer_id::PeerId;

verus! {

/// What happened while one inbound datagram was processed.
#[derive(Debug)]
pub enum KadEvent {
    /// A handshake step succeeded.
    HandshakeProgress { addr: UdpAddr },
    /// A handshake completed; the peer has been offered to the routing table.
    HandshakeComplete {
        addr: UdpAddr,
        remote_static: StaticPublicKey,
        remote_peer_id: PeerId,
        remote_node_id: NodeId,
    },
    /// A peer pinged; the answer is on its way.
    PingRequestReceived { from: UdpAddr },
    /// A peer answered a ping.
    PingResponseReceived { from: UdpAddr },
    /// A peer asked for the peers closest to `target`; the answer with
    /// `returned` peers is on its way.
    FindNodeRequestReceived { from: UdpAddr, target: NodeId, returned: usize },
    /// A peer answered a lookup request; its peers have been offered to the
    /// routing table.
    FindNodeResponseReceived { from: UdpAddr, peers: Vec<(NodeId, UdpAddr)> },
    /// The datagram was refused.
    Rejected { addr: UdpAddr, reason: String },
}

/// The meaning of a [`KadEvent`].
pub enum KadEventView {
    HandshakeProgress { addr: UdpAddr },
    HandshakeComplete {
        addr: UdpAddr,
        remote_static: Seq<u8>,
        remote_peer_id: Seq<u8>,
        remote_node_id: NodeId,
    },
    PingRequestReceived { from: UdpAddr },
    PingResponseReceived { from: UdpAddr },
    FindNodeRequestReceived { from: UdpAddr, target: NodeId, returned: nat },
    FindNodeResponseReceived { from: UdpAddr, peers: Peers },
    Rejected { addr: UdpAddr, reason: Seq<char> },
}

impl View for KadEvent {
    type V = KadEventView;

    open spec fn view(&self) -> KadEventView {
        match self {
            KadEvent::HandshakeProgress { addr } => KadEventView::HandshakeProgress { addr: *addr },
            KadEvent::HandshakeComplete { addr, remote_static, remote_peer_id, remote_node_id } => {
                KadEventView::HandshakeComplete {
                    addr: *addr,
                    remote_static: remote_static@,
                    remote_peer_id: remote_peer_id@,
                    remote_node_id: *remote_node_id,
                }
            },
            KadEvent::PingRequestReceived { from } => KadEventView::PingRequestReceived {
                from: *from,
            },
            KadEvent::PingResponseReceived { from } => KadEventView::PingResponseReceived {
                from: *from,
            },
            KadEvent::FindNodeRequestReceived { from, target, returned } => {
                KadEventView::FindNodeRequestReceived {
                    from: *from,
                    target: *target,
                    returned: *returned as nat,
                }
            },
            KadEvent::FindNodeResponseReceived { from, peers } => {
                KadEventView::FindNodeResponseReceived { from: *from, peers: peers@ }
            },
            KadEvent::Rejected { addr, reason } => KadEventView::Rejected {
                addr: *addr,
                reason: reason@,
            },
        }
    }
}

impl Clone for KadEvent {
    fn clone(&self) -> (copy: Self)
        ensures
            copy@ == self@,
    {
        match self {
            KadEvent::HandshakeProgress { addr } => KadEvent::HandshakeProgress { addr: *addr },
            KadEvent::HandshakeComplete { addr, remote_static, remote_peer_id, remote_node_id } => {
                KadEvent::HandshakeComplete {
                    addr: *addr,
                    remote_static: *remote_static,
                    remote_peer_id: *remote_peer_id,
                    remote_node_id: *remote_node_id,
                }
            },
            KadEvent::PingRequestReceived { from } => KadEvent::PingRequestReceived { from: *from },
            KadEvent::PingResponseReceived { from } => KadEvent::PingResponseReceived {
                from: *from,
            },
            KadEvent::FindNodeRequestReceived { from, target, returned } => {
                KadEvent::FindNodeRequestReceived {
                    from: *from,
                    target: *target,
                    returned: *returned,
                }
            },
            KadEvent::FindNodeResponseReceived { from, peers } => {
                KadEvent::FindNodeResponseReceived { from: *from, peers: copy_peers(peers) }
            },
            KadEvent::Rejected { addr, reason } => KadEvent::Rejected {
                addr: *addr,
                reason: reason.clone(),
            },
        }
    }
}

} // verus!
