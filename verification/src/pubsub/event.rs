//! What one inbound datagram amounted to for a pubsub node.
use vstd::prelude::*;
use crate::addr::UdpAddr;
use crate::noise::primitives::StaticPublicKey;
use crate::peer_id::PeerId;
use crate::pubsub::topic::Topic;

verus! {

/// What happened while one inbound datagram was processed.
#[derive(Debug)]
pub enum MuxEvent {
    /// Raw application data arrived.
    AppData { addr: UdpAddr, bytes: Vec<u8> },
    /// A piece went into a decoder, which needs more.
    PubsubAbsorbed { addr: UdpAddr, topic: Topic },
    /// A piece was genuine but told a relay nothing new: it was neither stored
    /// nor sent on.
    PubsubRedundant { addr: UdpAddr, topic: Topic },
    /// A piece completed a decoder; the data is handed out once.
    PubsubDelivered { addr: UdpAddr, topic: Topic, data: Vec<u8> },
    /// A piece went into a recoder, and a fresh combination went to
    /// `fanout_count` peers.
    PubsubRelayed { from: UdpAddr, topic: Topic, fanout_count: usize },
    /// A handshake step succeeded.
    HandshakeProgress { addr: UdpAddr },
    /// A handshake completed.
    HandshakeComplete { addr: UdpAddr, remote_static: StaticPublicKey, remote_peer_id: PeerId },
    /// The datagram was refused.
    Rejected { addr: UdpAddr, reason: String },
}

/// The meaning of a [`MuxEvent`].
pub enum MuxEventView {
    AppData { addr: UdpAddr, bytes: Seq<u8> },
    PubsubAbsorbed { addr: UdpAddr, topic: Seq<u8> },
    PubsubRedundant { addr: UdpAddr, topic: Seq<u8> },
    PubsubDelivered { addr: UdpAddr, topic: Seq<u8>, data: Seq<u8> },
    PubsubRelayed { from: UdpAddr, topic: Seq<u8>, fanout_count: nat },
    HandshakeProgress { addr: UdpAddr },
    HandshakeComplete { addr: UdpAddr, remote_static: Seq<u8>, remote_peer_id: Seq<u8> },
    Rejected { addr: UdpAddr, reason: Seq<char> },
}

impl View for MuxEvent {
    type V = MuxEventView;

    open spec fn view(&self) -> MuxEventView {
        match self {
            MuxEvent::AppData { addr, bytes } => MuxEventView::AppData {
                addr: *addr,
                bytes: bytes@,
            },
            MuxEvent::PubsubAbsorbed { addr, topic } => MuxEventView::PubsubAbsorbed {
                addr: *addr,
                topic: topic@,
            },
            MuxEvent::PubsubRedundant { addr, topic } => MuxEventView::PubsubRedundant {
                addr: *addr,
                topic: topic@,
            },
            MuxEvent::PubsubDelivered { addr, topic, data } => MuxEventView::PubsubDelivered {
                addr: *addr,
                topic: topic@,
                data: data@,
            },
            MuxEvent::PubsubRelayed { from, topic, fanout_count } => MuxEventView::PubsubRelayed {
                from: *from,
                topic: topic@,
                fanout_count: *fanout_count as nat,
            },
            MuxEvent::HandshakeProgress { addr } => MuxEventView::HandshakeProgress { addr: *addr },
            MuxEvent::HandshakeComplete { addr, remote_static, remote_peer_id } => {
                MuxEventView::HandshakeComplete {
                    addr: *addr,
                    remote_static: remote_static@,
                    remote_peer_id: remote_peer_id@,
                }
            },
            MuxEvent::Rejected { addr, reason } => MuxEventView::Rejected {
                addr: *addr,
                reason: reason@,
            },
        }
    }
}

} // verus!
