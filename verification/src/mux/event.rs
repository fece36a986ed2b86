//! What one inbound datagram amounted to, over all protocols.
use vstd::prelude::*;
use crate::addr::UdpAddr;
use crate::kad::bucket::Peers;
use crate::kad::node_id::NodeId;
use crate::noise::primitives::StaticPublicKey;
use crate::peer_id::PeerId;
use crate::pubsub::topic::Topic;

verus! {

/// What happened while one inbound datagram was processed.
#[derive(Debug)]
pub enum MultiProtocolEvent {
    /// A handshake step succeeded.
    HandshakeProgress { addr: UdpAddr },
    /// A handshake completed; the peer has been offered to the routing table.
    HandshakeComplete {
        addr: UdpAddr,
        remote_static: StaticPublicKey,
        remote_peer_id: PeerId,
        remote_node_id: NodeId,
    },
    /// Raw application data arrived.
    AppData { addr: UdpAddr, bytes: Vec<u8> },
    /// A piece went into a decoder, which needs more.
    PubsubAbsorbed { addr: UdpAddr, topic: Topic },
    /// A piece completed a decoder.
    PubsubDelivered { addr: UdpAddr, topic: Topic, data: Vec<u8> },
    /// A piece went into a recoder, and a combination to `fanout_count` peers.
    PubsubRelayed { from: UdpAddr, topic: Topic, fanout_count: usize },
    /// A piece was genuine but told a relay nothing new.
    PubsubRedundant { addr: UdpAddr, topic: Topic },
    /// A peer pinged; the answer is on its way.
    KadPingRequestReceived { from: UdpAddr },
    /// A peer answered a ping.
    KadPingResponseReceived { from: UdpAddr },
    /// A peer asked for the peers closest to `target`; the answer is on its way.
    KadFindNodeRequestReceived { from: UdpAddr, target: NodeId, returned: usize },
    /// A peer answered a lookup request.
    KadFindNodeResponseReceived { from: UdpAddr, peers: Vec<(NodeId, UdpAddr)> },
    /// A peer asked which address it is seen at.
    ObserveRequestReceived { from: UdpAddr },
    /// A server told which address it sees.
    ObserveResponseReceived { from: UdpAddr, observed: UdpAddr },
    /// A peer asked to pass a punch request on to `target`.
    PunchRequestReceived { from: UdpAddr, target: UdpAddr, forwarded: bool },
    /// A server passed on a punch request of `initiator`.
    PunchForwardReceived { from: UdpAddr, initiator: UdpAddr },
    /// A peer asked to pass a payload on to `target`.
    RelayForwarded { from: UdpAddr, target: UdpAddr, forwarded: bool, payload_len: usize },
    /// A server passed on a payload of `originator`.
    RelayReceived { from: UdpAddr, originator: UdpAddr, payload: Vec<u8> },
    /// A server could not pass a payload on to `peer`.
    RelayFailed { from: UdpAddr, peer: UdpAddr, reason: String },
    /// An RPC envelope arrived.
    RpcDatagram { peer: UdpAddr, body: Vec<u8> },
    /// The datagram was refused.
    Rejected { addr: UdpAddr, reason: String },
}

/// The meaning of a [`MultiProtocolEvent`].
pub enum MultiProtocolEventView {
    HandshakeProgress { addr: UdpAddr },
    HandshakeComplete {
        addr: UdpAddr,
        remote_static: Seq<u8>,
        remote_peer_id: Seq<u8>,
        remote_node_id: NodeId,
    },
    AppData { addr: UdpAddr, bytes: Seq<u8> },
    PubsubAbsorbed { addr: UdpAddr, topic: Seq<u8> },
    PubsubDelivered { addr: UdpAddr, topic: Seq<u8>, data: Seq<u8> },
    PubsubRelayed { from: UdpAddr, topic: Seq<u8>, fanout_count: nat },
    PubsubRedundant { addr: UdpAddr, topic: Seq<u8> },
    KadPingRequestReceived { from: UdpAddr },
    KadPingResponseReceived { from: UdpAddr },
    KadFindNodeRequestReceived { from: UdpAddr, target: NodeId, returned: nat },
    KadFindNodeResponseReceived { from: UdpAddr, peers: Peers },
    ObserveRequestReceived { from: UdpAddr },
    ObserveResponseReceived { from: UdpAddr, observed: UdpAddr },
    PunchRequestReceived { from: UdpAddr, target: UdpAddr, forwarded: bool },
    PunchForwardReceived { from: UdpAddr, initiator: UdpAddr },
    RelayForwarded { from: UdpAddr, target: UdpAddr, forwarded: bool, payload_len: nat },
    RelayReceived { from: UdpAddr, originator: UdpAddr, payload: Seq<u8> },
    RelayFailed { from: UdpAddr, peer: UdpAddr, reason: Seq<char> },
    RpcDatagram { peer: UdpAddr, body: Seq<u8> },
    Rejected { addr: UdpAddr, reason: Seq<char> },
}

impl View for MultiProtocolEvent {
    type V = MultiProtocolEventView;

    open spec fn view(&self) -> MultiProtocolEventView {
        match self {
            MultiProtocolEvent::HandshakeProgress { addr } => {
                MultiProtocolEventView::HandshakeProgress {
                    addr: *addr,
                }
            },
            MultiProtocolEvent::HandshakeComplete { addr, remote_static, remote_peer_id, remote_node_id } => {
                MultiProtocolEventView::HandshakeComplete {
                    addr: *addr,
                    remote_static: remote_static@,
                    remote_peer_id: remote_peer_id@,
                    remote_node_id: *remote_node_id,
                }
            },
            MultiProtocolEvent::AppData { addr, bytes } => MultiProtocolEventView::AppData {
                addr: *addr,
                bytes: bytes@,
            },
            MultiProtocolEvent::PubsubAbsorbed { addr, topic } => {
                MultiProtocolEventView::PubsubAbsorbed {
                    addr: *addr,
                    topic: topic@,
                }
            },
            MultiProtocolEvent::PubsubDelivered { addr, topic, data } => {
                MultiProtocolEventView::PubsubDelivered {
                    addr: *addr,
                    topic: topic@,
                    data: data@,
                }
            },
            MultiProtocolEvent::PubsubRelayed { from, topic, fanout_count } => {
                MultiProtocolEventView::PubsubRelayed {
                    from: *from,
                    topic: topic@,
                    fanout_count: *fanout_count as nat,
                }
            },
            MultiProtocolEvent::PubsubRedundant { addr, topic } => {
                MultiProtocolEventView::PubsubRedundant {
                    addr: *addr,
                    topic: topic@,
                }
            },
            MultiProtocolEvent::KadPingRequestReceived { from } => {
                MultiProtocolEventView::KadPingRequestReceived {
                    from: *from,
                }
            },
            MultiProtocolEvent::KadPingResponseReceived { from } => {
                MultiProtocolEventView::KadPingResponseReceived {
                    from: *from,
                }
            },
            MultiProtocolEvent::KadFindNodeRequestReceived { from, target, returned } => {
                MultiProtocolEventView::KadFindNodeRequestReceived {
                    from: *from,
                    target: *target,
                    returned: *returned as nat,
                }
            },
            MultiProtocolEvent::KadFindNodeResponseReceived { from, peers } => {
                MultiProtocolEventView::KadFindNodeResponseReceived {
                    from: *from,
                    peers: peers@,
                }
            },
            MultiProtocolEvent::ObserveRequestReceived { from } => {
                MultiProtocolEventView::ObserveRequestReceived {
                    from: *from,
                }
            },
            MultiProtocolEvent::ObserveResponseReceived { from, observed } => {
                MultiProtocolEventView::ObserveResponseReceived {
                    from: *from,
                    observed: *observed,
                }
            },
            MultiProtocolEvent::PunchRequestReceived { from, target, forwarded } => {
                MultiProtocolEventView::PunchRequestReceived {
                    from: *from,
                    target: *target,
                    forwarded: *forwarded,
                }
            },
            MultiProtocolEvent::PunchForwardReceived { from, initiator } => {
                MultiProtocolEventView::PunchForwardReceived {
                    from: *from,
                    initiator: *initiator,
                }
            },
            MultiProtocolEvent::RelayForwarded { from, target, forwarded, payload_len } => {
                MultiProtocolEventView::RelayForwarded {
                    from: *from,
                    target: *target,
                    forwarded: *forwarded,
                    payload_len: *payload_len as nat,
                }
            },
            MultiProtocolEvent::RelayReceived { from, originator, payload } => {
                MultiProtocolEventView::RelayReceived {
                    from: *from,
                    originator: *originator,
                    payload: payload@,
                }
            },
            MultiProtocolEvent::RelayFailed { from, peer, reason } => {
                MultiProtocolEventView::RelayFailed {
                    from: *from,
                    peer: *peer,
                    reason: reason@,
                }
            },
            MultiProtocolEvent::RpcDatagram { peer, body } => MultiProtocolEventView::RpcDatagram {
                peer: *peer,
                body: body@,
            },
            MultiProtocolEvent::Rejected { addr, reason } => MultiProtocolEventView::Rejected {
                addr: *addr,
                reason: reason@,
            },
        }
    }
}

/// What the rendezvous protocol makes of a frame.
#[derive(Debug)]
pub enum RendezvousEvent {
    /// A handshake step succeeded.
    HandshakeProgress { addr: UdpAddr },
    /// A peer asked which address it is seen at.
    ObserveRequestReceived { from: UdpAddr },
    /// A server told which address it sees.
    ObserveResponseReceived { from: UdpAddr, observed: UdpAddr },
    /// A peer asked to pass a punch request on to `target`.
    PunchRequestReceived { from: UdpAddr, target: UdpAddr, forwarded: bool },
    /// A server passed on a punch request of `initiator`.
    PunchForwardReceived { from: UdpAddr, initiator: UdpAddr },
    /// A peer asked to pass a payload on to `target`.
    RelayForwarded { from: UdpAddr, target: UdpAddr, forwarded: bool, payload_len: usize },
    /// A server passed on a payload of `originator`.
    RelayReceived { from: UdpAddr, originator: UdpAddr, payload: Vec<u8> },
    /// A server could not pass a payload on to `peer`.
    RelayFailed { from: UdpAddr, peer: UdpAddr, reason: String },
    /// The datagram was refused.
    Rejected { addr: UdpAddr, reason: String },
    /// A handshake completed.
    HandshakeComplete { addr: UdpAddr, remote_static: StaticPublicKey, remote_peer_id: PeerId },
}

/// The meaning of a [`RendezvousEvent`].
pub enum RendezvousEventView {
    HandshakeProgress { addr: UdpAddr },
    ObserveRequestReceived { from: UdpAddr },
    ObserveResponseReceived { from: UdpAddr, observed: UdpAddr },
    PunchRequestReceived { from: UdpAddr, target: UdpAddr, forwarded: bool },
    PunchForwardReceived { from: UdpAddr, initiator: UdpAddr },
    RelayForwarded { from: UdpAddr, target: UdpAddr, forwarded: bool, payload_len: nat },
    RelayReceived { from: UdpAddr, originator: UdpAddr, payload: Seq<u8> },
    RelayFailed { from: UdpAddr, peer: UdpAddr, reason: Seq<char> },
    Rejected { addr: UdpAddr, reason: Seq<char> },
    HandshakeComplete { addr: UdpAddr, remote_static: Seq<u8>, remote_peer_id: Seq<u8> },
}

impl View for RendezvousEvent {
    type V = RendezvousEventView;

    open spec fn view(&self) -> RendezvousEventView {
        match self {
            RendezvousEvent::HandshakeProgress { addr } => RendezvousEventView::HandshakeProgress {
                addr: *addr,
            },
            RendezvousEvent::ObserveRequestReceived { from } => {
                RendezvousEventView::ObserveRequestReceived {
                    from: *from,
                }
            },
            RendezvousEvent::ObserveResponseReceived { from, observed } => {
                RendezvousEventView::ObserveResponseReceived {
                    from: *from,
                    observed: *observed,
                }
            },
            RendezvousEvent::PunchRequestReceived { from, target, forwarded } => {
                RendezvousEventView::PunchRequestReceived {
                    from: *from,
                    target: *target,
                    forwarded: *forwarded,
                }
            },
            RendezvousEvent::PunchForwardReceived { from, initiator } => {
                RendezvousEventView::PunchForwardReceived {
                    from: *from,
                    initiator: *initiator,
                }
            },
            RendezvousEvent::RelayForwarded { from, target, forwarded, payload_len } => {
                RendezvousEventView::RelayForwarded {
                    from: *from,
                    target: *target,
                    forwarded: *forwarded,
                    payload_len: *payload_len as nat,
                }
            },
            RendezvousEvent::RelayReceived { from, originator, payload } => {
                RendezvousEventView::RelayReceived {
                    from: *from,
                    originator: *originator,
                    payload: payload@,
                }
            },
            RendezvousEvent::RelayFailed { from, peer, reason } => {
                RendezvousEventView::RelayFailed {
                    from: *from,
                    peer: *peer,
                    reason: reason@,
                }
            },
            RendezvousEvent::Rejected { addr, reason } => RendezvousEventView::Rejected {
                addr: *addr,
                reason: reason@,
            },
            RendezvousEvent::HandshakeComplete { addr, remote_static, remote_peer_id } => {
                RendezvousEventView::HandshakeComplete {
                    addr: *addr,
                    remote_static: remote_static@,
                    remote_peer_id: remote_peer_id@,
                }
            },
        }
    }
}

/// What the caller gets of an inbound datagram.
#[derive(Debug)]
pub enum Inbound {
    /// What happened.
    Event(MultiProtocolEvent),
    /// A rendezvous frame for the caller to process. What it makes of the frame
    /// becomes an event by [`crate::mux::lift_rendezvous_event`].
    Rendezvous { from: UdpAddr, body: Vec<u8> },
}

/// The meaning of an [`Inbound`].
pub enum InboundView {
    Event(MultiProtocolEventView),
    Rendezvous { from: UdpAddr, body: Seq<u8> },
}

impl View for Inbound {
    type V = InboundView;

    open spec fn view(&self) -> InboundView {
        match self {
            Inbound::Event(event) => InboundView::Event(event@),
            Inbound::Rendezvous { from, body } => InboundView::Rendezvous {
                from: *from,
                body: body@,
            },
        }
    }
}

} // verus!
