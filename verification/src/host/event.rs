//! What one inbound datagram amounted to.
use vstd::prelude::*;
use vstd::slice::slice_to_vec;
use crate::addr::UdpAddr;
use crate::noise::primitives::StaticPublicKey;
use crate::peer_id::PeerId;

verus! {

/// What happened while one inbound datagram was processed.
#[derive(Debug)]
pub enum HostEvent {
    /// A handshake step succeeded; the connection is not established yet.
    HandshakeProgress { addr: UdpAddr },
    /// A handshake completed and the peer's identity binding verified.
    HandshakeComplete { addr: UdpAddr, remote_static: StaticPublicKey, remote_peer_id: PeerId },
    /// A datagram of an established session was decrypted.
    DatagramDelivered { addr: UdpAddr, plaintext: Vec<u8> },
    /// The datagram was refused.
    Rejected { addr: UdpAddr, reason: String },
}

/// The meaning of a [`HostEvent`].
pub enum HostEventView {
    HandshakeProgress { addr: UdpAddr },
    HandshakeComplete { addr: UdpAddr, remote_static: Seq<u8>, remote_peer_id: Seq<u8> },
    DatagramDelivered { addr: UdpAddr, plaintext: Seq<u8> },
    Rejected { addr: UdpAddr, reason: Seq<char> },
}

impl View for HostEvent {
    type V = HostEventView;

    open spec fn view(&self) -> HostEventView {
        match self {
            HostEvent::HandshakeProgress { addr } => HostEventView::HandshakeProgress {
                addr: *addr,
            },
            HostEvent::HandshakeComplete { addr, remote_static, remote_peer_id } => {
                HostEventView::HandshakeComplete {
                    addr: *addr,
                    remote_static: remote_static@,
                    remote_peer_id: remote_peer_id@,
                }
            },
            HostEvent::DatagramDelivered { addr, plaintext } => HostEventView::DatagramDelivered {
                addr: *addr,
                plaintext: plaintext@,
            },
            HostEvent::Rejected { addr, reason } => HostEventView::Rejected {
                addr: *addr,
                reason: reason@,
            },
        }
    }
}

impl Clone for HostEvent {
    fn clone(&self) -> (copy: Self)
        ensures
            copy@ == self@,
    {
        match self {
            HostEvent::HandshakeProgress { addr } => HostEvent::HandshakeProgress { addr: *addr },
            HostEvent::HandshakeComplete { addr, remote_static, remote_peer_id } => {
                HostEvent::HandshakeComplete {
                    addr: *addr,
                    remote_static: *remote_static,
                    remote_peer_id: *remote_peer_id,
                }
            },
            HostEvent::DatagramDelivered { addr, plaintext } => HostEvent::DatagramDelivered {
                addr: *addr,
                plaintext: slice_to_vec(plaintext.as_slice()),
            },
            HostEvent::Rejected { addr, reason } => HostEvent::Rejected {
                addr: *addr,
                reason: reason.clone(),
            },
        }
    }
}

} // verus!
