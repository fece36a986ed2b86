//! Application data, Kademlia, rendezvous and pubsub over one session.

use std::cell::{Cell, RefCell};
use std::ops::Deref;
use std::rc::Rc;
use std::sync::Arc;

use libp2p_cat::addr::{Outbound, UdpAddr};
use libp2p_cat::error::Error;
use libp2p_cat::host::Host;
use libp2p_cat::identity::Ed25519Keypair;
use libp2p_cat::mux::{
    lift_rendezvous_event, Inbound, MultiProtocolEvent, MultiProtocolNode, RendezvousEvent,
};
use libp2p_cat::noise::StaticKeypair;
use libp2p_cat::pubsub::{unused_relay_rng, NullAuthenticator, Topic};
use rlnc_cat_rs::coding::piece::OriginalData;

/// Datagrams under way, oldest first: receiver, sender, bytes.
type Queue = Rc<RefCell<Vec<(UdpAddr, UdpAddr, Vec<u8>)>>>;

/// A network in memory. Each socket gets a port of its own.
struct Net {
    queue: Queue,
    ports: Cell<u16>,
}

impl Net {
    fn new() -> Net {
        Net {
            queue: Rc::new(RefCell::new(Vec::new())),
            ports: Cell::new(4000),
        }
    }

    fn bind(&self) -> Socket {
        let port = self.ports.get();
        self.ports.set(port + 1);
        Socket {
            addr: UdpAddr::v4([127, 0, 0, 1], port),
            queue: Rc::clone(&self.queue),
        }
    }
}

struct Socket {
    addr: UdpAddr,
    queue: Queue,
}

impl Socket {
    fn local_addr(&self) -> UdpAddr {
        self.addr
    }

    fn send(self, to: UdpAddr, datagram: Vec<u8>) -> Socket {
        self.queue.borrow_mut().push((to, self.addr, datagram));
        self
    }

    fn send_out(self, outbound: Outbound) -> Socket {
        self.send(outbound.addr, outbound.datagram)
    }

    fn recv(self) -> Result<((UdpAddr, Vec<u8>), Socket), Error> {
        let found = self
            .queue
            .borrow()
            .iter()
            .position(|(to, _, _)| *to == self.addr);
        match found {
            Some(at) => {
                let (_, from, datagram) = self.queue.borrow_mut().remove(at);
                Ok(((from, datagram), self))
            }
            None => Err(Error::Io("nothing to receive".to_owned())),
        }
    }
}

/// A node of all protocols at its socket.
struct Node {
    mux: MultiProtocolNode<NullAuthenticator>,
    socket: Socket,
}

impl Deref for Node {
    type Target = MultiProtocolNode<NullAuthenticator>;

    fn deref(&self) -> &MultiProtocolNode<NullAuthenticator> {
        &self.mux
    }
}

impl Node {
    fn dial(self, addr: UdpAddr, seed: [u8; 32]) -> Result<Node, Error> {
        let (mux, outbound) = self.mux.dial(addr, seed)?;
        let socket = self.socket.send_out(outbound);
        Ok(Node { mux, socket })
    }

    fn recv_one<R: FnOnce(usize) -> Result<Vec<u8>, String>>(
        self,
        seed: [u8; 32],
        rng: R,
    ) -> Result<(Node, MultiProtocolEvent), Error> {
        let ((from, datagram), socket) = self.socket.recv()?;
        let (mux, inbound, outbound) = self.mux.recv_one(from, &datagram, seed, rng)?;
        let socket = outbound.into_iter().fold(socket, Socket::send_out);
        match inbound {
            Inbound::Event(event) => Ok((Node { mux, socket }, event)),
            Inbound::Rendezvous { from, body } => Node { mux, socket }.rendezvous(from, &body),
        }
    }

    /// A minimal observer: `0` asks, `1` answers with the address seen.
    fn rendezvous(self, from: UdpAddr, body: &[u8]) -> Result<(Node, MultiProtocolEvent), Error> {
        match body {
            [0] => {
                let (ip, port) = match from {
                    UdpAddr::V4 { ip, port } => (ip, port),
                    UdpAddr::V6 { .. } => (0, 0),
                };
                let answer: Vec<u8> = [1u8]
                    .into_iter()
                    .chain(ip.to_be_bytes())
                    .chain(port.to_be_bytes())
                    .collect();
                let (mux, outbound) = self.mux.send_rendezvous_frame(from, &answer)?;
                let socket = self.socket.send_out(outbound);
                let event = RendezvousEvent::ObserveRequestReceived { from };
                Ok((Node { mux, socket }, lift_rendezvous_event(event)))
            }
            [1, a, b, c, d, hi, lo] => {
                let observed = UdpAddr::v4([*a, *b, *c, *d], u16::from_be_bytes([*hi, *lo]));
                let event = RendezvousEvent::ObserveResponseReceived { from, observed };
                Ok((self, lift_rendezvous_event(event)))
            }
            _ => {
                let reason = "unknown rendezvous frame".to_owned();
                let event = RendezvousEvent::Rejected { addr: from, reason };
                Ok((self, lift_rendezvous_event(event)))
            }
        }
    }

    fn send_observe_req(self, peer: UdpAddr) -> Result<Node, Error> {
        let (mux, outbound) = self.mux.send_rendezvous_frame(peer, &[0])?;
        let socket = self.socket.send_out(outbound);
        Ok(Node { mux, socket })
    }

    fn send_app(self, peer: UdpAddr, payload: &[u8]) -> Result<Node, Error> {
        let (mux, outbound) = self.mux.send_app(peer, payload)?;
        let socket = self.socket.send_out(outbound);
        Ok(Node { mux, socket })
    }

    fn kad_ping(self, peer: UdpAddr) -> Result<Node, Error> {
        let (mux, outbound) = self.mux.kad_ping(peer)?;
        let socket = self.socket.send_out(outbound);
        Ok(Node { mux, socket })
    }

    fn register_topic(self, topic: Topic, k: usize, b: usize, commitment: ()) -> Node {
        Node {
            mux: self.mux.register_topic(topic, k, b, commitment),
            socket: self.socket,
        }
    }

    fn broadcast<F: Fn(usize) -> Result<Vec<u8>, String>>(
        self,
        topic: Topic,
        data: OriginalData,
        n: usize,
        rng: F,
    ) -> Result<(Node, ()), Error> {
        let (mux, commitment, outbound) = self.mux.broadcast(topic, data, n, rng)?;
        let socket = outbound.into_iter().fold(self.socket, Socket::send_out);
        Ok((Node { mux, socket }, commitment))
    }
}

type NullMux = Node;

const KAD_K: usize = 20;

fn check(cond: bool, reason: impl FnOnce() -> String) -> Result<(), Error> {
    if cond {
        Ok(())
    } else {
        Err(Error::HostState { reason: reason() })
    }
}

fn build_mux(net: &Net, seed: u8) -> Result<(NullMux, UdpAddr), Error> {
    let socket = net.bind();
    let addr = socket.local_addr();
    let keypair = StaticKeypair::from_private_bytes([seed; 32]);
    let identity = Ed25519Keypair::from_seed([seed.wrapping_add(1); 32]);
    let host = Host::new(keypair, &identity, [seed.wrapping_add(2); 32])?;
    let mux = MultiProtocolNode::new(host, Arc::new(NullAuthenticator), KAD_K);
    Ok((Node { mux, socket }, addr))
}

/// Drive a single Noise XX handshake to completion between two
/// muxes.
fn handshake_pair(
    initiator: NullMux,
    responder: NullMux,
    initiator_addr: UdpAddr,
    responder_addr: UdpAddr,
    initiator_seed: [u8; 32],
    responder_seed: [u8; 32],
) -> Result<(NullMux, NullMux), Error> {
    let initiator = initiator.dial(responder_addr, initiator_seed)?;
    // Cookie round-trip then the three Noise messages.
    let (responder, ev) = responder.recv_one(responder_seed, unused_relay_rng)?;
    expect_handshake_progress(ev, initiator_addr)?;
    let (initiator, ev) = initiator.recv_one([0; 32], unused_relay_rng)?;
    expect_handshake_progress(ev, responder_addr)?;
    let (responder, ev) = responder.recv_one(responder_seed, unused_relay_rng)?;
    expect_handshake_progress(ev, initiator_addr)?;
    let (initiator, ev) = initiator.recv_one([0; 32], unused_relay_rng)?;
    expect_handshake_complete(ev, responder_addr)?;
    let (responder, ev) = responder.recv_one([0; 32], unused_relay_rng)?;
    expect_handshake_complete(ev, initiator_addr)?;
    Ok((initiator, responder))
}

fn expect_handshake_progress(ev: MultiProtocolEvent, expected: UdpAddr) -> Result<(), Error> {
    match &ev {
        MultiProtocolEvent::HandshakeProgress { addr } if *addr == expected => Ok(()),
        MultiProtocolEvent::HandshakeProgress { .. }
        | MultiProtocolEvent::HandshakeComplete { .. }
        | MultiProtocolEvent::AppData { .. }
        | MultiProtocolEvent::PubsubAbsorbed { .. }
        | MultiProtocolEvent::PubsubDelivered { .. }
        | MultiProtocolEvent::PubsubRelayed { .. }
        | MultiProtocolEvent::KadPingRequestReceived { .. }
        | MultiProtocolEvent::KadPingResponseReceived { .. }
        | MultiProtocolEvent::KadFindNodeRequestReceived { .. }
        | MultiProtocolEvent::KadFindNodeResponseReceived { .. }
        | MultiProtocolEvent::ObserveRequestReceived { .. }
        | MultiProtocolEvent::ObserveResponseReceived { .. }
        | MultiProtocolEvent::PunchRequestReceived { .. }
        | MultiProtocolEvent::PunchForwardReceived { .. }
        | MultiProtocolEvent::PubsubRedundant { .. }
        | MultiProtocolEvent::RelayForwarded { .. }
        | MultiProtocolEvent::RelayReceived { .. }
        | MultiProtocolEvent::RelayFailed { .. }
        | MultiProtocolEvent::RpcDatagram { .. }
        | MultiProtocolEvent::Rejected { .. } => Err(Error::HostState {
            reason: format!("expected HandshakeProgress({expected:?}), got {ev:?}"),
        }),
    }
}

fn expect_handshake_complete(ev: MultiProtocolEvent, expected: UdpAddr) -> Result<(), Error> {
    match &ev {
        MultiProtocolEvent::HandshakeComplete { addr, .. } if *addr == expected => Ok(()),
        MultiProtocolEvent::HandshakeProgress { .. }
        | MultiProtocolEvent::HandshakeComplete { .. }
        | MultiProtocolEvent::AppData { .. }
        | MultiProtocolEvent::PubsubAbsorbed { .. }
        | MultiProtocolEvent::PubsubDelivered { .. }
        | MultiProtocolEvent::PubsubRelayed { .. }
        | MultiProtocolEvent::KadPingRequestReceived { .. }
        | MultiProtocolEvent::KadPingResponseReceived { .. }
        | MultiProtocolEvent::KadFindNodeRequestReceived { .. }
        | MultiProtocolEvent::KadFindNodeResponseReceived { .. }
        | MultiProtocolEvent::ObserveRequestReceived { .. }
        | MultiProtocolEvent::ObserveResponseReceived { .. }
        | MultiProtocolEvent::PunchRequestReceived { .. }
        | MultiProtocolEvent::PunchForwardReceived { .. }
        | MultiProtocolEvent::PubsubRedundant { .. }
        | MultiProtocolEvent::RelayForwarded { .. }
        | MultiProtocolEvent::RelayReceived { .. }
        | MultiProtocolEvent::RelayFailed { .. }
        | MultiProtocolEvent::RpcDatagram { .. }
        | MultiProtocolEvent::Rejected { .. } => Err(Error::HostState {
            reason: format!("expected HandshakeComplete({expected:?}), got {ev:?}"),
        }),
    }
}

fn expect_app_data(
    ev: MultiProtocolEvent,
    expected_addr: UdpAddr,
    expected_bytes: &[u8],
) -> Result<(), Error> {
    match &ev {
        MultiProtocolEvent::AppData { addr, bytes }
            if *addr == expected_addr && bytes.as_slice() == expected_bytes =>
        {
            Ok(())
        }
        MultiProtocolEvent::HandshakeProgress { .. }
        | MultiProtocolEvent::HandshakeComplete { .. }
        | MultiProtocolEvent::AppData { .. }
        | MultiProtocolEvent::PubsubAbsorbed { .. }
        | MultiProtocolEvent::PubsubDelivered { .. }
        | MultiProtocolEvent::PubsubRelayed { .. }
        | MultiProtocolEvent::KadPingRequestReceived { .. }
        | MultiProtocolEvent::KadPingResponseReceived { .. }
        | MultiProtocolEvent::KadFindNodeRequestReceived { .. }
        | MultiProtocolEvent::KadFindNodeResponseReceived { .. }
        | MultiProtocolEvent::ObserveRequestReceived { .. }
        | MultiProtocolEvent::ObserveResponseReceived { .. }
        | MultiProtocolEvent::PunchRequestReceived { .. }
        | MultiProtocolEvent::PunchForwardReceived { .. }
        | MultiProtocolEvent::PubsubRedundant { .. }
        | MultiProtocolEvent::RelayForwarded { .. }
        | MultiProtocolEvent::RelayReceived { .. }
        | MultiProtocolEvent::RelayFailed { .. }
        | MultiProtocolEvent::RpcDatagram { .. }
        | MultiProtocolEvent::Rejected { .. } => Err(Error::HostState {
            reason: format!("expected AppData({expected_addr:?}, {expected_bytes:?}), got {ev:?}"),
        }),
    }
}

fn expect_kad_ping_request(ev: MultiProtocolEvent, expected_from: UdpAddr) -> Result<(), Error> {
    match &ev {
        MultiProtocolEvent::KadPingRequestReceived { from } if *from == expected_from => Ok(()),
        MultiProtocolEvent::HandshakeProgress { .. }
        | MultiProtocolEvent::HandshakeComplete { .. }
        | MultiProtocolEvent::AppData { .. }
        | MultiProtocolEvent::PubsubAbsorbed { .. }
        | MultiProtocolEvent::PubsubDelivered { .. }
        | MultiProtocolEvent::PubsubRelayed { .. }
        | MultiProtocolEvent::KadPingRequestReceived { .. }
        | MultiProtocolEvent::KadPingResponseReceived { .. }
        | MultiProtocolEvent::KadFindNodeRequestReceived { .. }
        | MultiProtocolEvent::KadFindNodeResponseReceived { .. }
        | MultiProtocolEvent::ObserveRequestReceived { .. }
        | MultiProtocolEvent::ObserveResponseReceived { .. }
        | MultiProtocolEvent::PunchRequestReceived { .. }
        | MultiProtocolEvent::PunchForwardReceived { .. }
        | MultiProtocolEvent::PubsubRedundant { .. }
        | MultiProtocolEvent::RelayForwarded { .. }
        | MultiProtocolEvent::RelayReceived { .. }
        | MultiProtocolEvent::RelayFailed { .. }
        | MultiProtocolEvent::RpcDatagram { .. }
        | MultiProtocolEvent::Rejected { .. } => Err(Error::HostState {
            reason: format!("expected KadPingRequestReceived({expected_from:?}), got {ev:?}"),
        }),
    }
}

fn expect_kad_ping_response(ev: MultiProtocolEvent, expected_from: UdpAddr) -> Result<(), Error> {
    match &ev {
        MultiProtocolEvent::KadPingResponseReceived { from } if *from == expected_from => Ok(()),
        MultiProtocolEvent::HandshakeProgress { .. }
        | MultiProtocolEvent::HandshakeComplete { .. }
        | MultiProtocolEvent::AppData { .. }
        | MultiProtocolEvent::PubsubAbsorbed { .. }
        | MultiProtocolEvent::PubsubDelivered { .. }
        | MultiProtocolEvent::PubsubRelayed { .. }
        | MultiProtocolEvent::KadPingRequestReceived { .. }
        | MultiProtocolEvent::KadPingResponseReceived { .. }
        | MultiProtocolEvent::KadFindNodeRequestReceived { .. }
        | MultiProtocolEvent::KadFindNodeResponseReceived { .. }
        | MultiProtocolEvent::ObserveRequestReceived { .. }
        | MultiProtocolEvent::ObserveResponseReceived { .. }
        | MultiProtocolEvent::PunchRequestReceived { .. }
        | MultiProtocolEvent::PunchForwardReceived { .. }
        | MultiProtocolEvent::PubsubRedundant { .. }
        | MultiProtocolEvent::RelayForwarded { .. }
        | MultiProtocolEvent::RelayReceived { .. }
        | MultiProtocolEvent::RelayFailed { .. }
        | MultiProtocolEvent::RpcDatagram { .. }
        | MultiProtocolEvent::Rejected { .. } => Err(Error::HostState {
            reason: format!("expected KadPingResponseReceived({expected_from:?}), got {ev:?}"),
        }),
    }
}

fn expect_observe_request(ev: MultiProtocolEvent, expected_from: UdpAddr) -> Result<(), Error> {
    match &ev {
        MultiProtocolEvent::ObserveRequestReceived { from } if *from == expected_from => Ok(()),
        MultiProtocolEvent::HandshakeProgress { .. }
        | MultiProtocolEvent::HandshakeComplete { .. }
        | MultiProtocolEvent::AppData { .. }
        | MultiProtocolEvent::PubsubAbsorbed { .. }
        | MultiProtocolEvent::PubsubDelivered { .. }
        | MultiProtocolEvent::PubsubRelayed { .. }
        | MultiProtocolEvent::KadPingRequestReceived { .. }
        | MultiProtocolEvent::KadPingResponseReceived { .. }
        | MultiProtocolEvent::KadFindNodeRequestReceived { .. }
        | MultiProtocolEvent::KadFindNodeResponseReceived { .. }
        | MultiProtocolEvent::ObserveRequestReceived { .. }
        | MultiProtocolEvent::ObserveResponseReceived { .. }
        | MultiProtocolEvent::PunchRequestReceived { .. }
        | MultiProtocolEvent::PunchForwardReceived { .. }
        | MultiProtocolEvent::PubsubRedundant { .. }
        | MultiProtocolEvent::RelayForwarded { .. }
        | MultiProtocolEvent::RelayReceived { .. }
        | MultiProtocolEvent::RelayFailed { .. }
        | MultiProtocolEvent::RpcDatagram { .. }
        | MultiProtocolEvent::Rejected { .. } => Err(Error::HostState {
            reason: format!("expected ObserveRequestReceived({expected_from:?}), got {ev:?}"),
        }),
    }
}

fn expect_observe_response(
    ev: MultiProtocolEvent,
    expected_from: UdpAddr,
    expected_observed: UdpAddr,
) -> Result<(), Error> {
    match &ev {
        MultiProtocolEvent::ObserveResponseReceived { from, observed }
            if *from == expected_from && *observed == expected_observed =>
        {
            Ok(())
        }
        MultiProtocolEvent::HandshakeProgress { .. }
        | MultiProtocolEvent::HandshakeComplete { .. }
        | MultiProtocolEvent::AppData { .. }
        | MultiProtocolEvent::PubsubAbsorbed { .. }
        | MultiProtocolEvent::PubsubDelivered { .. }
        | MultiProtocolEvent::PubsubRelayed { .. }
        | MultiProtocolEvent::KadPingRequestReceived { .. }
        | MultiProtocolEvent::KadPingResponseReceived { .. }
        | MultiProtocolEvent::KadFindNodeRequestReceived { .. }
        | MultiProtocolEvent::KadFindNodeResponseReceived { .. }
        | MultiProtocolEvent::ObserveRequestReceived { .. }
        | MultiProtocolEvent::ObserveResponseReceived { .. }
        | MultiProtocolEvent::PunchRequestReceived { .. }
        | MultiProtocolEvent::PunchForwardReceived { .. }
        | MultiProtocolEvent::PubsubRedundant { .. }
        | MultiProtocolEvent::RelayForwarded { .. }
        | MultiProtocolEvent::RelayReceived { .. }
        | MultiProtocolEvent::RelayFailed { .. }
        | MultiProtocolEvent::RpcDatagram { .. }
        | MultiProtocolEvent::Rejected { .. } => Err(Error::HostState {
            reason: format!(
                "expected ObserveResponseReceived({expected_from:?}, observed={expected_observed:?}), got {ev:?}"
            ),
        }),
    }
}

fn expect_pubsub_absorbed(ev: MultiProtocolEvent, expected_topic: &Topic) -> Result<(), Error> {
    match &ev {
        MultiProtocolEvent::PubsubAbsorbed { topic, .. } if topic == expected_topic => Ok(()),
        MultiProtocolEvent::HandshakeProgress { .. }
        | MultiProtocolEvent::HandshakeComplete { .. }
        | MultiProtocolEvent::AppData { .. }
        | MultiProtocolEvent::PubsubAbsorbed { .. }
        | MultiProtocolEvent::PubsubDelivered { .. }
        | MultiProtocolEvent::PubsubRelayed { .. }
        | MultiProtocolEvent::KadPingRequestReceived { .. }
        | MultiProtocolEvent::KadPingResponseReceived { .. }
        | MultiProtocolEvent::KadFindNodeRequestReceived { .. }
        | MultiProtocolEvent::KadFindNodeResponseReceived { .. }
        | MultiProtocolEvent::ObserveRequestReceived { .. }
        | MultiProtocolEvent::ObserveResponseReceived { .. }
        | MultiProtocolEvent::PunchRequestReceived { .. }
        | MultiProtocolEvent::PunchForwardReceived { .. }
        | MultiProtocolEvent::PubsubRedundant { .. }
        | MultiProtocolEvent::RelayForwarded { .. }
        | MultiProtocolEvent::RelayReceived { .. }
        | MultiProtocolEvent::RelayFailed { .. }
        | MultiProtocolEvent::RpcDatagram { .. }
        | MultiProtocolEvent::Rejected { .. } => Err(Error::HostState {
            reason: format!("expected PubsubAbsorbed for {expected_topic:?}, got {ev:?}"),
        }),
    }
}

fn expect_pubsub_delivered(
    ev: MultiProtocolEvent,
    expected_topic: &Topic,
    expected_payload: &[u8],
) -> Result<(), Error> {
    match &ev {
        MultiProtocolEvent::PubsubDelivered { topic, data, .. } if topic == expected_topic => {
            let prefix = data
                .get(..expected_payload.len())
                .ok_or_else(|| Error::HostState {
                    reason: "delivered bytes shorter than expected payload".to_owned(),
                })?;
            check(prefix == expected_payload, || {
                format!("delivered payload mismatch: got {prefix:?}, want {expected_payload:?}")
            })
        }
        MultiProtocolEvent::HandshakeProgress { .. }
        | MultiProtocolEvent::HandshakeComplete { .. }
        | MultiProtocolEvent::AppData { .. }
        | MultiProtocolEvent::PubsubAbsorbed { .. }
        | MultiProtocolEvent::PubsubDelivered { .. }
        | MultiProtocolEvent::PubsubRelayed { .. }
        | MultiProtocolEvent::KadPingRequestReceived { .. }
        | MultiProtocolEvent::KadPingResponseReceived { .. }
        | MultiProtocolEvent::KadFindNodeRequestReceived { .. }
        | MultiProtocolEvent::KadFindNodeResponseReceived { .. }
        | MultiProtocolEvent::ObserveRequestReceived { .. }
        | MultiProtocolEvent::ObserveResponseReceived { .. }
        | MultiProtocolEvent::PunchRequestReceived { .. }
        | MultiProtocolEvent::PunchForwardReceived { .. }
        | MultiProtocolEvent::PubsubRedundant { .. }
        | MultiProtocolEvent::RelayForwarded { .. }
        | MultiProtocolEvent::RelayReceived { .. }
        | MultiProtocolEvent::RelayFailed { .. }
        | MultiProtocolEvent::RpcDatagram { .. }
        | MultiProtocolEvent::Rejected { .. } => Err(Error::HostState {
            reason: format!("expected PubsubDelivered for {expected_topic:?}, got {ev:?}"),
        }),
    }
}

/// Standard basis vectors in turn: the first `n` are linearly independent.
fn standard_basis_rng() -> impl Fn(usize) -> Result<Vec<u8>, String> {
    let counter = Cell::new(0usize);
    move |n: usize| {
        let i = counter.get();
        counter.set(i + 1);
        Ok((0..n).map(|j| u8::from(j == (i % n))).collect())
    }
}

#[test]
fn mux_carries_app_kad_rendezvous_pubsub_over_one_socket() -> Result<(), Error> {
    let net = Net::new();
    // 1. Build muxes.
    let (alice, alice_addr) = build_mux(&net, 0xA1)?;
    let (bob, bob_addr) = build_mux(&net, 0xB2)?;

    // 2. Pairwise Noise XX handshake.
    let (alice, bob) = handshake_pair(alice, bob, alice_addr, bob_addr, [0x44; 32], [0x55; 32])?;
    check(alice.is_established(bob_addr), || {
        "alice should be established with bob".to_owned()
    })?;
    check(bob.is_established(alice_addr), || {
        "bob should be established with alice".to_owned()
    })?;

    // 3. KIND_APP round trip.
    let alice = alice.send_app(bob_addr, b"hello via mux")?;
    let (bob, ev) = bob.recv_one([0; 32], unused_relay_rng)?;
    expect_app_data(ev, alice_addr, b"hello via mux")?;

    // 4. KIND_KAD round trip: alice -> bob -> alice.
    let alice = alice.kad_ping(bob_addr)?;
    let (bob, ev) = bob.recv_one([0; 32], unused_relay_rng)?;
    expect_kad_ping_request(ev, alice_addr)?;
    let (alice, ev) = alice.recv_one([0; 32], unused_relay_rng)?;
    expect_kad_ping_response(ev, bob_addr)?;

    // 5. KIND_RENDEZVOUS round trip: alice asks bob what it sees,
    //    bob auto-replies with alice's bound address.
    let alice = alice.send_observe_req(bob_addr)?;
    let (bob, ev) = bob.recv_one([0; 32], unused_relay_rng)?;
    expect_observe_request(ev, alice_addr)?;
    let (alice, ev) = alice.recv_one([0; 32], unused_relay_rng)?;
    expect_observe_response(ev, bob_addr, alice_addr)?;

    // 6. KIND_PUBSUB broadcast: bob registers, alice broadcasts 2
    //    pieces, bob's decoder absorbs the first and decodes on the
    //    second.
    let topic: Topic = "/mux/test".try_into()?;
    let payload: &[u8] = b"hello mux pubsub";
    let piece_count: usize = 2;
    let data = OriginalData::from_bytes(payload, piece_count).map_err(|e| Error::RlncLayer {
        reason: e.to_string(),
    })?;
    let piece_byte_len = data.piece_byte_len();
    let bob = bob.register_topic(topic.clone(), piece_count, piece_byte_len, ());

    let (_alice_after, ()) = alice
        .broadcast(topic.clone(), data, piece_count, standard_basis_rng())?;

    let (bob, ev) = bob.recv_one([0; 32], unused_relay_rng)?;
    expect_pubsub_absorbed(ev, &topic)?;
    let (_bob_after, ev) = bob.recv_one([0; 32], unused_relay_rng)?;
    expect_pubsub_delivered(ev, &topic, payload)?;

    Ok(())
}
