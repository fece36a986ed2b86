//! A source and two decoders, over sessions agreed on beforehand.

use std::cell::{Cell, RefCell};
use std::rc::Rc;

use libp2p_cat::addr::{Outbound, UdpAddr};
use libp2p_cat::error::Error;
use libp2p_cat::noise::{Initiator, Responder, StaticKeypair, TransportState};
use libp2p_cat::pubsub::{DeliveredMessage, PubsubNode, Topic};
use rlnc_cat_rs::coding::piece::OriginalData;

/// Datagrams under way, oldest first: receiver, sender, bytes.
type Queue = Rc<RefCell<Vec<(UdpAddr, UdpAddr, Vec<u8>)>>>;

/// A network in memory. Each socket gets a port of its own.
struct Net {
    queue: Queue,
    ports: Cell<u16>,
}

impl Net {
    fn new() -> Net {
        Net {
            queue: Rc::new(RefCell::new(Vec::new())),
            ports: Cell::new(4000),
        }
    }

    fn bind(&self) -> Socket {
        let port = self.ports.get();
        self.ports.set(port + 1);
        Socket {
            addr: UdpAddr::v4([127, 0, 0, 1], port),
            queue: Rc::clone(&self.queue),
        }
    }
}

struct Socket {
    addr: UdpAddr,
    queue: Queue,
}

impl Socket {
    fn local_addr(&self) -> UdpAddr {
        self.addr
    }

    fn send(self, to: UdpAddr, datagram: Vec<u8>) -> Socket {
        self.queue.borrow_mut().push((to, self.addr, datagram));
        self
    }

    fn send_out(self, outbound: Outbound) -> Socket {
        self.send(outbound.addr, outbound.datagram)
    }

    fn recv(self) -> Result<((UdpAddr, Vec<u8>), Socket), Error> {
        let found = self
            .queue
            .borrow()
            .iter()
            .position(|(to, _, _)| *to == self.addr);
        match found {
            Some(at) => {
                let (_, from, datagram) = self.queue.borrow_mut().remove(at);
                Ok(((from, datagram), self))
            }
            None => Err(Error::Io("nothing to receive".to_owned())),
        }
    }
}

/// Drive a Noise XX handshake between two parties entirely in memory
/// and return the two resulting [`TransportState`]s.
fn paired_handshake(
    a: StaticKeypair,
    b: StaticKeypair,
    a_eph: [u8; 32],
    b_eph: [u8; 32],
) -> Result<(TransportState, TransportState), Error> {
    let (a_after_e, msg1) = Initiator::new(a).write_e(a_eph)?;
    let b_after_e = Responder::new(b).read_e(&msg1)?;
    let (b_after_resp, msg2) = b_after_e.write_response(b_eph, &[])?;
    let (a_after_resp, _msg2_payload) = a_after_e.read_response(&msg2)?;
    let (a_transport, msg3, _) = a_after_resp.write_s(&[])?;
    let (b_transport, _, _msg3_payload) = b_after_resp.read_s(&msg3)?;
    Ok((a_transport, b_transport))
}

/// Standard basis vectors in turn: the first `n` are linearly independent.
fn standard_basis_rng() -> impl Fn(usize) -> Result<Vec<u8>, String> {
    let counter = Cell::new(0usize);
    move |n: usize| {
        let i = counter.get();
        counter.set(i + 1);
        Ok((0..n).map(|j| u8::from(j == (i % n))).collect())
    }
}

/// Takes `n` datagrams off a socket; gives back what was delivered meanwhile.
fn drain_recv(
    node: PubsubNode,
    socket: Socket,
    n: usize,
) -> Result<(PubsubNode, Vec<DeliveredMessage>), Error> {
    let mut node = node;
    let mut socket = socket;
    let mut deliveries = Vec::new();
    for _ in 0..n {
        let ((from, datagram), rest) = socket.recv()?;
        let (next, maybe) = node.recv_one(from, &datagram)?;
        node = next;
        socket = rest;
        deliveries.extend(maybe);
    }
    Ok((node, deliveries))
}

#[test]
fn three_node_rlnc_broadcast_decodes_at_both_receivers() -> Result<(), Error> {
    let net = Net::new();
    // 1. Bind sockets.
    let alice_socket = net.bind();
    let bob_socket = net.bind();
    let carol_socket = net.bind();
    let alice_addr = alice_socket.local_addr();
    let bob_addr = bob_socket.local_addr();
    let carol_addr = carol_socket.local_addr();

    // 2. Static keys + pairwise handshakes (in memory).
    let alice_kp = StaticKeypair::from_private_bytes([0x11; 32]);
    let bob_kp = StaticKeypair::from_private_bytes([0x22; 32]);
    let carol_kp = StaticKeypair::from_private_bytes([0x33; 32]);
    let (alice_to_bob, bob_to_alice) =
        paired_handshake(alice_kp.clone(), bob_kp, [0x44; 32], [0x55; 32])?;
    let (alice_to_carol, carol_to_alice) =
        paired_handshake(alice_kp, carol_kp, [0x66; 32], [0x77; 32])?;

    // 3. Build pubsub nodes and register the topic on receivers.
    let topic: Topic = "/chat/v1".try_into()?;
    let payload: &[u8] = b"hello pubsub world";
    let piece_count: usize = 3;
    let data = OriginalData::from_bytes(payload, piece_count).map_err(|e| Error::RlncLayer {
        reason: e.to_string(),
    })?;
    let piece_byte_len = data.piece_byte_len();

    let alice_node = PubsubNode::new();
    let (alice_node, _bob_idx) = alice_node.add_peer(bob_addr, alice_to_bob);
    let (alice_node, _carol_idx) = alice_node.add_peer(carol_addr, alice_to_carol);

    let bob_node = PubsubNode::new();
    let (bob_node, _alice_idx_b) = bob_node.add_peer(alice_addr, bob_to_alice);
    let bob_node = bob_node.register_topic(topic.clone(), piece_count, piece_byte_len);

    let carol_node = PubsubNode::new();
    let (carol_node, _alice_idx_c) = carol_node.add_peer(alice_addr, carol_to_alice);
    let carol_node = carol_node.register_topic(topic.clone(), piece_count, piece_byte_len);

    // 4. Alice broadcasts piece_count frames, fanned out to both peers.
    let (_alice_after, outbound) = alice_node
        .broadcast(topic.clone(), data, piece_count, standard_basis_rng())?;
    let _alice_socket = outbound.into_iter().fold(alice_socket, Socket::send_out);

    // 5. Bob and Carol each pull piece_count datagrams off the socket.
    let (_bob_after, bob_deliveries) = drain_recv(bob_node, bob_socket, piece_count)?;
    let (_carol_after, carol_deliveries) = drain_recv(carol_node, carol_socket, piece_count)?;

    // The third absorbed piece on each side should have completed the
    // decoder.
    let bob_msg = bob_deliveries
        .into_iter()
        .next()
        .ok_or_else(|| Error::PubsubProtocol {
            reason: "bob did not decode the message".to_owned(),
        })?;
    let carol_msg = carol_deliveries
        .into_iter()
        .next()
        .ok_or_else(|| Error::PubsubProtocol {
            reason: "carol did not decode the message".to_owned(),
        })?;

    let check = |cond: bool, reason: &str| -> Result<(), Error> {
        if cond {
            Ok(())
        } else {
            Err(Error::PubsubProtocol {
                reason: reason.to_owned(),
            })
        }
    };
    check(bob_msg.topic == topic, "bob topic mismatch")?;
    check(carol_msg.topic == topic, "carol topic mismatch")?;
    let bob_prefix = bob_msg
        .data
        .get(..payload.len())
        .ok_or_else(|| Error::PubsubProtocol {
            reason: "bob's reconstructed bytes shorter than original payload".to_owned(),
        })?;
    let carol_prefix =
        carol_msg
            .data
            .get(..payload.len())
            .ok_or_else(|| Error::PubsubProtocol {
                reason: "carol's reconstructed bytes shorter than original payload".to_owned(),
            })?;
    check(bob_prefix == payload, "bob payload mismatch")?;
    check(carol_prefix == payload, "carol payload mismatch")?;
    Ok(())
}
