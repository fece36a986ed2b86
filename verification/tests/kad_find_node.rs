//! A node learns peers from the table of another.

use std::cell::{Cell, RefCell};
use std::ops::Deref;
use std::rc::Rc;

use libp2p_cat::addr::{Outbound, UdpAddr};
use libp2p_cat::error::Error;
use libp2p_cat::host::Host;
use libp2p_cat::identity::Ed25519Keypair;
use libp2p_cat::kad::{KadEvent, KademliaNode, NodeId};
use libp2p_cat::noise::StaticKeypair;

/// Datagrams under way, oldest first: receiver, sender, bytes.
type Queue = Rc<RefCell<Vec<(UdpAddr, UdpAddr, Vec<u8>)>>>;

/// A network in memory. Each socket gets a port of its own.
struct Net {
    queue: Queue,
    ports: Cell<u16>,
}

impl Net {
    fn new() -> Net {
        Net {
            queue: Rc::new(RefCell::new(Vec::new())),
            ports: Cell::new(4000),
        }
    }

    fn bind(&self) -> Socket {
        let port = self.ports.get();
        self.ports.set(port + 1);
        Socket {
            addr: UdpAddr::v4([127, 0, 0, 1], port),
            queue: Rc::clone(&self.queue),
        }
    }
}

struct Socket {
    addr: UdpAddr,
    queue: Queue,
}

impl Socket {
    fn local_addr(&self) -> UdpAddr {
        self.addr
    }

    fn send(self, to: UdpAddr, datagram: Vec<u8>) -> Socket {
        self.queue.borrow_mut().push((to, self.addr, datagram));
        self
    }

    fn send_out(self, outbound: Outbound) -> Socket {
        self.send(outbound.addr, outbound.datagram)
    }

    fn recv(self) -> Result<((UdpAddr, Vec<u8>), Socket), Error> {
        let found = self
            .queue
            .borrow()
            .iter()
            .position(|(to, _, _)| *to == self.addr);
        match found {
            Some(at) => {
                let (_, from, datagram) = self.queue.borrow_mut().remove(at);
                Ok(((from, datagram), self))
            }
            None => Err(Error::Io("nothing to receive".to_owned())),
        }
    }
}

/// A Kademlia node at its socket.
struct Node {
    kad: KademliaNode,
    socket: Socket,
}

impl Deref for Node {
    type Target = KademliaNode;

    fn deref(&self) -> &KademliaNode {
        &self.kad
    }
}

impl Node {
    fn dial(self, addr: UdpAddr, seed: [u8; 32]) -> Result<Node, Error> {
        let (kad, outbound) = self.kad.dial(addr, seed)?;
        let socket = self.socket.send_out(outbound);
        Ok(Node { kad, socket })
    }

    fn recv_one(self, seed: [u8; 32]) -> Result<(Node, KadEvent), Error> {
        let ((from, datagram), socket) = self.socket.recv()?;
        let (kad, event, reply) = self.kad.recv_one(from, &datagram, seed)?;
        let socket = reply.into_iter().fold(socket, Socket::send_out);
        Ok((Node { kad, socket }, event))
    }

    fn find_node(self, peer: UdpAddr, target: NodeId) -> Result<Node, Error> {
        let (kad, outbound) = self.kad.find_node(peer, target)?;
        let socket = self.socket.send_out(outbound);
        Ok(Node { kad, socket })
    }
}

fn check(cond: bool, reason: impl FnOnce() -> String) -> Result<(), Error> {
    if cond {
        Ok(())
    } else {
        Err(Error::HostState { reason: reason() })
    }
}

fn build_node(net: &Net, static_seed: u8, identity_seed: u8) -> Result<(Node, UdpAddr), Error> {
    let socket = net.bind();
    let addr = socket.local_addr();
    let static_kp = StaticKeypair::from_private_bytes([static_seed; 32]);
    let identity = Ed25519Keypair::from_seed([identity_seed; 32]);
    let host = Host::new(static_kp, &identity, [0x4A; 32])?;
    Ok((Node { kad: KademliaNode::new(host, 20), socket }, addr))
}

fn expect_progress(ev: KadEvent, expected_addr: UdpAddr) -> Result<(), Error> {
    match ev {
        KadEvent::HandshakeProgress { addr } if addr == expected_addr => Ok(()),
        other @ (KadEvent::HandshakeProgress { .. }
        | KadEvent::HandshakeComplete { .. }
        | KadEvent::PingRequestReceived { .. }
        | KadEvent::PingResponseReceived { .. }
        | KadEvent::FindNodeRequestReceived { .. }
        | KadEvent::FindNodeResponseReceived { .. }
        | KadEvent::Rejected { .. }) => Err(Error::HostState {
            reason: format!("expected HandshakeProgress({expected_addr:?}), got {other:?}"),
        }),
    }
}

fn expect_complete(ev: KadEvent, expected_addr: UdpAddr) -> Result<NodeId, Error> {
    match ev {
        KadEvent::HandshakeComplete {
            addr,
            remote_node_id,
            ..
        } if addr == expected_addr => Ok(remote_node_id),
        other @ (KadEvent::HandshakeProgress { .. }
        | KadEvent::HandshakeComplete { .. }
        | KadEvent::PingRequestReceived { .. }
        | KadEvent::PingResponseReceived { .. }
        | KadEvent::FindNodeRequestReceived { .. }
        | KadEvent::FindNodeResponseReceived { .. }
        | KadEvent::Rejected { .. }) => Err(Error::HostState {
            reason: format!("expected HandshakeComplete({expected_addr:?}), got {other:?}"),
        }),
    }
}

/// Drive a Noise XX handshake to completion between two
/// Kademlia nodes where `initiator` calls `dial` first.
fn handshake_pair(
    initiator: Node,
    responder: Node,
    initiator_addr: UdpAddr,
    responder_addr: UdpAddr,
    initiator_seed: [u8; 32],
    responder_seed: [u8; 32],
) -> Result<(Node, Node), Error> {
    let initiator = initiator.dial(responder_addr, initiator_seed)?;
    // step1: responder answers bare msg1 with a cookie challenge (no state created).
    let (responder, ev_cookie_challenge) = responder.recv_one(responder_seed)?;
    expect_progress(ev_cookie_challenge, initiator_addr)?;
    // step2: initiator echoes the cookie (re-sends msg1||cookie).
    let (initiator, ev_cookie_echo) = initiator.recv_one([0; 32])?;
    expect_progress(ev_cookie_echo, responder_addr)?;
    // step3: responder validates the cookie, consumes msg1, writes msg2.
    let (responder, ev_progress) = responder.recv_one(responder_seed)?;
    expect_progress(ev_progress, initiator_addr)?;
    // step4: initiator consumes msg2, writes msg3.
    let (initiator, ev_initiator_complete) = initiator.recv_one([0; 32])?;
    let _ = expect_complete(ev_initiator_complete, responder_addr)?;
    // step5: responder consumes msg3.
    let (responder, ev_responder_complete) = responder.recv_one([0; 32])?;
    let _ = expect_complete(ev_responder_complete, initiator_addr)?;
    Ok((initiator, responder))
}

#[test]
fn find_node_returns_peers_from_responders_routing_table() -> Result<(), Error> {
    let net = Net::new();
    let (alice, alice_addr) = build_node(&net, 0xA1, 0x11)?;
    let (bob, bob_addr) = build_node(&net, 0xB2, 0x22)?;
    let (carol, carol_addr) = build_node(&net, 0xC3, 0x33)?;

    let carol_node_id = *carol.node_id();
    let alice_node_id = *alice.node_id();

    // 1. Alice <-> Bob handshake (Alice initiates).
    let (alice, bob) = handshake_pair(alice, bob, alice_addr, bob_addr, [0xE1; 32], [0xE2; 32])?;

    // 2. Bob <-> Carol handshake (Bob initiates).
    let (bob, carol) = handshake_pair(bob, carol, bob_addr, carol_addr, [0xE3; 32], [0xE4; 32])?;
    let _carol_unused = carol; // Carol does not participate in the FIND_NODE flow.

    // Sanity: bob's table should now hold both alice and carol.
    check(bob.routing_table().contains(&alice_node_id), || {
        "bob's table should contain alice".to_owned()
    })?;
    check(bob.routing_table().contains(&carol_node_id), || {
        "bob's table should contain carol".to_owned()
    })?;
    check(!alice.routing_table().contains(&carol_node_id), || {
        "alice's table should NOT yet contain carol (she has not heard of carol)".to_owned()
    })?;

    // 3. Alice asks Bob FIND_NODE(target = carol_node_id).
    let alice = alice.find_node(bob_addr, carol_node_id)?;

    // 4. Bob receives FIND_NODE_REQ, auto-replies, surfaces
    //    FindNodeRequestReceived.
    let (_bob, ev_bob) = bob.recv_one([0; 32])?;
    let returned = match ev_bob {
        KadEvent::FindNodeRequestReceived {
            from,
            target,
            returned,
        } if from == alice_addr && target == carol_node_id => Ok(returned),
        other @ (KadEvent::HandshakeProgress { .. }
        | KadEvent::HandshakeComplete { .. }
        | KadEvent::PingRequestReceived { .. }
        | KadEvent::PingResponseReceived { .. }
        | KadEvent::FindNodeRequestReceived { .. }
        | KadEvent::FindNodeResponseReceived { .. }
        | KadEvent::Rejected { .. }) => Err(Error::HostState {
            reason: format!(
                "bob: expected FindNodeRequestReceived(from={alice_addr:?}), got {other:?}"
            ),
        }),
    }?;
    check(returned == 2, || {
        format!("bob should have returned 2 peers (alice + carol), got {returned}")
    })?;

    // 5. Alice receives FIND_NODE_RESP and her table absorbs carol.
    let (alice, ev_alice) = alice.recv_one([0; 32])?;
    let peers = match ev_alice {
        KadEvent::FindNodeResponseReceived { from, peers } if from == bob_addr => Ok(peers),
        other @ (KadEvent::HandshakeProgress { .. }
        | KadEvent::HandshakeComplete { .. }
        | KadEvent::PingRequestReceived { .. }
        | KadEvent::PingResponseReceived { .. }
        | KadEvent::FindNodeRequestReceived { .. }
        | KadEvent::FindNodeResponseReceived { .. }
        | KadEvent::Rejected { .. }) => Err(Error::HostState {
            reason: format!(
                "alice: expected FindNodeResponseReceived(from={bob_addr:?}), got {other:?}"
            ),
        }),
    }?;
    check(peers.len() == 2, || {
        format!("response should hold 2 peers, got {}", peers.len())
    })?;
    let mentions_carol = peers
        .iter()
        .any(|(id, addr)| *id == carol_node_id && *addr == carol_addr);
    check(mentions_carol, || {
        "response should mention carol with her actual address".to_owned()
    })?;
    check(alice.routing_table().contains(&carol_node_id), || {
        "alice's table should now contain carol after observing bob's response".to_owned()
    })
}
