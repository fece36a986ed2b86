//! Messages between two established hosts, and junk that does no harm.
use std::cell::{Cell, RefCell};
use std::ops::Deref;
use std::rc::Rc;

use libp2p_cat::addr::{Outbound, UdpAddr};
use libp2p_cat::error::Error;
use libp2p_cat::host::{Host, HostEvent};
use libp2p_cat::identity::Ed25519Keypair;
use libp2p_cat::noise::{StaticKeypair, TRANSPORT_OVERHEAD};

/// Datagrams under way, oldest first: receiver, sender, bytes.
type Queue = Rc<RefCell<Vec<(UdpAddr, UdpAddr, Vec<u8>)>>>;

/// A network in memory. Each socket gets a port of its own.
struct Net {
    queue: Queue,
    ports: Cell<u16>,
}

impl Net {
    fn new() -> Net {
        Net {
            queue: Rc::new(RefCell::new(Vec::new())),
            ports: Cell::new(4000),
        }
    }

    fn bind(&self) -> Socket {
        let port = self.ports.get();
        self.ports.set(port + 1);
        Socket {
            addr: UdpAddr::v4([127, 0, 0, 1], port),
            queue: Rc::clone(&self.queue),
        }
    }
}

struct Socket {
    addr: UdpAddr,
    queue: Queue,
}

impl Socket {
    fn local_addr(&self) -> UdpAddr {
        self.addr
    }

    fn send(self, to: UdpAddr, datagram: Vec<u8>) -> Socket {
        self.queue.borrow_mut().push((to, self.addr, datagram));
        self
    }

    fn send_out(self, outbound: Outbound) -> Socket {
        self.send(outbound.addr, outbound.datagram)
    }

    fn recv(self) -> Result<((UdpAddr, Vec<u8>), Socket), Error> {
        let found = self
            .queue
            .borrow()
            .iter()
            .position(|(to, _, _)| *to == self.addr);
        match found {
            Some(at) => {
                let (_, from, datagram) = self.queue.borrow_mut().remove(at);
                Ok(((from, datagram), self))
            }
            None => Err(Error::Io("nothing to receive".to_owned())),
        }
    }
}

/// A host at its socket.
struct Node {
    host: Host,
    socket: Socket,
}

impl Deref for Node {
    type Target = Host;

    fn deref(&self) -> &Host {
        &self.host
    }
}

impl Node {
    fn new(
        socket: Socket,
        keypair: StaticKeypair,
        identity: &Ed25519Keypair,
        secret: [u8; 32],
    ) -> Result<Node, Error> {
        let host = Host::new(keypair, identity, secret)?;
        Ok(Node { host, socket })
    }

    fn dial(self, addr: UdpAddr, seed: [u8; 32]) -> Result<Node, Error> {
        let (host, outbound) = self.host.dial(addr, seed)?;
        let socket = self.socket.send_out(outbound);
        Ok(Node { host, socket })
    }

    fn recv_one(self, seed: [u8; 32]) -> Result<(Node, HostEvent), Error> {
        let ((from, datagram), socket) = self.socket.recv()?;
        let (host, event, reply) = self.host.recv_one(from, &datagram, seed);
        let socket = match reply {
            Some(outbound) => socket.send_out(outbound),
            None => socket,
        };
        Ok((Node { host, socket }, event))
    }

    fn send(self, addr: UdpAddr, plaintext: Vec<u8>) -> Result<Node, Error> {
        let (host, outbound) = self.host.send(addr, &plaintext)?;
        let socket = self.socket.send_out(outbound);
        Ok(Node { host, socket })
    }

    fn send_raw(self, addr: UdpAddr, datagram: Vec<u8>) -> Node {
        let (host, outbound) = self.host.send_raw(addr, datagram);
        let socket = self.socket.send_out(outbound);
        Node { host, socket }
    }
}

fn check(cond: bool, reason: impl FnOnce() -> String) -> Result<(), Error> {
    if cond {
        Ok(())
    } else {
        Err(Error::HostState { reason: reason() })
    }
}

/// Drive the XX handshake (cookie challenge, cookie echo, then the
/// three Noise messages) to completion between two hosts and return
/// them in `(initiator, responder)` order alongside their loopback
/// addresses.
fn established_pair(net: &Net) -> Result<(Node, Node, UdpAddr, UdpAddr), Error> {
    let alice_socket = net.bind();
    let bob_socket = net.bind();
    let alice_addr = alice_socket.local_addr();
    let bob_addr = bob_socket.local_addr();

    let alice_kp = StaticKeypair::from_private_bytes([0xC1; 32]);
    let bob_kp = StaticKeypair::from_private_bytes([0xC2; 32]);
    let alice_id = Ed25519Keypair::from_seed([0x31; 32]);
    let bob_id = Ed25519Keypair::from_seed([0x32; 32]);

    let alice = Node::new(alice_socket, alice_kp, &alice_id, [0x3A; 32])?
        .dial(bob_addr, [0xE1; 32])?;
    let bob = Node::new(bob_socket, bob_kp, &bob_id, [0x3B; 32])?;
    let (bob, _ev_challenge) = bob.recv_one([0xE2; 32])?;
    let (alice, _ev_echo) = alice.recv_one([0; 32])?;
    let (bob, _ev1) = bob.recv_one([0xE2; 32])?;
    let (alice, _ev2) = alice.recv_one([0; 32])?;
    let (bob, _ev3) = bob.recv_one([0; 32])?;

    check(alice.is_established(bob_addr), || {
        "alice should be established with bob after handshake".to_owned()
    })?;
    check(bob.is_established(alice_addr), || {
        "bob should be established with alice after handshake".to_owned()
    })?;

    Ok((alice, bob, alice_addr, bob_addr))
}

fn expect_delivered(
    event: HostEvent,
    expected_addr: UdpAddr,
    expected_plaintext: &[u8],
) -> Result<(), Error> {
    match event {
        HostEvent::DatagramDelivered { addr, plaintext }
            if addr == expected_addr && plaintext == expected_plaintext =>
        {
            Ok(())
        }
        HostEvent::DatagramDelivered { addr, plaintext } => Err(Error::HostState {
            reason: format!(
                "DatagramDelivered shape mismatch: addr={addr:?}, plaintext={plaintext:?}"
            ),
        }),
        other @ (HostEvent::HandshakeProgress { .. }
        | HostEvent::HandshakeComplete { .. }
        | HostEvent::Rejected { .. }) => Err(Error::HostState {
            reason: format!("expected DatagramDelivered, got {other:?}"),
        }),
    }
}

fn expect_rejected(event: HostEvent, expected_addr: UdpAddr) -> Result<(), Error> {
    match event {
        HostEvent::Rejected { addr, .. } if addr == expected_addr => Ok(()),
        other @ (HostEvent::HandshakeProgress { .. }
        | HostEvent::HandshakeComplete { .. }
        | HostEvent::DatagramDelivered { .. }
        | HostEvent::Rejected { .. }) => Err(Error::HostState {
            reason: format!("expected Rejected({expected_addr:?}), got {other:?}"),
        }),
    }
}

#[test]
fn established_hosts_round_trip_a_message_each_way() -> Result<(), Error> {
    let net = Net::new();
    let (alice, bob, alice_addr, bob_addr) = established_pair(&net)?;

    // Alice -> Bob.
    let alice = alice.send(bob_addr, b"hello bob".to_vec())?;
    let (bob, ev_a2b) = bob.recv_one([0; 32])?;
    expect_delivered(ev_a2b, alice_addr, b"hello bob")?;

    // Bob -> Alice.
    let bob = bob.send(alice_addr, b"hi alice".to_vec())?;
    let (alice, ev_b2a) = alice.recv_one([0; 32])?;
    expect_delivered(ev_b2a, bob_addr, b"hi alice")?;

    // Both sides should still be established and have one peer each.
    check(alice.established_connections() == 1, || {
        "alice should have 1 established connection".to_owned()
    })?;
    check(bob.established_connections() == 1, || {
        "bob should have 1 established connection".to_owned()
    })
}

#[test]
fn send_to_unknown_peer_errors() -> Result<(), Error> {
    let net = Net::new();
    let alice_socket = net.bind();
    let alice_kp = StaticKeypair::from_private_bytes([0xD1; 32]);
    let alice_id = Ed25519Keypair::from_seed([0x33; 32]);
    let alice = Node::new(alice_socket, alice_kp, &alice_id, [0x3C; 32])?;

    let bob_socket = net.bind();
    let bob_addr = bob_socket.local_addr();

    match alice.send(bob_addr, b"nope".to_vec()) {
        Err(Error::HostState { .. }) => Ok(()),
        Ok(_) => Err(Error::HostState {
            reason: "send to non-established peer should have failed".to_owned(),
        }),
        Err(other) => Err(Error::HostState {
            reason: format!("expected HostState error, got {other:?}"),
        }),
    }
}

#[test]
fn junk_from_unknown_peer_is_rejected() -> Result<(), Error> {
    let net = Net::new();
    let (alice, bob, _alice_addr, bob_addr) = established_pair(&net)?;

    // A fresh socket forges an unauthenticated 24-byte datagram
    // (TRANSPORT_OVERHEAD bytes) to bob.  From bob's perspective it
    // comes from a brand-new peer and is neither a bare msg1 nor a
    // msg1 with a cookie, so the dispatcher rejects it without creating any state.
    let attacker_socket = net.bind();
    let attacker_addr = attacker_socket.local_addr();
    let _attacker_after = attacker_socket
        .send(bob_addr, vec![0u8; TRANSPORT_OVERHEAD]);

    let (bob, ev) = bob.recv_one([0; 32])?;
    expect_rejected(ev, attacker_addr)?;
    check(bob.handshakes_in_flight() == 0, || {
        "junk from an unknown peer must not create handshake state".to_owned()
    })?;

    // Alice's connection to bob is still intact since we never
    // tampered with traffic from her actual socket.
    check(alice.is_established(bob_addr), || {
        "alice's connection to bob should be unaffected".to_owned()
    })
}

#[test]
fn session_survives_junk_from_established_address() -> Result<(), Error> {
    let net = Net::new();
    let (alice, bob, alice_addr, bob_addr) = established_pair(&net)?;

    // Junk arriving from an *established* peer's address (here sent
    // via alice's real socket with `send_raw`, exactly what an
    // off-path attacker spoofing her address would produce) must not
    // tear down the session: the datagram is dropped, the connection
    // and its replay window stay intact, and genuine traffic still
    // flows afterwards.
    let alice = alice
        .send_raw(
            bob_addr,
            vec![0xFF; TRANSPORT_OVERHEAD + 7],
        );
    let (bob, ev_junk) = bob.recv_one([0; 32])?;
    expect_rejected(ev_junk, alice_addr)?;
    check(bob.is_established(alice_addr), || {
        "bob must keep the established session after a junk datagram".to_owned()
    })?;

    let _alice = alice.send(bob_addr, b"still here".to_vec())?;
    let (bob, ev_real) = bob.recv_one([0; 32])?;
    expect_delivered(ev_real, alice_addr, b"still here")?;
    check(bob.is_established(alice_addr), || {
        "session should remain established after recovery".to_owned()
    })
}
