//! A lookup through the envelope of all protocols.

use std::cell::{Cell, RefCell};
use std::ops::Deref;
use std::rc::Rc;
use std::sync::Arc;

use libp2p_cat::addr::{Outbound, UdpAddr};
use libp2p_cat::error::Error;
use libp2p_cat::host::Host;
use libp2p_cat::identity::Ed25519Keypair;
use libp2p_cat::kad::{LookupConfig, NodeId};
use libp2p_cat::mux::{absorb_search_event, Inbound, MultiProtocolEvent, MultiProtocolNode};
use libp2p_cat::noise::StaticKeypair;
use libp2p_cat::pubsub::{unused_relay_rng, NullAuthenticator};

/// Datagrams under way, oldest first: receiver, sender, bytes.
type Queue = Rc<RefCell<Vec<(UdpAddr, UdpAddr, Vec<u8>)>>>;

/// A network in memory. Each socket gets a port of its own.
struct Net {
    queue: Queue,
    ports: Cell<u16>,
}

impl Net {
    fn new() -> Net {
        Net {
            queue: Rc::new(RefCell::new(Vec::new())),
            ports: Cell::new(4000),
        }
    }

    fn bind(&self) -> Socket {
        let port = self.ports.get();
        self.ports.set(port + 1);
        Socket {
            addr: UdpAddr::v4([127, 0, 0, 1], port),
            queue: Rc::clone(&self.queue),
        }
    }
}

struct Socket {
    addr: UdpAddr,
    queue: Queue,
}

impl Socket {
    fn local_addr(&self) -> UdpAddr {
        self.addr
    }

    fn send(self, to: UdpAddr, datagram: Vec<u8>) -> Socket {
        self.queue.borrow_mut().push((to, self.addr, datagram));
        self
    }

    fn send_out(self, outbound: Outbound) -> Socket {
        self.send(outbound.addr, outbound.datagram)
    }

    fn recv(self) -> Result<((UdpAddr, Vec<u8>), Socket), Error> {
        let found = self
            .queue
            .borrow()
            .iter()
            .position(|(to, _, _)| *to == self.addr);
        match found {
            Some(at) => {
                let (_, from, datagram) = self.queue.borrow_mut().remove(at);
                Ok(((from, datagram), self))
            }
            None => Err(Error::Io("nothing to receive".to_owned())),
        }
    }
}

/// A node of all protocols at its socket.
struct Node {
    mux: MultiProtocolNode<NullAuthenticator>,
    socket: Socket,
}

impl Deref for Node {
    type Target = MultiProtocolNode<NullAuthenticator>;

    fn deref(&self) -> &MultiProtocolNode<NullAuthenticator> {
        &self.mux
    }
}

impl Node {
    fn dial(self, addr: UdpAddr, seed: [u8; 32]) -> Result<Node, Error> {
        let (mux, outbound) = self.mux.dial(addr, seed)?;
        let socket = self.socket.send_out(outbound);
        Ok(Node { mux, socket })
    }

    fn recv_one<R: FnOnce(usize) -> Result<Vec<u8>, String>>(
        self,
        seed: [u8; 32],
        rng: R,
    ) -> Result<(Node, MultiProtocolEvent), Error> {
        let ((from, datagram), socket) = self.socket.recv()?;
        let (mux, inbound, outbound) = self.mux.recv_one(from, &datagram, seed, rng)?;
        let socket = outbound.into_iter().fold(socket, Socket::send_out);
        match inbound {
            Inbound::Event(event) => Ok((Node { mux, socket }, event)),
            Inbound::Rendezvous { .. } => Err(Error::HostState {
                reason: "no rendezvous frame was sent".to_owned(),
            }),
        }
    }

    /// Whether a datagram waits at the socket.
    fn has_datagram(&self) -> bool {
        let waiting = self.socket.queue.borrow();
        waiting.iter().any(|(to, _, _)| *to == self.socket.addr)
    }
}

type NullMux = Node;

const KAD_K: usize = 20;

fn check(cond: bool, reason: impl FnOnce() -> String) -> Result<(), Error> {
    if cond {
        Ok(())
    } else {
        Err(Error::HostState { reason: reason() })
    }
}

fn build_mux(net: &Net, seed: u8) -> Result<(NullMux, UdpAddr), Error> {
    let socket = net.bind();
    let addr = socket.local_addr();
    let keypair = StaticKeypair::from_private_bytes([seed; 32]);
    let identity = Ed25519Keypair::from_seed([seed.wrapping_add(1); 32]);
    let host = Host::new(keypair, &identity, [seed.wrapping_add(2); 32])?;
    let mux = MultiProtocolNode::new(host, Arc::new(NullAuthenticator), KAD_K);
    Ok((Node { mux, socket }, addr))
}

fn handshake_pair(
    initiator: NullMux,
    responder: NullMux,
    initiator_addr: UdpAddr,
    responder_addr: UdpAddr,
    initiator_seed: [u8; 32],
    responder_seed: [u8; 32],
) -> Result<(NullMux, NullMux), Error> {
    let initiator = initiator.dial(responder_addr, initiator_seed)?;
    // Cookie round-trip then the three Noise messages.
    let (responder, ev) = responder.recv_one(responder_seed, unused_relay_rng)?;
    expect_handshake_progress(ev, initiator_addr)?;
    let (initiator, ev) = initiator.recv_one([0; 32], unused_relay_rng)?;
    expect_handshake_progress(ev, responder_addr)?;
    let (responder, ev) = responder.recv_one(responder_seed, unused_relay_rng)?;
    expect_handshake_progress(ev, initiator_addr)?;
    let (initiator, ev) = initiator.recv_one([0; 32], unused_relay_rng)?;
    expect_handshake_complete(ev, responder_addr)?;
    let (responder, ev) = responder.recv_one([0; 32], unused_relay_rng)?;
    expect_handshake_complete(ev, initiator_addr)?;
    Ok((initiator, responder))
}

fn expect_handshake_progress(ev: MultiProtocolEvent, expected: UdpAddr) -> Result<(), Error> {
    match ev {
        MultiProtocolEvent::HandshakeProgress { addr } if addr == expected => Ok(()),
        other @ (MultiProtocolEvent::HandshakeProgress { .. }
        | MultiProtocolEvent::HandshakeComplete { .. }
        | MultiProtocolEvent::AppData { .. }
        | MultiProtocolEvent::PubsubAbsorbed { .. }
        | MultiProtocolEvent::PubsubDelivered { .. }
        | MultiProtocolEvent::PubsubRelayed { .. }
        | MultiProtocolEvent::KadPingRequestReceived { .. }
        | MultiProtocolEvent::KadPingResponseReceived { .. }
        | MultiProtocolEvent::KadFindNodeRequestReceived { .. }
        | MultiProtocolEvent::KadFindNodeResponseReceived { .. }
        | MultiProtocolEvent::ObserveRequestReceived { .. }
        | MultiProtocolEvent::ObserveResponseReceived { .. }
        | MultiProtocolEvent::PunchRequestReceived { .. }
        | MultiProtocolEvent::PunchForwardReceived { .. }
        | MultiProtocolEvent::PubsubRedundant { .. }
        | MultiProtocolEvent::RelayForwarded { .. }
        | MultiProtocolEvent::RelayReceived { .. }
        | MultiProtocolEvent::RelayFailed { .. }
        | MultiProtocolEvent::RpcDatagram { .. }
        | MultiProtocolEvent::Rejected { .. }) => Err(Error::HostState {
            reason: format!("expected HandshakeProgress({expected:?}), got {other:?}"),
        }),
    }
}

fn expect_handshake_complete(ev: MultiProtocolEvent, expected: UdpAddr) -> Result<(), Error> {
    match ev {
        MultiProtocolEvent::HandshakeComplete { addr, .. } if addr == expected => Ok(()),
        other @ (MultiProtocolEvent::HandshakeProgress { .. }
        | MultiProtocolEvent::HandshakeComplete { .. }
        | MultiProtocolEvent::AppData { .. }
        | MultiProtocolEvent::PubsubAbsorbed { .. }
        | MultiProtocolEvent::PubsubDelivered { .. }
        | MultiProtocolEvent::PubsubRelayed { .. }
        | MultiProtocolEvent::KadPingRequestReceived { .. }
        | MultiProtocolEvent::KadPingResponseReceived { .. }
        | MultiProtocolEvent::KadFindNodeRequestReceived { .. }
        | MultiProtocolEvent::KadFindNodeResponseReceived { .. }
        | MultiProtocolEvent::ObserveRequestReceived { .. }
        | MultiProtocolEvent::ObserveResponseReceived { .. }
        | MultiProtocolEvent::PunchRequestReceived { .. }
        | MultiProtocolEvent::PunchForwardReceived { .. }
        | MultiProtocolEvent::PubsubRedundant { .. }
        | MultiProtocolEvent::RelayForwarded { .. }
        | MultiProtocolEvent::RelayReceived { .. }
        | MultiProtocolEvent::RelayFailed { .. }
        | MultiProtocolEvent::RpcDatagram { .. }
        | MultiProtocolEvent::Rejected { .. }) => Err(Error::HostState {
            reason: format!("expected HandshakeComplete({expected:?}), got {other:?}"),
        }),
    }
}

/// Lets every responder answer what waits for it, until nothing is left.
fn settle(responders: Vec<(Node, [u8; 32])>) -> Result<Vec<(Node, [u8; 32])>, Error> {
    let mut nodes = responders;
    while nodes.iter().any(|(node, _)| node.has_datagram()) {
        let mut next = Vec::new();
        for (node, seed) in nodes {
            let node = if node.has_datagram() {
                node.recv_one(seed, unused_relay_rng)?.0
            } else {
                node
            };
            next.push((node, seed));
        }
        nodes = next;
    }
    Ok(nodes)
}

/// Looks a target up while the responders answer.
fn lookup_node(
    node: Node,
    target: NodeId,
    config: LookupConfig,
    responders: Vec<(Node, [u8; 32])>,
) -> Result<(Node, Vec<(NodeId, UdpAddr)>), Error> {
    let mut node = node;
    let mut responders = responders;
    let mut search = node.start_lookup(target, config);
    loop {
        search = search.end_round();
        let seeds = vec![[0u8; 32]; search.seeds_wanted(node.host())];
        let Node { mux, socket } = node;
        let (mux, begun, outbound, finished) = mux.begin_lookup_round(search, &seeds)?;
        let socket = outbound.into_iter().fold(socket, Socket::send_out);
        node = Node { mux, socket };
        search = begun;
        if finished {
            let peers = search.results();
            return Ok((node, peers));
        }
        while search.awaiting() {
            responders = settle(responders)?;
            let (next, event) = node.recv_one([0; 32], unused_relay_rng)?;
            node = next;
            search = absorb_search_event(search, &event);
        }
    }
}

#[test]
fn mux_lookup_walks_the_chain() -> Result<(), Error> {
    let net = Net::new();
    let (alice, alice_addr) = build_mux(&net, 0xA1)?;
    let (bob, bob_addr) = build_mux(&net, 0xB2)?;
    let (carol, carol_addr) = build_mux(&net, 0xC3)?;

    let bob_node_id = *bob.node_id();
    let carol_node_id = *carol.node_id();

    // alice <-> bob
    let (alice, bob) = handshake_pair(alice, bob, alice_addr, bob_addr, [0xE1; 32], [0xE2; 32])?;
    // bob <-> carol
    let (bob, carol) = handshake_pair(bob, carol, bob_addr, carol_addr, [0xE3; 32], [0xE4; 32])?;

    // Sanity: alice knows only bob.
    check(alice.kad_table().contains(&bob_node_id), || {
        "alice should know bob".to_owned()
    })?;
    check(!alice.kad_table().contains(&carol_node_id), || {
        "alice should NOT yet know carol".to_owned()
    })?;

    // Bob and carol answer every inbound request, dials included.
    let responders = vec![(bob, [0xF1; 32]), (carol, [0xF2; 32])];

    // Alice runs her synchronous lookup for carol's NodeId.  The
    // mux driver transparently dials carol through the mux's
    // Noise XX path, queries her, and returns the shortlist.
    let (alice, peers): (NullMux, Vec<(NodeId, UdpAddr)>) =
        lookup_node(alice, carol_node_id, LookupConfig::default(), responders)?;

    let mentions_bob = peers.iter().any(|(id, _)| *id == bob_node_id);
    let mentions_carol = peers
        .iter()
        .any(|(id, addr)| *id == carol_node_id && *addr == carol_addr);
    check(mentions_bob, || {
        format!("lookup result should mention bob, got {peers:?}")
    })?;
    check(mentions_carol, || {
        format!("lookup result should mention carol, got {peers:?}")
    })?;
    check(alice.kad_table().contains(&carol_node_id), || {
        "alice's kad table should know carol after the lookup".to_owned()
    })
}
