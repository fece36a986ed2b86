//! A host with a routing table that answers its peers.
use vstd::prelude::*;
use vstd::string::StringExecFns;
use crate::addr::{Outbound, OutboundView, UdpAddr};
use crate::bytes::concat;
use crate::crypto::blake3_hash;
use crate::error::{Error, ErrorView};
use crate::host::event::{HostEvent, HostEventView};
use crate::host::host::{outbound_view, Host};
use crate::host::model::HostView;
use crate::kad::codec::{decode, encode, parse, Frame, FrameView};
use crate::kad::event::{KadEvent, KadEventView};
use crate::kad::node_id::{node_id_is_its_bytes, node_id_len, node_id_of, node_id_of_bytes, NodeId};
use crate::kad::routing_table::{RoutingTable, TableView};
use crate::peer_id::PeerId;

verus! {

/// The Kademlia identifier of a peer.
pub open spec fn node_id_of_peer(peer_id: Seq<u8>) -> NodeId {
    node_id_of(blake3_hash(peer_id))
}

/// The meaning of a Kademlia node.
pub struct KadNodeView {
    pub host: HostView,
    pub table: TableView,
}

/// A step of a Kademlia node: its next state, what happened, and the datagram
/// to send.
pub struct KadStepView {
    pub node: KadNodeView,
    pub event: KadEventView,
    pub outbound: Option<OutboundView>,
}

impl KadNodeView {
    /// The event alone, with nothing to send.
    pub open spec fn quiet(self, event: KadEventView) -> KadStepView {
        KadStepView { node: self, event, outbound: None }
    }

    /// Why a frame cannot be sent, if it cannot. `prefix` stands in front of the
    /// frame.
    pub open spec fn send_error(
        self,
        addr: UdpAddr,
        prefix: Seq<u8>,
        frame: FrameView,
    ) -> Option<ErrorView> {
        match frame.wire() {
            Err(e) => Some(e),
            Ok(bytes) => self.host.send_error(addr, prefix + bytes),
        }
    }

    /// The datagram that carries a frame.
    pub open spec fn send_datagram(
        self,
        addr: UdpAddr,
        prefix: Seq<u8>,
        frame: FrameView,
    ) -> OutboundView {
        self.host.send_datagram(addr, prefix + frame.wire()->Ok_0)
    }

    /// The node after a datagram went out to a peer.
    pub open spec fn sent(self, addr: UdpAddr) -> KadNodeView {
        KadNodeView { host: self.host.sent(addr), ..self }
    }

    /// The event, with a frame as the answer.
    pub open spec fn reply(
        self,
        addr: UdpAddr,
        prefix: Seq<u8>,
        frame: FrameView,
        event: KadEventView,
    ) -> Result<KadStepView, ErrorView> {
        match self.send_error(addr, prefix, frame) {
            Some(e) => Err(e),
            None => Ok(
                KadStepView {
                    node: self.sent(addr),
                    event,
                    outbound: Some(self.send_datagram(addr, prefix, frame)),
                },
            ),
        }
    }

    /// The node once the peer at an address has been seen: an established peer
    /// is offered to the routing table under its verified identity.
    pub open spec fn seen(self, addr: UdpAddr) -> KadNodeView {
        if self.host.established.dom().contains(addr) {
            KadNodeView {
                table: self.table.inserted(
                    node_id_of_peer(self.host.established[addr].remote_peer_id),
                    addr,
                ),
                ..self
            }
        } else {
            self
        }
    }

    /// What a frame from a peer does.
    pub open spec fn on_frame(self, addr: UdpAddr, prefix: Seq<u8>, frame: FrameView) -> Result<
        KadStepView,
        ErrorView,
    > {
        match frame {
            FrameView::PingReq => self.reply(
                addr,
                prefix,
                FrameView::PingResp,
                KadEventView::PingRequestReceived { from: addr },
            ),
            FrameView::PingResp => Ok(
                self.quiet(KadEventView::PingResponseReceived { from: addr }),
            ),
            FrameView::FindNodeReq { target } => {
                let peers = self.table.closest(target, self.table.k);
                self.reply(
                    addr,
                    prefix,
                    FrameView::FindNodeResp { peers },
                    KadEventView::FindNodeRequestReceived {
                        from: addr,
                        target,
                        returned: peers.len(),
                    },
                )
            },
            FrameView::FindNodeResp { peers } => Ok(
                KadNodeView { table: self.table.merged(peers, peers.len()), ..self }.quiet(
                    KadEventView::FindNodeResponseReceived { from: addr, peers },
                ),
            ),
        }
    }

    /// What a plaintext from a peer does: a frame from a peer, or nothing but a
    /// refusal.
    pub open spec fn on_plaintext(self, addr: UdpAddr, prefix: Seq<u8>, plaintext: Seq<u8>) -> Result<
        KadStepView,
        ErrorView,
    > {
        match parse(plaintext) {
            Err(e) => Ok(
                self.quiet(
                    KadEventView::Rejected { addr, reason: "kad decode failed: "@ + e.text() },
                ),
            ),
            Ok(frame) => self.seen(addr).on_frame(addr, prefix, frame),
        }
    }

    /// What an event of the host does.
    pub open spec fn on_host_event(self, event: HostEventView, outbound: Option<OutboundView>) -> Result<
        KadStepView,
        ErrorView,
    > {
        match event {
            HostEventView::HandshakeProgress { addr } => Ok(
                KadStepView {
                    node: self,
                    event: KadEventView::HandshakeProgress { addr },
                    outbound,
                },
            ),
            HostEventView::HandshakeComplete { addr, remote_static, remote_peer_id } => {
                let remote_node_id = node_id_of_peer(remote_peer_id);
                Ok(
                    KadStepView {
                        node: KadNodeView {
                            table: self.table.inserted(remote_node_id, addr),
                            ..self
                        },
                        event: KadEventView::HandshakeComplete {
                            addr,
                            remote_static,
                            remote_peer_id,
                            remote_node_id,
                        },
                        outbound,
                    },
                )
            },
            HostEventView::Rejected { addr, reason } => Ok(
                KadStepView {
                    node: self,
                    event: KadEventView::Rejected { addr, reason },
                    outbound,
                },
            ),
            HostEventView::DatagramDelivered { addr, plaintext } => self.on_plaintext(
                addr,
                Seq::empty(),
                plaintext,
            ),
        }
    }

    /// What a datagram does.
    pub open spec fn step(self, from: UdpAddr, datagram: Seq<u8>, seed: Seq<u8>) -> Result<
        KadStepView,
        ErrorView,
    > {
        let s = self.host.step(from, datagram, seed);
        KadNodeView { host: s.host, ..self }.on_host_event(s.event, s.outbound)
    }
}

/// A [`Host`] that keeps a routing table and answers pings and lookup requests.
pub struct KademliaNode {
    host: Host,
    table: RoutingTable,
}

impl View for KademliaNode {
    type V = KadNodeView;

    closed spec fn view(&self) -> KadNodeView {
        KadNodeView { host: self.host@, table: self.table@ }
    }
}

/// The meaning of the result of a step.
pub open spec fn kad_step_view(
    r: Result<(KademliaNode, KadEvent, Option<Outbound>), Error>,
) -> Result<KadStepView, ErrorView> {
    match r {
        Ok((node, event, outbound)) => Ok(
            KadStepView { node: node@, event: event@, outbound: outbound_view(outbound) },
        ),
        Err(e) => Err(e@),
    }
}

/// The identifier of a peer.
pub(crate) fn peer_node_id(peer_id: &PeerId) -> (id: NodeId)
    ensures
        id == node_id_of_peer(peer_id@),
{
    let id = NodeId::from_peer_id(peer_id);
    proof {
        node_id_len(id);
        node_id_of_bytes(id@);
        node_id_is_its_bytes(id, node_id_of_peer(peer_id@));
    }
    id
}

impl KademliaNode {
    /// A node over a host, with an empty table of bucket size `k`. Its
    /// identifier is that of the host's peer identifier.
    pub fn new(host: Host, k: usize) -> (node: Self)
        ensures
            node@ == (KadNodeView {
                host: host@,
                table: TableView::empty(node_id_of_peer(host@.peer_id()), k as nat),
            }),
    {
        let self_id = peer_node_id(host.peer_id());
        KademliaNode { host, table: RoutingTable::new(self_id, k) }
    }

    /// The node made of a host and a table.
    pub fn join(host: Host, table: RoutingTable) -> (node: Self)
        ensures
            node@ == (KadNodeView { host: host@, table: table@ }),
    {
        KademliaNode { host, table }
    }

    /// The host and the table of the node.
    pub fn split(self) -> (r: (Host, RoutingTable))
        ensures
            self@ == (KadNodeView { host: r.0@, table: r.1@ }),
    {
        (self.host, self.table)
    }

    /// The peer identifier.
    pub fn peer_id(&self) -> (id: &PeerId)
        ensures
            id@ == self@.host.peer_id(),
    {
        self.host.peer_id()
    }

    /// The Kademlia identifier.
    pub fn node_id(&self) -> (id: &NodeId)
        ensures
            *id == self@.table.self_id,
    {
        self.table.self_id()
    }

    /// The host.
    pub fn host(&self) -> (host: &Host)
        ensures
            host@ == self@.host,
    {
        &self.host
    }

    /// The routing table.
    pub fn routing_table(&self) -> (table: &RoutingTable)
        ensures
            table@ == self@.table,
    {
        &self.table
    }

    /// Begins a handshake with the peer at `addr`.
    pub fn dial(self, addr: UdpAddr, ephemeral_seed: [u8; 32]) -> (r: Result<
        (Self, Outbound),
        Error,
    >)
        ensures
            match r {
                Ok((node, outbound)) => {
                    &&& self@.host.dial_error(addr) is None
                    &&& node@ == (KadNodeView {
                        host: self@.host.dialed(addr, ephemeral_seed@),
                        ..self@
                    })
                    &&& outbound@ == (OutboundView {
                        addr,
                        datagram: self@.host.dial_message(ephemeral_seed@),
                    })
                },
                Err(e) => self@.host.dial_error(addr) == Some(e@),
            },
    {
        let KademliaNode { host, table } = self;
        match host.dial(addr, ephemeral_seed) {
            Ok((host, outbound)) => Ok((KademliaNode { host, table }, outbound)),
            Err(e) => Err(e),
        }
    }

    /// Sends a frame to an established peer.
    fn send_frame(self, peer: UdpAddr, prefix: &[u8], frame: Frame) -> (r: Result<
        (Self, Outbound),
        Error,
    >)
        ensures
            match r {
                Ok((node, outbound)) => {
                    &&& self@.send_error(peer, prefix@, frame@) is None
                    &&& node@ == self@.sent(peer)
                    &&& outbound@ == self@.send_datagram(peer, prefix@, frame@)
                },
                Err(e) => self@.send_error(peer, prefix@, frame@) == Some(e@),
            },
    {
        let KademliaNode { host, table } = self;
        let bytes = match encode(&frame) {
            Ok(bytes) => bytes,
            Err(e) => {
                return Err(e);
            },
        };
        let plaintext = concat(prefix, bytes.as_slice());
        match host.send(peer, plaintext.as_slice()) {
            Ok((host, outbound)) => Ok((KademliaNode { host, table }, outbound)),
            Err(e) => Err(e),
        }
    }

    /// Pings an established peer.
    pub fn ping(self, peer: UdpAddr) -> (r: Result<(Self, Outbound), Error>)
        ensures
            match r {
                Ok((node, outbound)) => {
                    &&& self@.send_error(peer, Seq::empty(), FrameView::PingReq) is None
                    &&& node@ == self@.sent(peer)
                    &&& outbound@ == self@.send_datagram(peer, Seq::empty(), FrameView::PingReq)
                },
                Err(e) => self@.send_error(peer, Seq::empty(), FrameView::PingReq) == Some(e@),
            },
    {
        let empty: [u8; 0] = [];
        assert(empty@ =~= Seq::<u8>::empty());
        self.send_frame(peer, empty.as_slice(), Frame::PingReq)
    }

    /// Asks an established peer for the peers closest to `target`.
    pub fn find_node(self, peer: UdpAddr, target: NodeId) -> (r: Result<(Self, Outbound), Error>)
        ensures
            match r {
                Ok((node, outbound)) => {
                    &&& self@.send_error(peer, Seq::empty(), FrameView::FindNodeReq { target })
                        is None
                    &&& node@ == self@.sent(peer)
                    &&& outbound@ == self@.send_datagram(
                        peer,
                        Seq::empty(),
                        FrameView::FindNodeReq { target },
                    )
                },
                Err(e) => self@.send_error(peer, Seq::empty(), FrameView::FindNodeReq { target })
                    == Some(e@),
            },
    {
        let empty: [u8; 0] = [];
        assert(empty@ =~= Seq::<u8>::empty());
        self.send_frame(peer, empty.as_slice(), Frame::FindNodeReq { target })
    }

    /// Processes one datagram that arrived from `from`. Fails only where an
    /// answer cannot be sent.
    pub fn recv_one(self, from: UdpAddr, datagram: &[u8], ephemeral_seed: [u8; 32]) -> (r: Result<
        (Self, KadEvent, Option<Outbound>),
        Error,
    >)
        ensures
            kad_step_view(r) == self@.step(from, datagram@, ephemeral_seed@),
    {
        let KademliaNode { host, table } = self;
        let (host, event, outbound) = host.recv_one(from, datagram, ephemeral_seed);
        let node = KademliaNode { host, table };
        node.handle_host_event(event, outbound)
    }

    /// Processes an event of the host.
    fn handle_host_event(self, event: HostEvent, outbound: Option<Outbound>) -> (r: Result<
        (Self, KadEvent, Option<Outbound>),
        Error,
    >)
        ensures
            kad_step_view(r) == self@.on_host_event(event@, outbound_view(outbound)),
    {
        match event {
            HostEvent::HandshakeProgress { addr } => Ok(
                (self, KadEvent::HandshakeProgress { addr }, outbound),
            ),
            HostEvent::HandshakeComplete { addr, remote_static, remote_peer_id } => {
                let KademliaNode { host, table } = self;
                let remote_node_id = peer_node_id(&remote_peer_id);
                let (table, _) = table.insert(remote_node_id, addr);
                Ok(
                    (
                        KademliaNode { host, table },
                        KadEvent::HandshakeComplete {
                            addr,
                            remote_static,
                            remote_peer_id,
                            remote_node_id,
                        },
                        outbound,
                    ),
                )
            },
            HostEvent::Rejected { addr, reason } => Ok(
                (self, KadEvent::Rejected { addr, reason }, outbound),
            ),
            HostEvent::DatagramDelivered { addr, plaintext } => self.process_plaintext(
                addr,
                plaintext.as_slice(),
            ),
        }
    }

    /// Processes one decrypted plaintext.
    pub fn process_plaintext(self, addr: UdpAddr, plaintext: &[u8]) -> (r: Result<
        (Self, KadEvent, Option<Outbound>),
        Error,
    >)
        ensures
            kad_step_view(r) == self@.on_plaintext(addr, Seq::empty(), plaintext@),
    {
        let empty: [u8; 0] = [];
        assert(empty@ =~= Seq::<u8>::empty());
        self.process_plaintext_with_wrap(addr, plaintext, empty.as_slice())
    }

    /// Processes one decrypted plaintext; `prefix` goes in front of the answer.
    pub fn process_plaintext_with_wrap(self, addr: UdpAddr, plaintext: &[u8], prefix: &[u8]) -> (r:
        Result<(Self, KadEvent, Option<Outbound>), Error>)
        ensures
            kad_step_view(r) == self@.on_plaintext(addr, prefix@, plaintext@),
    {
        match decode(plaintext) {
            Err(e) => {
                let text = e.describe();
                let reason = "kad decode failed: ".to_owned().concat(text.as_str());
                Ok((self, KadEvent::Rejected { addr, reason }, None))
            },
            Ok(frame) => {
                let KademliaNode { host, table } = self;
                let table = match host.remote_peer_id_of(addr) {
                    Some(peer_id) => {
                        let node_id = peer_node_id(peer_id);
                        table.insert(node_id, addr).0
                    },
                    None => table,
                };
                let node = KademliaNode { host, table };
                node.dispatch_frame(addr, prefix, frame)
            },
        }
    }

    /// Answers a frame.
    fn dispatch_frame(self, addr: UdpAddr, prefix: &[u8], frame: Frame) -> (r: Result<
        (Self, KadEvent, Option<Outbound>),
        Error,
    >)
        ensures
            kad_step_view(r) == self@.on_frame(addr, prefix@, frame@),
    {
        match frame {
            Frame::PingReq => match self.send_frame(addr, prefix, Frame::PingResp) {
                Err(e) => Err(e),
                Ok((node, outbound)) => Ok(
                    (node, KadEvent::PingRequestReceived { from: addr }, Some(outbound)),
                ),
            },
            Frame::PingResp => Ok((self, KadEvent::PingResponseReceived { from: addr }, None)),
            Frame::FindNodeReq { target } => {
                let peers = self.table.closest_to(&target, self.table.k());
                let returned: usize = peers.len();
                match self.send_frame(addr, prefix, Frame::FindNodeResp { peers }) {
                    Err(e) => Err(e),
                    Ok((node, outbound)) => Ok(
                        (
                            node,
                            KadEvent::FindNodeRequestReceived { from: addr, target, returned },
                            Some(outbound),
                        ),
                    ),
                }
            },
            Frame::FindNodeResp { peers } => {
                let KademliaNode { host, table } = self;
                let table = insert_all(table, &peers);
                Ok(
                    (
                        KademliaNode { host, table },
                        KadEvent::FindNodeResponseReceived { from: addr, peers },
                        None,
                    ),
                )
            },
        }
    }
}

/// Offers every peer of a list to a table.
fn insert_all(table: RoutingTable, peers: &Vec<(NodeId, UdpAddr)>) -> (r: RoutingTable)
    ensures
        r@ == table@.merged(peers@, peers@.len()),
{
    let ghost start = table@;
    let mut next = table;
    let mut i: usize = 0;
    while i < peers.len()
        invariant
            i <= peers@.len(),
            next@ == start.merged(peers@, i as nat),
        decreases peers@.len() - i,
    {
        let (id, addr) = peers[i];
        let (inserted, _) = next.insert(id, addr);
        next = inserted;
        i = i + 1;
    }
    next
}

} // verus!
