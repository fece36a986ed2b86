//! The node of all protocols.
use vstd::prelude::*;
use vstd::slice::slice_subrange;
use vstd::string::StringExecFns;
use std::sync::Arc;
use rlnc_cat_rs::coding::piece::OriginalData;
use crate::activity::{idle_cutoff, kept};
use crate::addr::{Outbound, OutboundView, UdpAddr};
use crate::bytes::{copy_range, prefixed};
use crate::error::{Error, ErrorView};
use crate::failure::{outbounds_view, Failure, FailureView};
use crate::host::event::{HostEvent, HostEventView};
use crate::host::host::Host;
use crate::host::model::HostView;
use crate::kad::codec::{encode, Frame, FrameView};
use crate::kad::event::{KadEvent, KadEventView};
use crate::kad::lookup::{Lookup, LookupConfig, LookupView};
use crate::kad::node::{node_id_of_peer, peer_node_id, KadNodeView, KadStepView, KademliaNode};
use crate::kad::node_id::NodeId;
use crate::kad::rounds::{fresh_searches_know_the_table, performed, planned, started, Round, Search, SearchView};
use crate::kad::routing_table::{RoutingTable, TableView};
use crate::mux::event::{
    Inbound, InboundView, MultiProtocolEvent, MultiProtocolEventView, RendezvousEvent,
    RendezvousEventView,
};
use crate::ordered_map::{listing, lists};
use crate::peer_id::PeerId;
use crate::pubsub::auth::{PubsubAuth, WireAuthenticator};
use crate::pubsub::event::{MuxEvent, MuxEventView};
use crate::pubsub::model::{frame_in, of_kind, MuxStepView, MuxView};
use crate::pubsub::mux::{
    coefficients_view, drawing_fails, drawn, faithful, faithful_relay, gives, mux_step_view,
    plaintext_given, plaintext_outcome, unasked, PubsubMux,
};
use crate::pubsub::state::{decoder_activity, recoder_activity, PubsubState, PubsubView};
use crate::pubsub::topic::Topic;
use crate::rlnc::{joined, original_pieces, unpadded, PieceView};
use crate::text::{hex_byte, hex_byte_text};

verus! {

/// First byte of raw application data.
pub const KIND_APP: u8 = 0x00;

/// First byte of a pubsub frame.
pub const KIND_PUBSUB: u8 = 0x01;

/// First byte of a Kademlia frame.
pub const KIND_KAD: u8 = 0x02;

/// First byte of a rendezvous frame.
pub const KIND_RENDEZVOUS: u8 = 0x03;

/// First byte of an RPC envelope.
pub const KIND_RPC: u8 = 0x04;

// ------------------------------------------------------------------ events

impl MuxEventView {
    /// An event of the pubsub protocol as one of all protocols.
    pub open spec fn lifted(self) -> MultiProtocolEventView {
        match self {
            MuxEventView::AppData { addr, bytes } => MultiProtocolEventView::AppData {
                addr,
                bytes,
            },
            MuxEventView::PubsubAbsorbed { addr, topic } => MultiProtocolEventView::PubsubAbsorbed {
                addr,
                topic,
            },
            MuxEventView::PubsubDelivered { addr, topic, data } => {
                MultiProtocolEventView::PubsubDelivered { addr, topic, data }
            },
            MuxEventView::PubsubRedundant { addr, topic } => {
                MultiProtocolEventView::PubsubRedundant { addr, topic }
            },
            MuxEventView::PubsubRelayed { from, topic, fanout_count } => {
                MultiProtocolEventView::PubsubRelayed { from, topic, fanout_count }
            },
            MuxEventView::HandshakeProgress { addr } => MultiProtocolEventView::Rejected {
                addr,
                reason: "pubsub HandshakeProgress surfaced inside dispatch_pubsub (unexpected)"@,
            },
            MuxEventView::HandshakeComplete { addr, .. } => MultiProtocolEventView::Rejected {
                addr,
                reason: "pubsub HandshakeComplete surfaced inside dispatch_pubsub (unexpected)"@,
            },
            MuxEventView::Rejected { addr, reason } => MultiProtocolEventView::Rejected {
                addr,
                reason,
            },
        }
    }
}

/// An event of the pubsub protocol as one of all protocols.
pub fn lift_pubsub_event(ev: MuxEvent) -> (event: MultiProtocolEvent)
    ensures
        event@ == ev@.lifted(),
{
    match ev {
        MuxEvent::AppData { addr, bytes } => MultiProtocolEvent::AppData { addr, bytes },
        MuxEvent::PubsubAbsorbed { addr, topic } => MultiProtocolEvent::PubsubAbsorbed {
            addr,
            topic,
        },
        MuxEvent::PubsubDelivered { addr, topic, data } => MultiProtocolEvent::PubsubDelivered {
            addr,
            topic,
            data,
        },
        MuxEvent::PubsubRedundant { addr, topic } => MultiProtocolEvent::PubsubRedundant {
            addr,
            topic,
        },
        MuxEvent::PubsubRelayed { from, topic, fanout_count } => MultiProtocolEvent::PubsubRelayed {
            from,
            topic,
            fanout_count,
        },
        MuxEvent::HandshakeProgress { addr } => MultiProtocolEvent::Rejected {
            addr,
            reason: "pubsub HandshakeProgress surfaced inside dispatch_pubsub (unexpected)".to_owned(),
        },
        MuxEvent::HandshakeComplete { addr, .. } => MultiProtocolEvent::Rejected {
            addr,
            reason: "pubsub HandshakeComplete surfaced inside dispatch_pubsub (unexpected)".to_owned(),
        },
        MuxEvent::Rejected { addr, reason } => MultiProtocolEvent::Rejected { addr, reason },
    }
}

impl KadEventView {
    /// An event of the Kademlia protocol as one of all protocols.
    pub open spec fn lifted(self) -> MultiProtocolEventView {
        match self {
            KadEventView::PingRequestReceived { from } => {
                MultiProtocolEventView::KadPingRequestReceived { from }
            },
            KadEventView::PingResponseReceived { from } => {
                MultiProtocolEventView::KadPingResponseReceived { from }
            },
            KadEventView::FindNodeRequestReceived { from, target, returned } => {
                MultiProtocolEventView::KadFindNodeRequestReceived { from, target, returned }
            },
            KadEventView::FindNodeResponseReceived { from, peers } => {
                MultiProtocolEventView::KadFindNodeResponseReceived { from, peers }
            },
            KadEventView::Rejected { addr, reason } => MultiProtocolEventView::Rejected {
                addr,
                reason,
            },
            KadEventView::HandshakeProgress { addr } => MultiProtocolEventView::Rejected {
                addr,
                reason: "kad HandshakeProgress surfaced inside dispatch_kad (unreachable)"@,
            },
            KadEventView::HandshakeComplete { addr, .. } => MultiProtocolEventView::Rejected {
                addr,
                reason: "kad HandshakeComplete surfaced inside dispatch_kad (unreachable)"@,
            },
        }
    }
}

/// An event of the Kademlia protocol as one of all protocols.
pub fn lift_kad_event(ev: KadEvent) -> (event: MultiProtocolEvent)
    ensures
        event@ == ev@.lifted(),
{
    match ev {
        KadEvent::PingRequestReceived { from } => MultiProtocolEvent::KadPingRequestReceived {
            from,
        },
        KadEvent::PingResponseReceived { from } => MultiProtocolEvent::KadPingResponseReceived {
            from,
        },
        KadEvent::FindNodeRequestReceived { from, target, returned } => {
            MultiProtocolEvent::KadFindNodeRequestReceived { from, target, returned }
        },
        KadEvent::FindNodeResponseReceived { from, peers } => {
            MultiProtocolEvent::KadFindNodeResponseReceived { from, peers }
        },
        KadEvent::Rejected { addr, reason } => MultiProtocolEvent::Rejected { addr, reason },
        KadEvent::HandshakeProgress { addr } => MultiProtocolEvent::Rejected {
            addr,
            reason: "kad HandshakeProgress surfaced inside dispatch_kad (unreachable)".to_owned(),
        },
        KadEvent::HandshakeComplete { addr, .. } => MultiProtocolEvent::Rejected {
            addr,
            reason: "kad HandshakeComplete surfaced inside dispatch_kad (unreachable)".to_owned(),
        },
    }
}

impl RendezvousEventView {
    /// An event of the rendezvous protocol as one of all protocols.
    pub open spec fn lifted(self) -> MultiProtocolEventView {
        match self {
            RendezvousEventView::ObserveRequestReceived { from } => {
                MultiProtocolEventView::ObserveRequestReceived { from }
            },
            RendezvousEventView::ObserveResponseReceived { from, observed } => {
                MultiProtocolEventView::ObserveResponseReceived { from, observed }
            },
            RendezvousEventView::PunchRequestReceived { from, target, forwarded } => {
                MultiProtocolEventView::PunchRequestReceived { from, target, forwarded }
            },
            RendezvousEventView::PunchForwardReceived { from, initiator } => {
                MultiProtocolEventView::PunchForwardReceived { from, initiator }
            },
            RendezvousEventView::RelayForwarded { from, target, forwarded, payload_len } => {
                MultiProtocolEventView::RelayForwarded { from, target, forwarded, payload_len }
            },
            RendezvousEventView::RelayReceived { from, originator, payload } => {
                MultiProtocolEventView::RelayReceived { from, originator, payload }
            },
            RendezvousEventView::RelayFailed { from, peer, reason } => {
                MultiProtocolEventView::RelayFailed { from, peer, reason }
            },
            RendezvousEventView::Rejected { addr, reason } => MultiProtocolEventView::Rejected {
                addr,
                reason,
            },
            RendezvousEventView::HandshakeProgress { addr } => MultiProtocolEventView::Rejected {
                addr,
                reason: "rendezvous HandshakeProgress surfaced inside dispatch_rendezvous (unreachable)"@,
            },
            RendezvousEventView::HandshakeComplete { addr, .. } => {
                MultiProtocolEventView::Rejected {
                    addr,
                    reason: "rendezvous HandshakeComplete surfaced inside dispatch_rendezvous (unreachable)"@,
                }
            },
        }
    }
}

/// An event of the rendezvous protocol as one of all protocols.
pub fn lift_rendezvous_event(ev: RendezvousEvent) -> (event: MultiProtocolEvent)
    ensures
        event@ == ev@.lifted(),
{
    match ev {
        RendezvousEvent::ObserveRequestReceived { from } => {
            MultiProtocolEvent::ObserveRequestReceived { from }
        },
        RendezvousEvent::ObserveResponseReceived { from, observed } => {
            MultiProtocolEvent::ObserveResponseReceived { from, observed }
        },
        RendezvousEvent::PunchRequestReceived { from, target, forwarded } => {
            MultiProtocolEvent::PunchRequestReceived { from, target, forwarded }
        },
        RendezvousEvent::PunchForwardReceived { from, initiator } => {
            MultiProtocolEvent::PunchForwardReceived { from, initiator }
        },
        RendezvousEvent::RelayForwarded { from, target, forwarded, payload_len } => {
            MultiProtocolEvent::RelayForwarded { from, target, forwarded, payload_len }
        },
        RendezvousEvent::RelayReceived { from, originator, payload } => {
            MultiProtocolEvent::RelayReceived { from, originator, payload }
        },
        RendezvousEvent::RelayFailed { from, peer, reason } => MultiProtocolEvent::RelayFailed {
            from,
            peer,
            reason,
        },
        RendezvousEvent::Rejected { addr, reason } => MultiProtocolEvent::Rejected { addr, reason },
        RendezvousEvent::HandshakeProgress { addr } => MultiProtocolEvent::Rejected {
            addr,
            reason: "rendezvous HandshakeProgress surfaced inside dispatch_rendezvous (unreachable)".to_owned(),
        },
        RendezvousEvent::HandshakeComplete { addr, .. } => MultiProtocolEvent::Rejected {
            addr,
            reason: "rendezvous HandshakeComplete surfaced inside dispatch_rendezvous (unreachable)".to_owned(),
        },
    }
}

// ------------------------------------------------------------------ meaning

/// The meaning of a node of all protocols.
pub struct MultiView<A> {
    pub host: HostView,
    pub pubsub: PubsubView<A>,
    pub table: TableView,
}

/// A step of the node: its next state, what the caller gets, and the datagrams
/// to send.
pub struct MultiStepView<A> {
    pub node: MultiView<A>,
    pub inbound: InboundView,
    pub outbound: Seq<OutboundView>,
}

impl<A: WireAuthenticator> MultiView<A> {
    /// The pubsub side of the node.
    pub open spec fn pubsub_side(self) -> MuxView<A> {
        MuxView { host: self.host, state: self.pubsub }
    }

    /// The Kademlia side of the node.
    pub open spec fn kad_side(self) -> KadNodeView {
        KadNodeView { host: self.host, table: self.table }
    }

    /// The event alone, with nothing to send.
    pub open spec fn quiet(self, event: MultiProtocolEventView) -> MultiStepView<A> {
        MultiStepView { node: self, inbound: InboundView::Event(event), outbound: Seq::empty() }
    }

    /// The node after a step of its pubsub side.
    pub open spec fn after_pubsub(self, r: Result<MuxStepView<A>, FailureView>) -> Result<
        MultiStepView<A>,
        FailureView,
    > {
        match r {
            Err(e) => Err(e),
            Ok(step) => Ok(
                MultiStepView {
                    node: MultiView {
                        host: step.mux.host,
                        pubsub: step.mux.state,
                        table: self.table,
                    },
                    inbound: InboundView::Event(step.event.lifted()),
                    outbound: step.outbound,
                },
            ),
        }
    }

    /// The node after a step of its Kademlia side.
    pub open spec fn after_kad(self, r: Result<KadStepView, ErrorView>) -> Result<
        MultiStepView<A>,
        FailureView,
    > {
        match r {
            Err(e) => Err(FailureView::early(e)),
            Ok(step) => Ok(
                MultiStepView {
                    node: MultiView {
                        host: step.node.host,
                        pubsub: self.pubsub,
                        table: step.node.table,
                    },
                    inbound: InboundView::Event(step.event.lifted()),
                    outbound: match step.outbound {
                        Some(o) => seq![o],
                        None => Seq::empty(),
                    },
                },
            ),
        }
    }

    /// What a plaintext does: its first byte says whose it is.
    pub open spec fn on_plaintext(
        self,
        addr: UdpAddr,
        plaintext: Seq<u8>,
        coefficients: Result<Seq<u8>, Seq<char>>,
    ) -> Result<MultiStepView<A>, FailureView> {
        if plaintext.len() == 0 {
            Ok(
                self.quiet(
                    MultiProtocolEventView::Rejected {
                        addr,
                        reason: "datagram plaintext was empty (no kind byte)"@,
                    },
                ),
            )
        } else if plaintext[0] == KIND_APP || plaintext[0] == KIND_PUBSUB {
            self.after_pubsub(self.pubsub_side().on_plaintext(addr, plaintext, coefficients))
        } else if plaintext[0] == KIND_KAD {
            self.after_kad(self.kad_side().on_plaintext(addr, seq![KIND_KAD], plaintext.skip(1)))
        } else if plaintext[0] == KIND_RENDEZVOUS {
            Ok(
                MultiStepView {
                    node: self,
                    inbound: InboundView::Rendezvous { from: addr, body: plaintext.skip(1) },
                    outbound: Seq::empty(),
                },
            )
        } else if plaintext[0] == KIND_RPC {
            Ok(
                self.quiet(
                    MultiProtocolEventView::RpcDatagram { peer: addr, body: plaintext.skip(1) },
                ),
            )
        } else {
            Ok(
                self.quiet(
                    MultiProtocolEventView::Rejected {
                        addr,
                        reason: "unknown plaintext kind byte 0x"@ + hex_byte(plaintext[0]),
                    },
                ),
            )
        }
    }

    /// What an event of the host does.
    pub open spec fn on_host_event(
        self,
        event: HostEventView,
        outbound: Option<OutboundView>,
        coefficients: Result<Seq<u8>, Seq<char>>,
    ) -> Result<MultiStepView<A>, FailureView> {
        let out = match outbound {
            Some(o) => seq![o],
            None => Seq::empty(),
        };
        match event {
            HostEventView::HandshakeProgress { addr } => Ok(
                MultiStepView {
                    node: self,
                    inbound: InboundView::Event(MultiProtocolEventView::HandshakeProgress { addr }),
                    outbound: out,
                },
            ),
            HostEventView::HandshakeComplete { addr, remote_static, remote_peer_id } => {
                let remote_node_id = node_id_of_peer(remote_peer_id);
                Ok(
                    MultiStepView {
                        node: MultiView {
                            table: self.table.inserted(remote_node_id, addr),
                            ..self
                        },
                        inbound: InboundView::Event(
                            MultiProtocolEventView::HandshakeComplete {
                                addr,
                                remote_static,
                                remote_peer_id,
                                remote_node_id,
                            },
                        ),
                        outbound: out,
                    },
                )
            },
            HostEventView::Rejected { addr, reason } => Ok(
                MultiStepView {
                    node: self,
                    inbound: InboundView::Event(
                        MultiProtocolEventView::Rejected { addr, reason },
                    ),
                    outbound: out,
                },
            ),
            HostEventView::DatagramDelivered { addr, plaintext } => self.on_plaintext(
                addr,
                plaintext,
                coefficients,
            ),
        }
    }

    /// Why a plaintext of a kind cannot be sent, if it cannot.
    pub open spec fn send_error(self, peer: UdpAddr, kind: u8, body: Seq<u8>) -> Option<ErrorView> {
        self.host.send_error(peer, of_kind(kind, body))
    }

    /// The node after a datagram went out to a peer.
    pub open spec fn sent(self, peer: UdpAddr) -> MultiView<A> {
        MultiView { host: self.host.sent(peer), ..self }
    }
}

/// The lookup after an event of the node: answers and completed handshakes
/// count, everything else is passed over.
pub open spec fn lookup_on_event(lookup: LookupView, event: MultiProtocolEventView) -> LookupView {
    match event {
        MultiProtocolEventView::KadFindNodeResponseReceived { from, peers } => lookup.answered(
            from,
            peers,
        ),
        MultiProtocolEventView::HandshakeComplete { addr, .. } => if lookup.pending_dials.dom().contains(
            addr,
        ) {
            lookup.dial_completed(addr)
        } else {
            lookup
        },
        _ => lookup,
    }
}

// ----------------------------------------------------------------- the node

/// A [`Host`] that speaks all protocols.
pub struct MultiProtocolNode<A: PubsubAuth> {
    host: Host,
    pubsub_state: PubsubState<A>,
    kad_table: RoutingTable,
}

impl<A: PubsubAuth> View for MultiProtocolNode<A> {
    type V = MultiView<A>;

    closed spec fn view(&self) -> MultiView<A> {
        MultiView { host: self.host@, pubsub: self.pubsub_state@, table: self.kad_table@ }
    }
}

/// The meaning of the result of a step.
pub open spec fn multi_step_view<A: PubsubAuth>(
    r: Result<(MultiProtocolNode<A>, Inbound, Vec<Outbound>), Failure>,
) -> Result<MultiStepView<A>, FailureView> {
    match r {
        Ok((node, inbound, outbound)) => Ok(
            MultiStepView { node: node@, inbound: inbound@, outbound: outbounds_view(outbound@) },
        ),
        Err(e) => Err(e@),
    }
}

/// What a plaintext does, whatever the random source gives.
pub open spec fn multi_outcome<A: PubsubAuth, R: FnOnce(usize) -> Result<Vec<u8>, String>>(
    before: MultiView<A>,
    addr: UdpAddr,
    plaintext: Seq<u8>,
    rng: R,
    r: Result<(MultiProtocolNode<A>, Inbound, Vec<Outbound>), Failure>,
) -> bool {
    match before.pubsub_side().wants(plaintext) {
        None => multi_step_view(r) == before.on_plaintext(addr, plaintext, unasked()),
        Some(n) => exists|c: Result<Vec<u8>, String>| #[trigger]
            gives(rng, n, c) && multi_given(before, addr, plaintext, c, r),
    }
}

/// What a plaintext does once the random source gave `c`.
pub open spec fn multi_given<A: PubsubAuth>(
    before: MultiView<A>,
    addr: UdpAddr,
    plaintext: Seq<u8>,
    c: Result<Vec<u8>, String>,
    r: Result<(MultiProtocolNode<A>, Inbound, Vec<Outbound>), Failure>,
) -> bool {
    &&& multi_step_view(r) == before.on_plaintext(addr, plaintext, coefficients_view(c))
    &&& r is Ok ==> c is Ok && faithful_relay(
        before.pubsub_side(),
        frame_in::<A>(plaintext)->Some_0,
        c->Ok_0@,
    )
}

/// Where all that the node held of the topic, and the piece that arrived, are
/// combinations of some original pieces, so is what it holds afterwards; what it
/// delivers is the data of these pieces; and it delivers once a piece completes
/// the decoder, where there is a boundary marker.
pub open spec fn delivers_faithfully<A: PubsubAuth>(
    before: MultiView<A>,
    plaintext: Seq<u8>,
    r: Result<(MultiProtocolNode<A>, Inbound, Vec<Outbound>), Failure>,
) -> bool {
    r matches Ok((node, inbound, _)) ==> (frame_in::<A>(plaintext) matches Some(frame) ==> {
        forall|originals: Seq<Seq<u8>>| #[trigger]
            before.pubsub.carries(frame.topic, originals) && frame.wire.piece.explained_by(
                originals,
            ) ==> {
                &&& node@.pubsub.carries(frame.topic, originals)
                &&& inbound@ matches InboundView::Event(
                    MultiProtocolEventView::PubsubDelivered { data, .. },
                ) ==> unpadded(joined(originals)) == Some(data)
                &&& !before.pubsub.recoders.dom().contains(frame.topic)
                    && before.pubsub.completes(frame) && unpadded(joined(originals)) is Some
                    ==> inbound@ matches InboundView::Event(
                    MultiProtocolEventView::PubsubDelivered { .. },
                )
            }
    })
}

/// A step of the pubsub side is a step of the node.
proof fn lemma_multi_outcome<A: PubsubAuth, R: FnOnce(usize) -> Result<Vec<u8>, String>>(
    before: MultiView<A>,
    addr: UdpAddr,
    plaintext: Seq<u8>,
    rng: R,
    inner: Result<(PubsubMux<A>, MuxEvent, Vec<Outbound>), Failure>,
    r: Result<(MultiProtocolNode<A>, Inbound, Vec<Outbound>), Failure>,
)
    requires
        plaintext.len() > 0,
        plaintext[0] == KIND_APP || plaintext[0] == KIND_PUBSUB,
        plaintext_outcome(before.pubsub_side(), addr, plaintext, rng, inner),
        multi_step_view(r) == before.after_pubsub(mux_step_view(inner)),
    ensures
        multi_outcome(before, addr, plaintext, rng, r),
{
    let side = before.pubsub_side();
    match side.wants(plaintext) {
        None => {},
        Some(n) => {
            let c = choose|c: Result<Vec<u8>, String>| #[trigger]
                gives(rng, n, c) && plaintext_given(side, addr, plaintext, c, inner);
            assert(gives(rng, n, c) && multi_given(before, addr, plaintext, c, r));
        },
    }
}

impl<A: PubsubAuth> MultiProtocolNode<A> {
    /// A node over a host, without topics, with an empty routing table of bucket
    /// size `k`.
    pub fn new(host: Host, auth: Arc<A>, k: usize) -> (node: Self)
        ensures
            node@ == (MultiView {
                host: host@,
                pubsub: PubsubView {
                    auth: *auth,
                    decoders: Map::empty(),
                    recoders: Map::empty(),
                    tick: 0,
                },
                table: TableView::empty(node_id_of_peer(host@.peer_id()), k as nat),
            }),
    {
        let self_id = peer_node_id(host.peer_id());
        MultiProtocolNode {
            host,
            pubsub_state: PubsubState::new(auth),
            kad_table: RoutingTable::new(self_id, k),
        }
    }

    /// The peer identifier.
    pub fn peer_id(&self) -> (id: &PeerId)
        ensures
            id@ == self@.host.peer_id(),
    {
        self.host.peer_id()
    }

    /// The Kademlia identifier.
    pub fn node_id(&self) -> (id: &NodeId)
        ensures
            *id == self@.table.self_id,
    {
        self.kad_table.self_id()
    }

    /// The host.
    pub fn host(&self) -> (host: &Host)
        ensures
            host@ == self@.host,
    {
        &self.host
    }

    /// The topics.
    pub fn pubsub_state(&self) -> (state: &PubsubState<A>)
        ensures
            state@ == self@.pubsub,
    {
        &self.pubsub_state
    }

    /// The routing table.
    pub fn kad_table(&self) -> (table: &RoutingTable)
        ensures
            table@ == self@.table,
    {
        &self.kad_table
    }

    /// Whether `addr` has an established connection.
    pub fn is_established(&self, addr: UdpAddr) -> (r: bool)
        ensures
            r == self@.host.established.dom().contains(addr),
    {
        self.host.is_established(addr)
    }

    /// The commitment to a generation.
    pub fn commit(&self, original: &OriginalData) -> (commitment: A::Commitment)
        ensures
            A::commitment_bytes(commitment) == self@.pubsub.auth.commits(
                original_pieces(*original),
            ),
    {
        self.pubsub_state.commit(original)
    }

    /// Begins a handshake with the peer at `addr`.
    pub fn dial(self, addr: UdpAddr, ephemeral_seed: [u8; 32]) -> (r: Result<
        (Self, Outbound),
        Error,
    >)
        ensures
            match r {
                Ok((node, outbound)) => {
                    &&& self@.host.dial_error(addr) is None
                    &&& node@ == (MultiView {
                        host: self@.host.dialed(addr, ephemeral_seed@),
                        ..self@
                    })
                    &&& outbound@ == (OutboundView {
                        addr,
                        datagram: self@.host.dial_message(ephemeral_seed@),
                    })
                },
                Err(e) => self@.host.dial_error(addr) == Some(e@),
            },
    {
        let MultiProtocolNode { host, pubsub_state, kad_table } = self;
        match host.dial(addr, ephemeral_seed) {
            Ok((host, outbound)) => Ok(
                (MultiProtocolNode { host, pubsub_state, kad_table }, outbound),
            ),
            Err(e) => Err(e),
        }
    }

    /// Registers a topic for decoding.
    pub fn register_topic(
        self,
        topic: Topic,
        piece_count: usize,
        piece_byte_len: usize,
        commitment: A::Commitment,
    ) -> (node: Self)
        requires
            piece_count + piece_byte_len <= usize::MAX,
        ensures
            node@ == (MultiView {
                pubsub: self@.pubsub.decoding(
                    topic@,
                    piece_count as nat,
                    piece_byte_len as nat,
                    A::commitment_bytes(commitment),
                ),
                ..self@
            }),
    {
        let MultiProtocolNode { host, pubsub_state, kad_table } = self;
        MultiProtocolNode {
            host,
            pubsub_state: pubsub_state.register_topic(
                topic,
                piece_count,
                piece_byte_len,
                commitment,
            ),
            kad_table,
        }
    }

    /// Registers a topic for relaying.
    pub fn register_relay(
        self,
        topic: Topic,
        piece_count: usize,
        piece_byte_len: usize,
        commitment: A::Commitment,
    ) -> (node: Self)
        requires
            piece_count + piece_byte_len <= usize::MAX,
        ensures
            node@ == (MultiView {
                pubsub: self@.pubsub.relaying(
                    topic@,
                    piece_count as nat,
                    piece_byte_len as nat,
                    A::commitment_bytes(commitment),
                ),
                ..self@
            }),
    {
        let MultiProtocolNode { host, pubsub_state, kad_table } = self;
        MultiProtocolNode {
            host,
            pubsub_state: pubsub_state.register_relay(
                topic,
                piece_count,
                piece_byte_len,
                commitment,
            ),
            kad_table,
        }
    }

    /// Drops the decoder of a topic.
    pub fn unregister_topic(self, topic: &Topic) -> (node: Self)
        ensures
            node@ == (MultiView {
                pubsub: (PubsubView {
                    decoders: self@.pubsub.decoders.remove(topic@),
                    ..self@.pubsub
                }).ticked(),
                ..self@
            }),
    {
        let MultiProtocolNode { host, pubsub_state, kad_table } = self;
        MultiProtocolNode { host, pubsub_state: pubsub_state.unregister_topic(topic), kad_table }
    }

    /// Drops the recoder of a topic.
    pub fn unregister_relay(self, topic: &Topic) -> (node: Self)
        ensures
            node@ == (MultiView {
                pubsub: (PubsubView {
                    recoders: self@.pubsub.recoders.remove(topic@),
                    ..self@.pubsub
                }).ticked(),
                ..self@
            }),
    {
        let MultiProtocolNode { host, pubsub_state, kad_table } = self;
        MultiProtocolNode { host, pubsub_state: pubsub_state.unregister_relay(topic), kad_table }
    }

    /// Drops idle decoders and lists their topics.
    pub fn evict_idle_topics(self, max_idle_ticks: u64) -> (r: (Self, Vec<Topic>))
        ensures
            r.0@ == (MultiView {
                pubsub: (PubsubView {
                    decoders: kept(
                        self@.pubsub.decoders,
                        decoder_activity(self@.pubsub.decoders),
                        idle_cutoff(self@.pubsub.tick, max_idle_ticks),
                    ),
                    ..self@.pubsub
                }).ticked(),
                ..self@
            }),
            r.1@.map_values(|t: Topic| t@) == listing::<Topic>(
                self@.pubsub.idle_decoders(max_idle_ticks),
            ),
            lists::<Topic>(
                listing::<Topic>(self@.pubsub.idle_decoders(max_idle_ticks)),
                self@.pubsub.idle_decoders(max_idle_ticks),
            ),
    {
        let MultiProtocolNode { host, pubsub_state, kad_table } = self;
        let (pubsub_state, evicted) = pubsub_state.evict_idle_topics(max_idle_ticks);
        (MultiProtocolNode { host, pubsub_state, kad_table }, evicted)
    }

    /// Drops idle recoders and lists their topics.
    pub fn evict_idle_relays(self, max_idle_ticks: u64) -> (r: (Self, Vec<Topic>))
        ensures
            r.0@ == (MultiView {
                pubsub: (PubsubView {
                    recoders: kept(
                        self@.pubsub.recoders,
                        recoder_activity(self@.pubsub.recoders),
                        idle_cutoff(self@.pubsub.tick, max_idle_ticks),
                    ),
                    ..self@.pubsub
                }).ticked(),
                ..self@
            }),
            r.1@.map_values(|t: Topic| t@) == listing::<Topic>(
                self@.pubsub.idle_recoders(max_idle_ticks),
            ),
            lists::<Topic>(
                listing::<Topic>(self@.pubsub.idle_recoders(max_idle_ticks)),
                self@.pubsub.idle_recoders(max_idle_ticks),
            ),
    {
        let MultiProtocolNode { host, pubsub_state, kad_table } = self;
        let (pubsub_state, evicted) = pubsub_state.evict_idle_relays(max_idle_ticks);
        (MultiProtocolNode { host, pubsub_state, kad_table }, evicted)
    }

    /// Sends a plaintext of a kind to an established peer.
    fn send_with_kind(self, peer: UdpAddr, kind: u8, body: &[u8]) -> (r: Result<
        (Self, Outbound),
        Error,
    >)
        ensures
            match r {
                Ok((node, outbound)) => {
                    &&& self@.send_error(peer, kind, body@) is None
                    &&& node@ == self@.sent(peer)
                    &&& outbound@ == self@.host.send_datagram(peer, of_kind(kind, body@))
                },
                Err(e) => self@.send_error(peer, kind, body@) == Some(e@),
            },
    {
        let MultiProtocolNode { host, pubsub_state, kad_table } = self;
        let plaintext = prefixed(kind, body);
        match host.send(peer, plaintext.as_slice()) {
            Ok((host, outbound)) => Ok(
                (MultiProtocolNode { host, pubsub_state, kad_table }, outbound),
            ),
            Err(e) => Err(e),
        }
    }

    /// Sends raw application data to an established peer.
    pub fn send_app(self, addr: UdpAddr, payload: &[u8]) -> (r: Result<(Self, Outbound), Error>)
        ensures
            match r {
                Ok((node, outbound)) => {
                    &&& self@.send_error(addr, KIND_APP, payload@) is None
                    &&& node@ == self@.sent(addr)
                    &&& outbound@ == self@.host.send_datagram(addr, of_kind(KIND_APP, payload@))
                },
                Err(e) => self@.send_error(addr, KIND_APP, payload@) == Some(e@),
            },
    {
        self.send_with_kind(addr, KIND_APP, payload)
    }

    /// Sends an RPC envelope to an established peer.
    pub fn send_rpc(self, peer: UdpAddr, body: &[u8]) -> (r: Result<(Self, Outbound), Error>)
        ensures
            match r {
                Ok((node, outbound)) => {
                    &&& self@.send_error(peer, KIND_RPC, body@) is None
                    &&& node@ == self@.sent(peer)
                    &&& outbound@ == self@.host.send_datagram(peer, of_kind(KIND_RPC, body@))
                },
                Err(e) => self@.send_error(peer, KIND_RPC, body@) == Some(e@),
            },
    {
        self.send_with_kind(peer, KIND_RPC, body)
    }

    /// Sends an encoded rendezvous frame to an established peer.
    pub fn send_rendezvous_frame(self, peer: UdpAddr, frame: &[u8]) -> (r: Result<
        (Self, Outbound),
        Error,
    >)
        ensures
            match r {
                Ok((node, outbound)) => {
                    &&& self@.send_error(peer, KIND_RENDEZVOUS, frame@) is None
                    &&& node@ == self@.sent(peer)
                    &&& outbound@ == self@.host.send_datagram(
                        peer,
                        of_kind(KIND_RENDEZVOUS, frame@),
                    )
                },
                Err(e) => self@.send_error(peer, KIND_RENDEZVOUS, frame@) == Some(e@),
            },
    {
        self.send_with_kind(peer, KIND_RENDEZVOUS, frame)
    }

    /// Sends bytes as they are, such as the datagram that opens a mapping in an
    /// address translator.
    pub fn send_raw(self, addr: UdpAddr, bytes: Vec<u8>) -> (r: (Self, Outbound))
        ensures
            r.0@ == (MultiView { host: self@.host.ticked(), ..self@ }),
            r.1@ == (OutboundView { addr, datagram: bytes@ }),
    {
        let MultiProtocolNode { host, pubsub_state, kad_table } = self;
        let (host, outbound) = host.send_raw(addr, bytes);
        (MultiProtocolNode { host, pubsub_state, kad_table }, outbound)
    }

    /// Sends a Kademlia frame to an established peer.
    fn send_kad_frame(self, peer: UdpAddr, frame: Frame) -> (r: Result<(Self, Outbound), Error>)
        ensures
            match r {
                Ok((node, outbound)) => {
                    &&& self@.kad_side().send_error(peer, seq![KIND_KAD], frame@) is None
                    &&& node@ == self@.sent(peer)
                    &&& outbound@ == self@.kad_side().send_datagram(peer, seq![KIND_KAD], frame@)
                },
                Err(e) => self@.kad_side().send_error(peer, seq![KIND_KAD], frame@) == Some(e@),
            },
    {
        match encode(&frame) {
            Err(e) => Err(e),
            Ok(bytes) => self.send_with_kind(peer, KIND_KAD, bytes.as_slice()),
        }
    }

    /// Pings an established peer.
    pub fn kad_ping(self, peer: UdpAddr) -> (r: Result<(Self, Outbound), Error>)
        ensures
            match r {
                Ok((node, outbound)) => {
                    &&& self@.kad_side().send_error(peer, seq![KIND_KAD], FrameView::PingReq)
                        is None
                    &&& node@ == self@.sent(peer)
                    &&& outbound@ == self@.kad_side().send_datagram(
                        peer,
                        seq![KIND_KAD],
                        FrameView::PingReq,
                    )
                },
                Err(e) => self@.kad_side().send_error(peer, seq![KIND_KAD], FrameView::PingReq)
                    == Some(e@),
            },
    {
        self.send_kad_frame(peer, Frame::PingReq)
    }

    /// Asks an established peer for the peers closest to `target`.
    pub fn kad_find_node(self, peer: UdpAddr, target: NodeId) -> (r: Result<(Self, Outbound), Error>)
        ensures
            match r {
                Ok((node, outbound)) => {
                    &&& self@.kad_side().send_error(
                        peer,
                        seq![KIND_KAD],
                        FrameView::FindNodeReq { target },
                    ) is None
                    &&& node@ == self@.sent(peer)
                    &&& outbound@ == self@.kad_side().send_datagram(
                        peer,
                        seq![KIND_KAD],
                        FrameView::FindNodeReq { target },
                    )
                },
                Err(e) => self@.kad_side().send_error(
                    peer,
                    seq![KIND_KAD],
                    FrameView::FindNodeReq { target },
                ) == Some(e@),
            },
    {
        self.send_kad_frame(peer, Frame::FindNodeReq { target })
    }

    /// Broadcasts a generation on a topic, as [`PubsubMux::broadcast`] does.
    pub fn broadcast<F: Fn(usize) -> Result<Vec<u8>, String>>(
        self,
        topic: Topic,
        data: OriginalData,
        num_pieces: usize,
        rng_factory: F,
    ) -> (r: Result<(Self, A::Commitment, Vec<Outbound>), Failure>)
        requires
            forall|n: usize| #[trigger] rng_factory.requires((n,)),
        ensures
            match r {
                Ok((node, commitment, outbound)) => {
                    &&& A::commitment_bytes(commitment) == self@.pubsub.auth.commits(
                        original_pieces(data),
                    )
                    &&& node@.table == self@.table
                    &&& exists|pieces: Seq<PieceView>|
                        {
                            &&& pieces.len() == num_pieces
                            &&& forall|i: int|
                                0 <= i < pieces.len() ==> drawn(
                                    rng_factory,
                                    original_pieces(data),
                                    #[trigger] pieces[i],
                                )
                            &&& #[trigger] self@.pubsub_side().broadcast_pieces(
                                topic@,
                                original_pieces(data),
                                pieces,
                            ) == Ok::<(MuxView<A>, Seq<OutboundView>), FailureView>(
                                (node@.pubsub_side(), outbounds_view(outbound@)),
                            )
                        }
                },
                Err(e) => (num_pieces > 0 && e@.outbound.len() == 0 && drawing_fails(
                    rng_factory,
                    original_pieces(data),
                    e@.error,
                )) || exists|
                    pieces: Seq<PieceView>,
                |
                    {
                        &&& pieces.len() == num_pieces
                        &&& forall|i: int|
                            0 <= i < pieces.len() ==> drawn(
                                rng_factory,
                                original_pieces(data),
                                #[trigger] pieces[i],
                            )
                        &&& #[trigger] self@.pubsub_side().broadcast_pieces(
                            topic@,
                            original_pieces(data),
                            pieces,
                        ) == Err::<(MuxView<A>, Seq<OutboundView>), FailureView>(e@)
                    },
            },
    {
        let MultiProtocolNode { host, pubsub_state, kad_table } = self;
        let mux = PubsubMux::join(host, pubsub_state);
        let ghost side = mux@;
        assert(side == self@.pubsub_side());
        match mux.broadcast(topic, data, num_pieces, rng_factory) {
            Err(e) => Err(e),
            Ok((mux, commitment, outbound)) => {
                let ghost after = mux@;
                let (host, pubsub_state) = mux.split();
                let node = MultiProtocolNode { host, pubsub_state, kad_table };
                assert(node@.pubsub_side() == after);
                Ok((node, commitment, outbound))
            },
        }
    }

    /// Processes one decrypted plaintext: its first byte says whose it is.
    /// `relay_rng` is asked at most once, for the coefficients of a piece to
    /// relay. Fails only where an answer or such a piece cannot be sent.
    pub fn process_plaintext<R: FnOnce(usize) -> Result<Vec<u8>, String>>(
        self,
        addr: UdpAddr,
        plaintext: &[u8],
        relay_rng: R,
    ) -> (r: Result<(Self, Inbound, Vec<Outbound>), Failure>)
        requires
            forall|n: usize| #[trigger] relay_rng.requires((n,)),
        ensures
            multi_outcome(self@, addr, plaintext@, relay_rng, r),
            delivers_faithfully(self@, plaintext@, r),
    {
        let ghost before = self@;
        let nothing: Vec<Outbound> = Vec::new();
        assert(outbounds_view(nothing@) =~= Seq::<OutboundView>::empty());
        if plaintext.len() == 0 {
            let reason = "datagram plaintext was empty (no kind byte)".to_owned();
            return Ok(
                (self, Inbound::Event(MultiProtocolEvent::Rejected { addr, reason }), nothing),
            );
        }
        let kind: u8 = plaintext[0];
        let body = slice_subrange(plaintext, 1, plaintext.len());
        assert(body@ =~= plaintext@.skip(1));
        let MultiProtocolNode { host, pubsub_state, kad_table } = self;
        if kind == KIND_APP || kind == KIND_PUBSUB {
            let mux = PubsubMux::join(host, pubsub_state);
            let inner = mux.process_plaintext(addr, plaintext, relay_rng);
            let ghost seen = inner;
            match inner {
                Err(e) => {
                    let r = Err(e);
                    proof {
                        lemma_multi_outcome(before, addr, plaintext@, relay_rng, seen, r);
                    }
                    r
                },
                Ok((mux, event, outbound)) => {
                    let (host, pubsub_state) = mux.split();
                    let node = MultiProtocolNode { host, pubsub_state, kad_table };
                    let ghost mine = event@;
                    let r = Ok((node, Inbound::Event(lift_pubsub_event(event)), outbound));
                    proof {
                        lemma_multi_outcome(before, addr, plaintext@, relay_rng, seen, r);
                        assert(r->Ok_0.1@ == InboundView::Event(mine.lifted()));
                        if let Some(frame) = frame_in::<A>(plaintext@) {
                            assert(faithful(
                                before.pubsub_side(),
                                frame,
                                node@.pubsub_side(),
                                mine,
                            ));
                            assert forall|originals: Seq<Seq<u8>>|
                                #[trigger] before.pubsub.carries(frame.topic, originals)
                                    && frame.wire.piece.explained_by(originals) implies {
                                &&& node@.pubsub.carries(frame.topic, originals)
                                &&& r->Ok_0.1@ matches InboundView::Event(
                                    MultiProtocolEventView::PubsubDelivered { data, .. },
                                ) ==> unpadded(joined(originals)) == Some(data)
                                &&& !before.pubsub.recoders.dom().contains(frame.topic)
                                    && before.pubsub.completes(frame)
                                    && unpadded(joined(originals)) is Some
                                    ==> r->Ok_0.1@ matches InboundView::Event(
                                    MultiProtocolEventView::PubsubDelivered { .. },
                                )
                            } by {
                                assert(before.pubsub_side().state.carries(
                                    frame.topic,
                                    originals,
                                ));
                            }
                        }
                    }
                    r
                },
            }
        } else if kind == KIND_KAD {
            let node = KademliaNode::join(host, kad_table);
            let prefix: [u8; 1] = [KIND_KAD];
            assert(prefix@ =~= seq![KIND_KAD]);
            match node.process_plaintext_with_wrap(addr, body, prefix.as_slice()) {
                Err(e) => Err(Failure::early(e)),
                Ok((node, event, sent)) => {
                    let (host, kad_table) = node.split();
                    let mut outbound: Vec<Outbound> = Vec::new();
                    if let Some(o) = sent {
                        outbound.push(o);
                        assert(outbounds_view(outbound@) =~= seq![o@]);
                    } else {
                        assert(outbounds_view(outbound@) =~= Seq::<OutboundView>::empty());
                    }
                    Ok(
                        (
                            MultiProtocolNode { host, pubsub_state, kad_table },
                            Inbound::Event(lift_kad_event(event)),
                            outbound,
                        ),
                    )
                },
            }
        } else if kind == KIND_RENDEZVOUS {
            let node = MultiProtocolNode { host, pubsub_state, kad_table };
            let body = copy_range(plaintext, 1, plaintext.len());
            Ok((node, Inbound::Rendezvous { from: addr, body }, nothing))
        } else if kind == KIND_RPC {
            let node = MultiProtocolNode { host, pubsub_state, kad_table };
            let body = copy_range(plaintext, 1, plaintext.len());
            Ok((node, Inbound::Event(MultiProtocolEvent::RpcDatagram { peer: addr, body }), nothing))
        } else {
            let node = MultiProtocolNode { host, pubsub_state, kad_table };
            let digits = hex_byte_text(kind);
            let reason = "unknown plaintext kind byte 0x".to_owned().concat(digits.as_str());
            Ok((node, Inbound::Event(MultiProtocolEvent::Rejected { addr, reason }), nothing))
        }
    }

    /// Processes one datagram that arrived from `from`.
    pub fn recv_one<R: FnOnce(usize) -> Result<Vec<u8>, String>>(
        self,
        from: UdpAddr,
        datagram: &[u8],
        ephemeral_seed: [u8; 32],
        relay_rng: R,
    ) -> (r: Result<(Self, Inbound, Vec<Outbound>), Failure>)
        requires
            forall|n: usize| #[trigger] relay_rng.requires((n,)),
        ensures
            ({
                let s = self@.host.step(from, datagram@, ephemeral_seed@);
                let node = MultiView { host: s.host, ..self@ };
                match s.event {
                    HostEventView::DatagramDelivered { addr, plaintext } => {
                        &&& multi_outcome(node, addr, plaintext, relay_rng, r)
                        &&& delivers_faithfully(node, plaintext, r)
                    },
                    _ => multi_step_view(r) == node.on_host_event(s.event, s.outbound, unasked()),
                }
            }),
    {
        let MultiProtocolNode { host, pubsub_state, kad_table } = self;
        let (host, event, sent) = host.recv_one(from, datagram, ephemeral_seed);
        let mut outbound: Vec<Outbound> = Vec::new();
        if let Some(o) = sent {
            outbound.push(o);
            assert(outbounds_view(outbound@) =~= seq![o@]);
        } else {
            assert(outbounds_view(outbound@) =~= Seq::<OutboundView>::empty());
        }
        match event {
            HostEvent::HandshakeProgress { addr } => Ok(
                (
                    MultiProtocolNode { host, pubsub_state, kad_table },
                    Inbound::Event(MultiProtocolEvent::HandshakeProgress { addr }),
                    outbound,
                ),
            ),
            HostEvent::HandshakeComplete { addr, remote_static, remote_peer_id } => {
                let remote_node_id = peer_node_id(&remote_peer_id);
                let (kad_table, _) = kad_table.insert(remote_node_id, addr);
                Ok(
                    (
                        MultiProtocolNode { host, pubsub_state, kad_table },
                        Inbound::Event(
                            MultiProtocolEvent::HandshakeComplete {
                                addr,
                                remote_static,
                                remote_peer_id,
                                remote_node_id,
                            },
                        ),
                        outbound,
                    ),
                )
            },
            HostEvent::Rejected { addr, reason } => Ok(
                (
                    MultiProtocolNode { host, pubsub_state, kad_table },
                    Inbound::Event(MultiProtocolEvent::Rejected { addr, reason }),
                    outbound,
                ),
            ),
            HostEvent::DatagramDelivered { addr, plaintext } => {
                let node = MultiProtocolNode { host, pubsub_state, kad_table };
                node.process_plaintext(addr, plaintext.as_slice(), relay_rng)
            },
        }
    }

    /// A search for `target` that starts from the closest peers of the routing
    /// table.
    pub fn start_lookup(&self, target: NodeId, config: LookupConfig) -> (search: Search)
        ensures
            search@ == SearchView::fresh(started(self@.table, target, config)),
            search@.lookup.results() == self@.table.closest(target, config.k as nat),
            config.max_rounds == 0 ==> search@.finished(),
    {
        let initial = self.kad_table.closest_to(&target, config.k);
        proof {
            fresh_searches_know_the_table(self@.table, target, config);
        }
        Search::new(Lookup::new(*self.node_id(), target, config, &initial))
    }

    /// Begins a round of a search, as [`Search::begin_round`] does; questions
    /// travel as Kademlia plaintexts.
    pub fn begin_lookup_round(self, search: Search, seeds: &Vec<[u8; 32]>) -> (r: Result<
        (Self, Search, Vec<Outbound>, bool),
        Failure,
    >)
        requires
            seeds@.len() >= search@.seeds_wanted(self@.host),
        ensures
            ({
                let actions = planned(self@.host, search@.lookup.picks(), seeds@);
                let done = performed(
                    self@.host,
                    seq![KIND_KAD],
                    search@.lookup.target,
                    actions,
                    actions.len(),
                );
                match r {
                    Ok((node, next, outbound, finished)) => {
                        &&& finished == search@.finished()
                        &&& finished ==> node@ == self@ && next@ == search@ && outbound@.len() == 0
                        &&& !finished ==> next@ == search@.round_begun(actions) && done == Ok::<
                            (HostView, Seq<OutboundView>),
                            FailureView,
                        >((node@.host, outbounds_view(outbound@))) && node@ == (MultiView {
                            host: node@.host,
                            ..self@
                        })
                    },
                    Err(e) => !search@.finished() && done == Err::<
                        (HostView, Seq<OutboundView>),
                        FailureView,
                    >(e@),
                }
            }),
    {
        let MultiProtocolNode { host, pubsub_state, kad_table } = self;
        let prefix: [u8; 1] = [KIND_KAD];
        assert(prefix@ =~= seq![KIND_KAD]);
        match search.begin_round(host, prefix.as_slice(), seeds) {
            Err(e) => Err(e),
            Ok(round) => {
                let Round { host, search, outbound, finished } = round;
                Ok((MultiProtocolNode { host, pubsub_state, kad_table }, search, outbound, finished))
            },
        }
    }
}

/// Takes an event of the node into a lookup.
pub fn absorb_lookup_event(lookup: Lookup, ev: &MultiProtocolEvent) -> (r: Lookup)
    ensures
        r@ == lookup_on_event(lookup@, ev@),
{
    match ev {
        MultiProtocolEvent::KadFindNodeResponseReceived { from, peers } => lookup.record_response(
            *from,
            peers,
        ).0,
        MultiProtocolEvent::HandshakeComplete { addr, .. } => {
            if lookup.is_pending_dial(*addr) {
                lookup.complete_dial(*addr)
            } else {
                lookup
            }
        },
        _ => lookup,
    }
}

/// Takes an event of the node into a search.
pub fn absorb_search_event(search: Search, ev: &MultiProtocolEvent) -> (r: Search)
    ensures
        r@ == search@.after_datagram(lookup_on_event(search@.lookup, ev@)),
{
    if search.awaiting() {
        let Search { lookup, rounds_left, budget } = search;
        Search { lookup: absorb_lookup_event(lookup, ev), rounds_left, budget: budget - 1 }
    } else {
        search
    }
}

// ------------------------------------------------------------------ the laws

/// Application data and pubsub frames are understood alike by a node of all
/// protocols and by a pubsub node.
pub proof fn pubsub_kinds_are_compatible<A: WireAuthenticator>(
    node: MultiView<A>,
    addr: UdpAddr,
    plaintext: Seq<u8>,
    coefficients: Result<Seq<u8>, Seq<char>>,
)
    requires
        plaintext.len() > 0,
        plaintext[0] == KIND_APP || plaintext[0] == KIND_PUBSUB,
    ensures
        node.on_plaintext(addr, plaintext, coefficients) == node.after_pubsub(
            node.pubsub_side().on_plaintext(addr, plaintext, coefficients),
        ),
{
}

/// A plaintext of one protocol leaves the state of the others alone: only
/// Kademlia frames reach the routing table, and only pubsub frames the topics.
pub proof fn protocols_keep_apart<A: WireAuthenticator>(
    node: MultiView<A>,
    addr: UdpAddr,
    plaintext: Seq<u8>,
    coefficients: Result<Seq<u8>, Seq<char>>,
)
    requires
        node.on_plaintext(addr, plaintext, coefficients) is Ok,
    ensures
        ({
            let next = node.on_plaintext(addr, plaintext, coefficients)->Ok_0.node;
            &&& plaintext.len() == 0 || plaintext[0] != KIND_KAD ==> next.table == node.table
            &&& plaintext.len() == 0 || plaintext[0] != KIND_PUBSUB ==> next.pubsub == node.pubsub
        }),
{
}

} // verus!
