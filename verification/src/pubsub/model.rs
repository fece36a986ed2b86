//! The meaning of a pubsub node and of its steps.
use vstd::prelude::*;
use vstd::utf8::decode_utf8;
use crate::activity::tick_after;
use crate::addr::{OutboundView, UdpAddr};
use crate::error::ErrorView;
use crate::failure::FailureView;
use crate::host::event::HostEventView;
use crate::host::fanout::sent_to_each;
use crate::host::model::HostView;
use crate::ordered_map::listing;
use crate::pubsub::auth::WireAuthenticator;
use crate::pubsub::codec::{parse, PubsubFrameView, WirePieceView};
use crate::pubsub::event::MuxEventView;
use crate::pubsub::state::{DecoderEntryView, PubsubView, RecoderEntryView};
use crate::rlnc::{codings, misfit, shaped, spanned, DecoderView, PieceView, RecoderView};
use crate::text::hex_byte;

verus! {

/// First byte of raw application data.
pub const KIND_APP: u8 = 0x00;

/// First byte of a pubsub frame.
pub const KIND_PUBSUB: u8 = 0x01;

/// The name of a topic as text.
pub open spec fn topic_text(topic: Seq<u8>) -> Seq<char> {
    decode_utf8(topic)
}

/// Why a piece with a bad tag is refused.
pub open spec fn bad_tag(topic: Seq<u8>) -> Seq<char> {
    "auth verify failed for topic "@ + topic_text(topic) + ": "@
        + "authenticator rejected the piece"@
}

/// Why a piece is refused where the topic has lost its role.
pub open spec fn vanished(role: Seq<char>, topic: Seq<u8>) -> Seq<char> {
    role + " for topic "@ + topic_text(topic) + " vanished mid-dispatch"@
}

/// What a relay does about a genuine piece.
pub enum Gate {
    /// The piece does not fit.
    Misfit(Seq<char>),
    /// The piece tells nothing new.
    Redundant,
    /// The piece is new.
    Fresh,
}

impl RecoderEntryView {
    /// What the relay does about a genuine piece: only one that raises the rank
    /// is stored and sent on.
    pub open spec fn gate(self, piece: PieceView) -> Gate {
        if self.tracker.complete() {
            Gate::Redundant
        } else {
            match misfit(piece, self.tracker.k, self.tracker.b) {
                Some(reason) => Gate::Misfit(reason),
                None => if self.tracker.absorbed(piece).rank() == self.tracker.rank() {
                    Gate::Redundant
                } else {
                    Gate::Fresh
                },
            }
        }
    }
}

/// The meaning of a pubsub node.
pub struct MuxView<A> {
    pub host: HostView,
    pub state: PubsubView<A>,
}

/// A step of a pubsub node: its next state, what happened, and the datagrams to
/// send.
pub struct MuxStepView<A> {
    pub mux: MuxView<A>,
    pub event: MuxEventView,
    pub outbound: Seq<OutboundView>,
}

/// The addresses but one, in the same order.
pub open spec fn without_addr(addrs: Seq<UdpAddr>, exclude: UdpAddr) -> Seq<UdpAddr>
    decreases addrs.len(),
{
    if addrs.len() == 0 {
        Seq::empty()
    } else if addrs.last() == exclude {
        without_addr(addrs.drop_last(), exclude)
    } else {
        without_addr(addrs.drop_last(), exclude).push(addrs.last())
    }
}

/// The established peers but one, in ascending order.
pub open spec fn others(host: HostView, exclude: UdpAddr) -> Seq<UdpAddr> {
    without_addr(listing::<UdpAddr>(host.established.dom()), exclude)
}

/// A plaintext with its kind byte.
pub open spec fn of_kind(kind: u8, body: Seq<u8>) -> Seq<u8> {
    seq![kind] + body
}

/// The pubsub frame in a plaintext, if it is one.
pub open spec fn frame_in<A: WireAuthenticator>(plaintext: Seq<u8>) -> Option<PubsubFrameView> {
    if plaintext.len() > 0 && plaintext[0] == KIND_PUBSUB {
        match parse::<A>(plaintext.skip(1)) {
            Ok(frame) => Some(frame),
            Err(_) => None,
        }
    } else {
        None
    }
}

impl<A: WireAuthenticator> PubsubView<A> {
    /// What a node holds of a topic are combinations of the given pieces.
    pub open spec fn carries(self, topic: Seq<u8>, originals: Seq<Seq<u8>>) -> bool {
        &&& self.decoders.dom().contains(topic) ==> {
            let state = self.decoders[topic].state;
            shaped(originals, state.k, state.b) && state.explained_by(originals)
        }
        &&& self.recoders.dom().contains(topic) ==> {
            let recoder = self.recoders[topic].recoder;
            shaped(originals, recoder.k, recoder.b) && recoder.explained_by(originals)
        }
    }

    /// Whether the piece of a frame completes the decoder of its topic.
    pub open spec fn completes(self, frame: PubsubFrameView) -> bool {
        self.decoders.dom().contains(frame.topic) && {
            let entry = self.decoders[frame.topic];
            &&& self.auth.accepts(entry.commitment, frame.wire.piece, frame.wire.tag)
            &&& misfit(frame.wire.piece, entry.state.k, entry.state.b) is None
            &&& entry.state.absorbed(frame.wire.piece).complete()
        }
    }

    /// Whether a frame makes the node relay a fresh combination.
    pub open spec fn relays(self, frame: PubsubFrameView) -> bool {
        self.recoders.dom().contains(frame.topic) && {
            let entry = self.recoders[frame.topic];
            &&& self.auth.accepts(entry.commitment, frame.wire.piece, frame.wire.tag)
            &&& entry.gate(frame.wire.piece) is Fresh
        }
    }

    /// The recoder of a topic with the piece of a frame.
    pub open spec fn grown(self, frame: PubsubFrameView) -> RecoderView {
        self.recoders[frame.topic].recoder.added(frame.wire.piece)
    }

    /// How many coefficients the node needs for what a frame makes it relay.
    pub open spec fn wants(self, frame: PubsubFrameView) -> Option<nat> {
        if self.relays(frame) {
            Some(self.grown(frame).pieces.len())
        } else {
            None
        }
    }

    /// The state once the recoder of a topic has been touched.
    pub open spec fn recoder_touched(self, topic: Seq<u8>) -> PubsubView<A> {
        PubsubView {
            recoders: self.recoders.insert(
                topic,
                RecoderEntryView {
                    last_activity: tick_after(self.tick),
                    ..self.recoders[topic]
                },
            ),
            ..self
        }.ticked()
    }

    /// The state once the piece of a frame has been stored for relaying.
    pub open spec fn relayed(self, frame: PubsubFrameView) -> PubsubView<A> {
        let entry = self.recoders[frame.topic];
        PubsubView {
            recoders: self.recoders.insert(
                frame.topic,
                RecoderEntryView {
                    recoder: self.grown(frame),
                    tracker: entry.tracker.absorbed(frame.wire.piece),
                    commitment: entry.commitment,
                    last_activity: tick_after(self.tick),
                },
            ),
            ..self
        }.ticked()
    }

    /// The frame that goes out: a combination of the stored pieces, tagged anew.
    pub open spec fn relay_frame(self, frame: PubsubFrameView, coefficients: Seq<u8>) -> PubsubFrameView {
        let commitment = self.recoders[frame.topic].commitment;
        let piece = self.grown(frame).combined(coefficients);
        PubsubFrameView {
            topic: frame.topic,
            k: frame.wire.piece.coding.len(),
            b: frame.wire.piece.data.len(),
            wire: WirePieceView { commitment, piece, tag: self.auth.tags(commitment, piece) },
        }
    }

    /// The state once the decoder of a topic has taken in a piece.
    pub open spec fn decoder_advanced(self, topic: Seq<u8>, piece: PieceView) -> PubsubView<A> {
        let entry = self.decoders[topic];
        PubsubView {
            decoders: self.decoders.insert(
                topic,
                DecoderEntryView {
                    state: entry.state.absorbed(piece),
                    commitment: entry.commitment,
                    last_activity: tick_after(self.tick),
                },
            ),
            ..self
        }.ticked()
    }

    /// The state without the decoder of a topic.
    pub open spec fn decoder_dropped(self, topic: Seq<u8>) -> PubsubView<A> {
        PubsubView { decoders: self.decoders.remove(topic), ..self }
    }
}

impl<A: WireAuthenticator> MuxView<A> {
    /// The event alone, with a new protocol state and nothing to send.
    pub open spec fn quiet(self, state: PubsubView<A>, event: MuxEventView) -> MuxStepView<A> {
        MuxStepView { mux: MuxView { state, ..self }, event, outbound: Seq::empty() }
    }

    /// The datagram is refused, and nothing changes.
    pub open spec fn refuse(self, addr: UdpAddr, reason: Seq<char>) -> MuxStepView<A> {
        self.quiet(self.state, MuxEventView::Rejected { addr, reason })
    }

    /// A piece for a topic that is decoded.
    pub open spec fn on_decoder(self, addr: UdpAddr, frame: PubsubFrameView) -> MuxStepView<A> {
        let topic = frame.topic;
        let piece = frame.wire.piece;
        let entry = self.state.decoders[topic];
        if !self.state.auth.accepts(entry.commitment, piece, frame.wire.tag) {
            self.refuse(addr, bad_tag(topic))
        } else {
            match misfit(piece, entry.state.k, entry.state.b) {
                Some(reason) => self.quiet(
                    self.state.decoder_dropped(topic),
                    MuxEventView::Rejected { addr, reason: "absorb failed: "@ + reason },
                ),
                None => {
                    let next = entry.state.absorbed(piece);
                    if next.complete() {
                        self.quiet(
                            self.state.decoder_dropped(topic).ticked(),
                            match next.decoded() {
                                Ok(data) => MuxEventView::PubsubDelivered { addr, topic, data },
                                Err(reason) => MuxEventView::Rejected {
                                    addr,
                                    reason: "decode failed: "@ + reason,
                                },
                            },
                        )
                    } else {
                        self.quiet(
                            self.state.decoder_advanced(topic, piece),
                            MuxEventView::PubsubAbsorbed { addr, topic },
                        )
                    }
                },
            }
        }
    }

    /// A piece for a topic that is relayed. `coefficients` is what the random
    /// source gave, where it was asked.
    pub open spec fn on_relay(
        self,
        addr: UdpAddr,
        frame: PubsubFrameView,
        coefficients: Result<Seq<u8>, Seq<char>>,
    ) -> Result<MuxStepView<A>, FailureView> {
        let topic = frame.topic;
        let entry = self.state.recoders[topic];
        if !self.state.auth.accepts(entry.commitment, frame.wire.piece, frame.wire.tag) {
            Ok(self.refuse(addr, bad_tag(topic)))
        } else {
            match entry.gate(frame.wire.piece) {
                Gate::Misfit(reason) => Ok(
                    self.refuse(addr, "relay rank tracker absorb failed: "@ + reason),
                ),
                Gate::Redundant => Ok(
                    self.quiet(
                        self.state.recoder_touched(topic),
                        MuxEventView::PubsubRedundant { addr, topic },
                    ),
                ),
                Gate::Fresh => match coefficients {
                    Err(reason) => Err(FailureView::early(ErrorView::RlncLayer(reason))),
                    Ok(c) => self.on_fresh(addr, frame, c),
                },
            }
        }
    }

    /// A piece that is new to a relay: a combination goes to every other peer.
    pub open spec fn on_fresh(self, addr: UdpAddr, frame: PubsubFrameView, coefficients: Seq<u8>) -> Result<
        MuxStepView<A>,
        FailureView,
    > {
        match self.state.grown(frame).recode_error(coefficients) {
            Some(reason) => Err(FailureView::early(ErrorView::RlncLayer(reason))),
            None => {
                let out = self.state.relay_frame(frame, coefficients);
                match out.shape_error() {
                    Some(e) => Err(FailureView::early(e)),
                    None => {
                        let addrs = others(self.host, addr);
                        match sent_to_each(
                            self.host,
                            addrs,
                            of_kind(KIND_PUBSUB, out.bytes()),
                            addrs.len(),
                        ) {
                            Err(e) => Err(e),
                            Ok((host, outbound)) => Ok(
                                MuxStepView {
                                    mux: MuxView { host, state: self.state.relayed(frame) },
                                    event: MuxEventView::PubsubRelayed {
                                        from: addr,
                                        topic: frame.topic,
                                        fanout_count: addrs.len(),
                                    },
                                    outbound,
                                },
                            ),
                        }
                    },
                }
            },
        }
    }

    /// What the body of a pubsub plaintext does. A relay comes before a decoder.
    pub open spec fn on_body(
        self,
        addr: UdpAddr,
        body: Seq<u8>,
        coefficients: Result<Seq<u8>, Seq<char>>,
    ) -> Result<MuxStepView<A>, FailureView> {
        match parse::<A>(body) {
            Err(e) => Ok(self.refuse(addr, "pubsub frame decode failed: "@ + e.text())),
            Ok(frame) => if self.state.recoders.dom().contains(frame.topic) {
                self.on_relay(addr, frame, coefficients)
            } else if self.state.decoders.dom().contains(frame.topic) {
                Ok(self.on_decoder(addr, frame))
            } else {
                Ok(
                    self.refuse(
                        addr,
                        "frame received for unregistered topic "@ + topic_text(frame.topic),
                    ),
                )
            },
        }
    }

    /// What a plaintext does: its first byte says what it is.
    pub open spec fn on_plaintext(
        self,
        addr: UdpAddr,
        plaintext: Seq<u8>,
        coefficients: Result<Seq<u8>, Seq<char>>,
    ) -> Result<MuxStepView<A>, FailureView> {
        if plaintext.len() == 0 {
            Ok(self.refuse(addr, "datagram plaintext was empty (no kind byte)"@))
        } else if plaintext[0] == KIND_APP {
            Ok(
                self.quiet(
                    self.state,
                    MuxEventView::AppData { addr, bytes: plaintext.skip(1) },
                ),
            )
        } else if plaintext[0] == KIND_PUBSUB {
            self.on_body(addr, plaintext.skip(1), coefficients)
        } else {
            Ok(self.refuse(addr, "unknown plaintext kind byte 0x"@ + hex_byte(plaintext[0])))
        }
    }

    /// How many coefficients a plaintext makes the node ask for.
    pub open spec fn wants(self, plaintext: Seq<u8>) -> Option<nat> {
        match frame_in::<A>(plaintext) {
            Some(frame) => self.state.wants(frame),
            None => None,
        }
    }

    /// What an event of the host does.
    pub open spec fn on_host_event(
        self,
        event: HostEventView,
        outbound: Option<OutboundView>,
        coefficients: Result<Seq<u8>, Seq<char>>,
    ) -> Result<MuxStepView<A>, FailureView> {
        let out = match outbound {
            Some(o) => seq![o],
            None => Seq::empty(),
        };
        match event {
            HostEventView::HandshakeProgress { addr } => Ok(
                MuxStepView {
                    mux: self,
                    event: MuxEventView::HandshakeProgress { addr },
                    outbound: out,
                },
            ),
            HostEventView::HandshakeComplete { addr, remote_static, remote_peer_id } => Ok(
                MuxStepView {
                    mux: self,
                    event: MuxEventView::HandshakeComplete { addr, remote_static, remote_peer_id },
                    outbound: out,
                },
            ),
            HostEventView::Rejected { addr, reason } => Ok(
                MuxStepView {
                    mux: self,
                    event: MuxEventView::Rejected { addr, reason },
                    outbound: out,
                },
            ),
            HostEventView::DatagramDelivered { addr, plaintext } => self.on_plaintext(
                addr,
                plaintext,
                coefficients,
            ),
        }
    }
}

// --------------------------------------------------------------- the laws

/// A decoder that was just registered holds nothing that a generation of its
/// shape does not explain, and neither does a relay.
pub proof fn fresh_topics_carry_any_generation<A: WireAuthenticator>(
    state: PubsubView<A>,
    topic: Seq<u8>,
    k: nat,
    b: nat,
    commitment: Seq<u8>,
    originals: Seq<Seq<u8>>,
)
    requires
        shaped(originals, k, b),
    ensures
        !state.recoders.dom().contains(topic) ==> state.decoding(topic, k, b, commitment).carries(
            topic,
            originals,
        ),
        !state.decoders.dom().contains(topic) ==> state.relaying(topic, k, b, commitment).carries(
            topic,
            originals,
        ),
{
}

/// A piece whose tag is not accepted changes nothing and is sent to nobody,
/// whether the node decodes the topic or relays it.
pub proof fn bad_tags_change_nothing<A: WireAuthenticator>(
    mux: MuxView<A>,
    addr: UdpAddr,
    frame: PubsubFrameView,
    coefficients: Result<Seq<u8>, Seq<char>>,
)
    ensures
        mux.state.recoders.dom().contains(frame.topic) && !mux.state.auth.accepts(
            mux.state.recoders[frame.topic].commitment,
            frame.wire.piece,
            frame.wire.tag,
        ) ==> mux.on_relay(addr, frame, coefficients) == Ok::<MuxStepView<A>, FailureView>(
            mux.refuse(addr, bad_tag(frame.topic)),
        ),
        mux.state.decoders.dom().contains(frame.topic) && !mux.state.auth.accepts(
            mux.state.decoders[frame.topic].commitment,
            frame.wire.piece,
            frame.wire.tag,
        ) ==> mux.on_decoder(addr, frame) == mux.refuse(addr, bad_tag(frame.topic)),
{
}

/// A piece that tells a relay nothing new is neither stored nor sent on.
pub proof fn redundant_pieces_are_not_relayed<A: WireAuthenticator>(
    mux: MuxView<A>,
    addr: UdpAddr,
    frame: PubsubFrameView,
    coefficients: Result<Seq<u8>, Seq<char>>,
)
    requires
        mux.state.recoders.dom().contains(frame.topic),
        mux.state.auth.accepts(
            mux.state.recoders[frame.topic].commitment,
            frame.wire.piece,
            frame.wire.tag,
        ),
        mux.state.recoders[frame.topic].gate(frame.wire.piece) is Redundant,
    ensures
        mux.on_relay(addr, frame, coefficients) matches Ok(step) && step.outbound.len() == 0
            && step.mux.state.recoders[frame.topic].recoder
            == mux.state.recoders[frame.topic].recoder
            && step.mux.state.recoders[frame.topic].tracker
            == mux.state.recoders[frame.topic].tracker,
{
}

/// Once a relay's rank is full nothing is relayed any more: it sends at most one
/// combination for each original piece, and circulation among relays ends.
pub proof fn full_rank_ends_relaying<A: WireAuthenticator>(
    mux: MuxView<A>,
    addr: UdpAddr,
    frame: PubsubFrameView,
    coefficients: Result<Seq<u8>, Seq<char>>,
)
    requires
        mux.state.gated(),
        mux.state.recoders.dom().contains(frame.topic),
        mux.state.recoders[frame.topic].recoder.pieces.len()
            == mux.state.recoders[frame.topic].recoder.k,
    ensures
        mux.on_relay(addr, frame, coefficients) matches Ok(step) && step.outbound.len() == 0
            && !(step.event is PubsubRelayed),
{
}

/// A relay takes exactly the pieces that fit and do not depend on the ones that it
/// stores.
pub proof fn relays_take_independent_pieces(entry: RecoderEntryView, piece: PieceView)
    requires
        entry.gated(),
    ensures
        entry.gate(piece) is Fresh <==> misfit(piece, entry.recoder.k, entry.recoder.b) is None
            && !spanned(piece.coding, codings(entry.recoder.pieces)),
        entry.recoder.pieces.len() == entry.recoder.k ==> entry.gate(piece) is Redundant,
{
    if misfit(piece, entry.tracker.k, entry.tracker.b) is None {
        let next = entry.tracker.absorbed(piece).rank();
        assert(next == entry.tracker.rank() <==> spanned(piece.coding, entry.tracker.codings()));
        assert(spanned(piece.coding, codings(entry.recoder.pieces)) <==> spanned(
            piece.coding,
            entry.tracker.codings(),
        ));
    }
}

/// A piece with the coefficients of one that a relay stores is redundant.
pub proof fn stored_pieces_are_redundant(entry: RecoderEntryView, i: int, piece: PieceView)
    requires
        entry.gated(),
        0 <= i < entry.recoder.pieces.len(),
        piece.coding == entry.recoder.pieces[i].coding,
        piece.data.len() == entry.recoder.b,
    ensures
        entry.gate(piece) is Redundant,
{
    let stored = entry.recoder.pieces[i];
    assert(misfit(stored, entry.recoder.k, entry.recoder.b) is None);
    assert(misfit(piece, entry.tracker.k, entry.tracker.b) is None);
}

/// A combination of what a relay stores is never relayed when it comes back: where
/// it fits, it is redundant.
pub proof fn own_combinations_are_not_relayed(entry: RecoderEntryView, coefficients: Seq<u8>)
    requires
        entry.gated(),
        entry.recoder.recode_error(coefficients) is None,
    ensures
        ({
            let piece = entry.recoder.combined(coefficients);
            let fits = misfit(piece, entry.recoder.k, entry.recoder.b) is None;
            !(entry.gate(piece) is Fresh) && (fits ==> entry.gate(piece) is Redundant)
        }),
{
    let piece = entry.recoder.combined(coefficients);
    assert(codings(entry.recoder.pieces) == entry.recoder.pieces.map_values(
        |p: PieceView| p.coding,
    ));
    assert(spanned(piece.coding, codings(entry.recoder.pieces)));
    relays_take_independent_pieces(entry, piece);
}

/// A piece that a node processed for a topic that it relays: the node before, what
/// came from where, and the step.
pub struct RelayCall<A> {
    pub before: MuxView<A>,
    pub addr: UdpAddr,
    pub frame: PubsubFrameView,
    pub after: MuxStepView<A>,
}

impl<A: WireAuthenticator> RelayCall<A> {
    /// The recoder that the call found.
    pub open spec fn found(self) -> RecoderEntryView {
        self.before.state.recoders[self.frame.topic]
    }

    /// The recoder that the call left.
    pub open spec fn left(self) -> RecoderEntryView {
        self.after.mux.state.recoders[self.frame.topic]
    }

    /// Whether a valid node that relays the topic took the step, on whatever the
    /// random source gave.
    pub open spec fn took_place(self) -> bool {
        &&& self.before.state.gated()
        &&& self.before.state.recoders.dom().contains(self.frame.topic)
        &&& exists|coefficients: Result<Seq<u8>, Seq<char>>| #[trigger]
            self.before.on_relay(self.addr, self.frame, coefficients) == Ok::<
                MuxStepView<A>,
                FailureView,
            >(self.after)
    }

    /// Whether the tag of the piece is accepted under a commitment.
    pub open spec fn genuine(self, commitment: Seq<u8>) -> bool {
        self.before.state.auth.accepts(commitment, self.frame.wire.piece, self.frame.wire.tag)
    }
}

/// The calls for one topic, from its registration for relaying on: each finds the
/// recoder as the one before left it. What the node does in between for other
/// topics is open.
pub open spec fn relay_run<A: WireAuthenticator>(
    topic: Seq<u8>,
    k: nat,
    b: nat,
    commitment: Seq<u8>,
    calls: Seq<RelayCall<A>>,
) -> bool {
    &&& forall|i: int|
        0 <= i < calls.len() ==> (#[trigger] calls[i]).took_place() && calls[i].frame.topic == topic
    &&& calls.len() > 0 ==> {
        &&& calls[0].found().recoder == RecoderView::empty(k, b)
        &&& calls[0].found().tracker == DecoderView::empty(k, b)
        &&& calls[0].found().commitment == commitment
    }
    &&& forall|i: int|
        0 < i < calls.len() ==> (#[trigger] calls[i]).found() == calls[i - 1].left()
}

/// The pieces among the first `n` calls that were relayed.
pub open spec fn relayed_pieces<A>(calls: Seq<RelayCall<A>>, n: nat) -> Seq<PieceView>
    decreases n,
{
    if n == 0 {
        Seq::empty()
    } else {
        let before = relayed_pieces(calls, (n - 1) as nat);
        if calls[n - 1].after.event is PubsubRelayed {
            before.push(calls[n - 1].frame.wire.piece)
        } else {
            before
        }
    }
}

/// Each call finds exactly the pieces that were relayed before it.
proof fn lemma_run_found<A: WireAuthenticator>(
    topic: Seq<u8>,
    k: nat,
    b: nat,
    commitment: Seq<u8>,
    calls: Seq<RelayCall<A>>,
    i: nat,
)
    requires
        relay_run(topic, k, b, commitment, calls),
        i < calls.len(),
    ensures
        calls[i as int].found().recoder == (RecoderView {
            k,
            b,
            pieces: relayed_pieces(calls, i),
        }),
        calls[i as int].found().commitment == commitment,
        calls[i as int].left().recoder == (RecoderView {
            k,
            b,
            pieces: relayed_pieces(calls, i + 1),
        }),
        calls[i as int].left().commitment == commitment,
    decreases i,
{
    let call = calls[i as int];
    if i > 0 {
        lemma_run_found(topic, k, b, commitment, calls, (i - 1) as nat);
        assert(call.found() == calls[i - 1].left());
    }
    assert(call.took_place());
    let piece = call.frame.wire.piece;
    if call.genuine(commitment) && call.found().gate(piece) is Fresh {
        assert(call.after.event is PubsubRelayed);
        assert(call.left().recoder == call.found().recoder.added(piece));
    }
}

/// Over all the calls since a topic was registered for relaying, a piece is
/// relayed exactly if it is genuine, fits, and does not depend linearly on the
/// pieces relayed before it. The relay stores just these pieces, at most one for
/// each original piece; nothing goes out for any other; and once there are as
/// many, every further genuine piece is redundant.
pub proof fn relaying_ends_with_the_generation<A: WireAuthenticator>(
    topic: Seq<u8>,
    k: nat,
    b: nat,
    commitment: Seq<u8>,
    calls: Seq<RelayCall<A>>,
    i: nat,
)
    requires
        relay_run(topic, k, b, commitment, calls),
        i < calls.len(),
    ensures
        ({
            let call = calls[i as int];
            let piece = call.frame.wire.piece;
            let earlier = relayed_pieces(calls, i);
            let stored = relayed_pieces(calls, i + 1);
            &&& call.after.event is PubsubRelayed <==> call.genuine(commitment) && misfit(
                piece,
                k,
                b,
            ) is None && !spanned(piece.coding, codings(earlier))
            &&& !(call.after.event is PubsubRelayed) ==> call.after.outbound.len() == 0
            &&& call.left().recoder.pieces == stored
            &&& stored.len() <= k
            &&& earlier.len() == k && call.genuine(commitment) ==> call.after.event
                is PubsubRedundant
        }),
{
    let call = calls[i as int];
    let piece = call.frame.wire.piece;
    lemma_run_found(topic, k, b, commitment, calls, i);
    assert(call.took_place());
    assert(call.found().gated());
    relays_take_independent_pieces(call.found(), piece);
    if call.genuine(commitment) && call.found().gate(piece) is Fresh {
        let next = call.found().tracker.absorbed(piece).rank();
        assert(next <= k);
    }
}

/// A piece that was relayed is among the relayed pieces from then on.
proof fn lemma_relayed_stays<A>(calls: Seq<RelayCall<A>>, j: nat, n: nat) -> (p: int)
    requires
        j < n <= calls.len(),
        calls[j as int].after.event is PubsubRelayed,
    ensures
        0 <= p < relayed_pieces(calls, n).len(),
        relayed_pieces(calls, n)[p] == calls[j as int].frame.wire.piece,
    decreases n,
{
    if n == j + 1 {
        relayed_pieces(calls, j).len() as int
    } else {
        lemma_relayed_stays(calls, j, (n - 1) as nat)
    }
}

/// A relay sends on no piece twice: one that it has relayed is redundant whenever
/// it comes again with a good tag, from whomever.
pub proof fn relayed_pieces_are_redundant<A: WireAuthenticator>(
    topic: Seq<u8>,
    k: nat,
    b: nat,
    commitment: Seq<u8>,
    calls: Seq<RelayCall<A>>,
    j: nat,
    i: nat,
)
    requires
        relay_run(topic, k, b, commitment, calls),
        j < i < calls.len(),
        calls[j as int].after.event is PubsubRelayed,
        calls[i as int].frame.wire.piece == calls[j as int].frame.wire.piece,
        calls[i as int].genuine(commitment),
    ensures
        calls[i as int].after.event is PubsubRedundant,
{
    let call = calls[i as int];
    lemma_run_found(topic, k, b, commitment, calls, i);
    assert(call.took_place());
    assert(call.found().gated());
    let p = lemma_relayed_stays(calls, j, i);
    let stored = call.found().recoder.pieces[p];
    assert(misfit(stored, k, b) is None);
    stored_pieces_are_redundant(call.found(), p, call.frame.wire.piece);
}

} // verus!
