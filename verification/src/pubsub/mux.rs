//! The pubsub node: a host and its topics.
use vstd::prelude::*;
use vstd::slice::slice_subrange;
use vstd::string::StringExecFns;
use vstd::utf8::encode_utf8_decode_utf8;
use std::sync::Arc;
use rlnc_cat_rs::coding::piece::OriginalData;
use crate::activity::{idle_cutoff, kept, next_tick};
use crate::addr::{Outbound, OutboundView, UdpAddr};
use crate::bytes::{copy_range, prefixed};
use crate::error::{Error, ErrorView};
use crate::failure::{outbounds_view, Failure, FailureView};
use crate::host::event::{HostEvent, HostEventView};
use crate::host::fanout::{send_to_each, sent_to_each};
use crate::host::host::Host;
use crate::host::model::HostView;
use crate::ordered_map::{listing, lists};
use crate::pubsub::auth::{PubsubAuth, WireAuthenticator};
use crate::pubsub::codec::{decode, encode, PubsubFrameView, WirePiece, WirePieceView};
use crate::pubsub::event::{MuxEvent, MuxEventView};
use crate::pubsub::model::{
    frame_in, of_kind, others, topic_text, vanished, without_addr, MuxStepView, MuxView,
    RelayCall, KIND_APP, KIND_PUBSUB,
};
use crate::pubsub::state::{
    decoder_activity, recoder_activity, DecoderEntry, PubsubState, PubsubView,
    RecoderEntry, RecoderEntryView,
};
use crate::pubsub::topic::Topic;
use crate::rlnc::{
    absorb_piece, add_piece, codings, decode_data, decoder_view, encode_piece, gf_combine,
    is_complete, joined, original_pieces, original_shape, recode, recoder_view, stored_count,
    unpadded, useful_count, CodedPiece, PieceView,
};
use crate::text::{decimal, hex_byte_text};

verus! {

/// A [`Host`] with the topics of a node.
pub struct PubsubMux<A: PubsubAuth> {
    host: Host,
    state: PubsubState<A>,
}

impl<A: PubsubAuth> View for PubsubMux<A> {
    type V = MuxView<A>;

    closed spec fn view(&self) -> MuxView<A> {
        MuxView { host: self.host@, state: self.state@ }
    }
}

/// The meaning of the result of a step.
pub open spec fn mux_step_view<A: PubsubAuth>(
    r: Result<(PubsubMux<A>, MuxEvent, Vec<Outbound>), Failure>,
) -> Result<MuxStepView<A>, FailureView> {
    match r {
        Ok((mux, event, outbound)) => Ok(
            MuxStepView { mux: mux@, event: event@, outbound: outbounds_view(outbound@) },
        ),
        Err(e) => Err(e@),
    }
}

/// What a random source gave.
pub open spec fn coefficients_view(c: Result<Vec<u8>, String>) -> Result<Seq<u8>, Seq<char>> {
    match c {
        Ok(bytes) => Ok(bytes@),
        Err(reason) => Err(reason@),
    }
}

/// Nothing: the random source was not asked.
pub open spec fn unasked() -> Result<Seq<u8>, Seq<char>> {
    Err(Seq::empty())
}

/// Whether a random source may give `c` when asked for `n` coefficients.
pub open spec fn gives<R: FnOnce(usize) -> Result<Vec<u8>, String>>(
    rng: R,
    n: nat,
    c: Result<Vec<u8>, String>,
) -> bool {
    rng.ensures((n as usize,), c)
}

/// Where all that the node held of the topic, and the piece that arrived, are
/// combinations of some original pieces, so is what it holds afterwards; what it
/// delivers is the data of these pieces; and it delivers once a piece completes
/// the decoder, where there is a boundary marker.
pub open spec fn faithful<A: WireAuthenticator>(
    before: MuxView<A>,
    frame: PubsubFrameView,
    after: MuxView<A>,
    event: MuxEventView,
) -> bool {
    forall|originals: Seq<Seq<u8>>| #[trigger]
        before.state.carries(frame.topic, originals) && frame.wire.piece.explained_by(originals)
            ==> {
            &&& after.state.carries(frame.topic, originals)
            &&& event matches MuxEventView::PubsubDelivered { data, .. } ==> unpadded(
                joined(originals),
            ) == Some(data)
            &&& !before.state.recoders.dom().contains(frame.topic) && before.state.completes(frame)
                && unpadded(joined(originals)) is Some ==> event is PubsubDelivered
        }
}

/// Where all that the relay held of the topic, and the piece that arrived, are
/// combinations of some original pieces, so is the piece that goes out.
pub open spec fn faithful_relay<A: WireAuthenticator>(
    before: MuxView<A>,
    frame: PubsubFrameView,
    coefficients: Seq<u8>,
) -> bool {
    forall|originals: Seq<Seq<u8>>| #[trigger]
        before.state.carries(frame.topic, originals) && frame.wire.piece.explained_by(originals)
            ==> before.state.relay_frame(frame, coefficients).wire.piece.explained_by(originals)
}

/// What a relay does once the random source gave `c`.
pub open spec fn relay_given<A: PubsubAuth>(
    before: MuxView<A>,
    addr: UdpAddr,
    frame: PubsubFrameView,
    c: Result<Vec<u8>, String>,
    r: Result<(PubsubMux<A>, MuxEvent, Vec<Outbound>), Failure>,
) -> bool {
    &&& mux_step_view(r) == before.on_relay(addr, frame, coefficients_view(c))
    &&& r is Ok ==> c is Ok && faithful_relay(before, frame, c->Ok_0@)
}

/// What a relay does about a piece, whatever the random source gives.
pub open spec fn relay_outcome<A: PubsubAuth, R: FnOnce(usize) -> Result<Vec<u8>, String>>(
    before: MuxView<A>,
    addr: UdpAddr,
    frame: PubsubFrameView,
    rng: R,
    r: Result<(PubsubMux<A>, MuxEvent, Vec<Outbound>), Failure>,
) -> bool {
    match before.state.wants(frame) {
        None => mux_step_view(r) == before.on_relay(addr, frame, unasked()),
        Some(n) => exists|c: Result<Vec<u8>, String>| #[trigger]
            gives(rng, n, c) && relay_given(before, addr, frame, c, r),
    }
}

/// What the random source gave decides the outcome.
proof fn lemma_relay_outcome<A: PubsubAuth, R: FnOnce(usize) -> Result<Vec<u8>, String>>(
    before: MuxView<A>,
    addr: UdpAddr,
    frame: PubsubFrameView,
    rng: R,
    n: nat,
    c: Result<Vec<u8>, String>,
    r: Result<(PubsubMux<A>, MuxEvent, Vec<Outbound>), Failure>,
)
    requires
        before.state.wants(frame) == Some(n),
        gives(rng, n, c),
        relay_given(before, addr, frame, c, r),
    ensures
        relay_outcome(before, addr, frame, rng, r),
{
    let m = before.state.wants(frame)->Some_0;
    assert(gives(rng, m, c));
    assert(exists|d: Result<Vec<u8>, String>| #[trigger]
        gives(rng, m, d) && relay_given(before, addr, frame, d, r));
}

/// The node with a recoder for a topic.
pub open spec fn with_recoder<A: WireAuthenticator>(
    mux: MuxView<A>,
    topic: Seq<u8>,
    entry: RecoderEntryView,
) -> MuxView<A> {
    MuxView {
        state: PubsubView { recoders: mux.state.recoders.insert(topic, entry), ..mux.state },
        ..mux
    }
}

/// A step that a relay made is one for some coefficients.
proof fn lemma_outcome_took_place<A: PubsubAuth, R: FnOnce(usize) -> Result<Vec<u8>, String>>(
    before: MuxView<A>,
    addr: UdpAddr,
    frame: PubsubFrameView,
    rng: R,
    r: Result<(PubsubMux<A>, MuxEvent, Vec<Outbound>), Failure>,
)
    requires
        before.state.gated(),
        before.state.recoders.dom().contains(frame.topic),
        relay_outcome(before, addr, frame, rng, r),
    ensures
        mux_step_view(r) matches Ok(after) ==> (RelayCall {
            before,
            addr,
            frame,
            after,
        }).took_place(),
{
    match before.state.wants(frame) {
        None => {
            assert(mux_step_view(r) == before.on_relay(addr, frame, unasked()));
        },
        Some(n) => {
            let c = choose|c: Result<Vec<u8>, String>| #[trigger]
                gives(rng, n, c) && relay_given(before, addr, frame, c, r);
            assert(mux_step_view(r) == before.on_relay(addr, frame, coefficients_view(c)));
        },
    }
}

/// The name of a topic.
pub(crate) fn topic_name(topic: &Topic) -> (text: String)
    ensures
        text@ == topic_text(topic@),
{
    let name = topic.as_str();
    proof {
        encode_utf8_decode_utf8(name@);
    }
    name.to_owned()
}

/// A random source for nodes that relay nothing: it fails when asked.
pub fn unused_relay_rng(n: usize) -> (r: Result<Vec<u8>, String>)
    ensures
        r matches Err(e) && e@
            == "random generation failed: relay rng was invoked but no relay was expected"@,
{
    Err(
        "random generation failed: relay rng was invoked but no relay was expected".to_owned(),
    )
}

impl<A: PubsubAuth> PubsubMux<A> {
    /// A node over a host, without topics.
    pub fn new(host: Host, auth: Arc<A>) -> (mux: Self)
        ensures
            mux@ == (MuxView {
                host: host@,
                state: PubsubView {
                    auth: *auth,
                    decoders: Map::empty(),
                    recoders: Map::empty(),
                    tick: 0,
                },
            }),
    {
        PubsubMux { host, state: PubsubState::new(auth) }
    }

    /// The host and the topics of the node.
    pub fn split(self) -> (r: (Host, PubsubState<A>))
        ensures
            self@ == (MuxView { host: r.0@, state: r.1@ }),
    {
        (self.host, self.state)
    }

    /// The node made of a host and topics.
    pub fn join(host: Host, state: PubsubState<A>) -> (mux: Self)
        ensures
            mux@ == (MuxView { host: host@, state: state@ }),
    {
        PubsubMux { host, state }
    }

    /// The host.
    pub fn host(&self) -> (host: &Host)
        ensures
            host@ == self@.host,
    {
        &self.host
    }

    /// The topics.
    pub fn state(&self) -> (state: &PubsubState<A>)
        ensures
            state@ == self@.state,
    {
        &self.state
    }

    /// The host alone.
    pub fn into_host(self) -> (host: Host)
        ensures
            host@ == self@.host,
    {
        self.host
    }

    /// The commitment to a generation.
    pub fn commit(&self, original: &OriginalData) -> (commitment: A::Commitment)
        ensures
            A::commitment_bytes(commitment) == self@.state.auth.commits(
                original_pieces(*original),
            ),
    {
        self.state.commit(original)
    }

    /// Whether `addr` has an established connection.
    pub fn is_established(&self, addr: UdpAddr) -> (r: bool)
        ensures
            r == self@.host.established.dom().contains(addr),
    {
        self.host.is_established(addr)
    }

    /// Begins a handshake with the peer at `addr`.
    pub fn dial(self, addr: UdpAddr, ephemeral_seed: [u8; 32]) -> (r: Result<
        (Self, Outbound),
        Error,
    >)
        ensures
            match r {
                Ok((mux, outbound)) => {
                    &&& self@.host.dial_error(addr) is None
                    &&& mux@ == (MuxView {
                        host: self@.host.dialed(addr, ephemeral_seed@),
                        ..self@
                    })
                    &&& outbound@ == (OutboundView {
                        addr,
                        datagram: self@.host.dial_message(ephemeral_seed@),
                    })
                },
                Err(e) => self@.host.dial_error(addr) == Some(e@),
            },
    {
        let PubsubMux { host, state } = self;
        match host.dial(addr, ephemeral_seed) {
            Ok((host, outbound)) => Ok((PubsubMux { host, state }, outbound)),
            Err(e) => Err(e),
        }
    }

    /// Registers a topic for decoding.
    pub fn register_topic(
        self,
        topic: Topic,
        piece_count: usize,
        piece_byte_len: usize,
        commitment: A::Commitment,
    ) -> (mux: Self)
        requires
            piece_count + piece_byte_len <= usize::MAX,
        ensures
            mux@ == (MuxView {
                state: self@.state.decoding(
                    topic@,
                    piece_count as nat,
                    piece_byte_len as nat,
                    A::commitment_bytes(commitment),
                ),
                ..self@
            }),
    {
        let PubsubMux { host, state } = self;
        PubsubMux {
            host,
            state: state.register_topic(topic, piece_count, piece_byte_len, commitment),
        }
    }

    /// Registers a topic for relaying.
    pub fn register_relay(
        self,
        topic: Topic,
        piece_count: usize,
        piece_byte_len: usize,
        commitment: A::Commitment,
    ) -> (mux: Self)
        requires
            piece_count + piece_byte_len <= usize::MAX,
        ensures
            mux@ == (MuxView {
                state: self@.state.relaying(
                    topic@,
                    piece_count as nat,
                    piece_byte_len as nat,
                    A::commitment_bytes(commitment),
                ),
                ..self@
            }),
    {
        let PubsubMux { host, state } = self;
        PubsubMux {
            host,
            state: state.register_relay(topic, piece_count, piece_byte_len, commitment),
        }
    }

    /// Drops the decoder of a topic.
    pub fn unregister_topic(self, topic: &Topic) -> (mux: Self)
        ensures
            mux@ == (MuxView {
                state: (PubsubView {
                    decoders: self@.state.decoders.remove(topic@),
                    ..self@.state
                }).ticked(),
                ..self@
            }),
    {
        let PubsubMux { host, state } = self;
        PubsubMux { host, state: state.unregister_topic(topic) }
    }

    /// Drops the recoder of a topic.
    pub fn unregister_relay(self, topic: &Topic) -> (mux: Self)
        ensures
            mux@ == (MuxView {
                state: (PubsubView {
                    recoders: self@.state.recoders.remove(topic@),
                    ..self@.state
                }).ticked(),
                ..self@
            }),
    {
        let PubsubMux { host, state } = self;
        PubsubMux { host, state: state.unregister_relay(topic) }
    }

    /// Drops idle decoders and lists their topics.
    pub fn evict_idle_topics(self, max_idle_ticks: u64) -> (r: (Self, Vec<Topic>))
        ensures
            r.0@ == (MuxView {
                state: (PubsubView {
                    decoders: kept(
                        self@.state.decoders,
                        decoder_activity(self@.state.decoders),
                        idle_cutoff(self@.state.tick, max_idle_ticks),
                    ),
                    ..self@.state
                }).ticked(),
                ..self@
            }),
            r.1@.map_values(|t: Topic| t@) == listing::<Topic>(
                self@.state.idle_decoders(max_idle_ticks),
            ),
            lists::<Topic>(
                listing::<Topic>(self@.state.idle_decoders(max_idle_ticks)),
                self@.state.idle_decoders(max_idle_ticks),
            ),
    {
        let PubsubMux { host, state } = self;
        let (state, evicted) = state.evict_idle_topics(max_idle_ticks);
        (PubsubMux { host, state }, evicted)
    }

    /// Drops idle recoders and lists their topics.
    pub fn evict_idle_relays(self, max_idle_ticks: u64) -> (r: (Self, Vec<Topic>))
        ensures
            r.0@ == (MuxView {
                state: (PubsubView {
                    recoders: kept(
                        self@.state.recoders,
                        recoder_activity(self@.state.recoders),
                        idle_cutoff(self@.state.tick, max_idle_ticks),
                    ),
                    ..self@.state
                }).ticked(),
                ..self@
            }),
            r.1@.map_values(|t: Topic| t@) == listing::<Topic>(
                self@.state.idle_recoders(max_idle_ticks),
            ),
            lists::<Topic>(
                listing::<Topic>(self@.state.idle_recoders(max_idle_ticks)),
                self@.state.idle_recoders(max_idle_ticks),
            ),
    {
        let PubsubMux { host, state } = self;
        let (state, evicted) = state.evict_idle_relays(max_idle_ticks);
        (PubsubMux { host, state }, evicted)
    }

    /// Sends raw application data to an established peer.
    pub fn send_app(self, addr: UdpAddr, payload: &[u8]) -> (r: Result<(Self, Outbound), Error>)
        ensures
            match r {
                Ok((mux, outbound)) => {
                    &&& self@.host.send_error(addr, of_kind(KIND_APP, payload@)) is None
                    &&& mux@ == (MuxView { host: self@.host.sent(addr), ..self@ })
                    &&& outbound@ == self@.host.send_datagram(addr, of_kind(KIND_APP, payload@))
                },
                Err(e) => self@.host.send_error(addr, of_kind(KIND_APP, payload@)) == Some(e@),
            },
    {
        let PubsubMux { host, state } = self;
        let framed = prefixed(KIND_APP, payload);
        match host.send(addr, framed.as_slice()) {
            Ok((host, outbound)) => Ok((PubsubMux { host, state }, outbound)),
            Err(e) => Err(e),
        }
    }
}

// -------------------------------------------------------------- receiving

/// The established peers but one.
fn other_addrs(host: &Host, exclude: UdpAddr) -> (addrs: Vec<UdpAddr>)
    ensures
        addrs@ == others(host@, exclude),
{
    let all = host.established_addrs();
    let mut addrs: Vec<UdpAddr> = Vec::new();
    let mut i: usize = 0;
    while i < all.len()
        invariant
            i <= all@.len(),
            addrs@ == without_addr(all@.take(i as int), exclude),
        decreases all@.len() - i,
    {
        proof {
            assert(all@.take(i + 1).drop_last() =~= all@.take(i as int));
            assert(all@.take(i + 1).last() == all@[i as int]);
        }
        if all[i] != exclude {
            addrs.push(all[i]);
        }
        i = i + 1;
    }
    assert(all@.take(i as int) =~= all@);
    addrs
}

/// A piece for a topic that the node decodes.
pub fn decoder_path<A: PubsubAuth>(
    host: Host,
    state: PubsubState<A>,
    addr: UdpAddr,
    topic: Topic,
    wire_piece: &WirePiece<A>,
) -> (r: (PubsubMux<A>, MuxEvent))
    ensures
        ({
            let before = MuxView { host: host@, state: state@ };
            let frame = PubsubFrameView::around(topic@, wire_piece@);
            let step = MuxStepView { mux: r.0@, event: r.1@, outbound: Seq::empty() };
            if state@.decoders.dom().contains(topic@) {
                step == before.on_decoder(addr, frame) && faithful(before, frame, r.0@, r.1@)
            } else {
                step == before.refuse(addr, vanished("decoder"@, topic@))
            }
        }),
{
    let ghost before = MuxView { host: host@, state: state@ };
    let ghost frame = PubsubFrameView::around(topic@, wire_piece@);
    let ghost t = topic@;
    let (state, taken) = state.take_decoder(&topic);
    let ghost rest = state@;
    let entry = match taken {
        Some(entry) => entry,
        None => {
            assert(rest.decoders =~= before.state.decoders);
            let name = topic_name(&topic);
            let reason = "decoder".to_owned().concat(" for topic ").concat(
                name.as_str(),
            ).concat(" vanished mid-dispatch");
            return (PubsubMux { host, state }, MuxEvent::Rejected { addr, reason });
        },
    };
    let ghost e0 = entry@;
    assert(rest.decoders.insert(t, e0) =~= before.state.decoders);
    let DecoderEntry { state: decoder, commitment, last_activity } = entry;
    let tick: u64 = state.tick();
    let verdict = state.auth().verify(&commitment, wire_piece.piece(), wire_piece.tag());
    match verdict {
        Err(e) => {
            let name = topic_name(&topic);
            let reason = "auth verify failed for topic ".to_owned().concat(
                name.as_str(),
            ).concat(": ").concat(e.as_str());
            let state = state.put_decoder(
                topic,
                DecoderEntry { state: decoder, commitment, last_activity },
                tick,
            );
            (PubsubMux { host, state }, MuxEvent::Rejected { addr, reason })
        },
        Ok(()) => match absorb_piece(&decoder, wire_piece.piece()) {
            Err(e) => {
                proof {
                    assert(rest.decoders.insert(t, e0).remove(t) =~= rest.decoders);
                }
                let reason = "absorb failed: ".to_owned().concat(e.as_str());
                (PubsubMux { host, state }, MuxEvent::Rejected { addr, reason })
            },
            Ok(next) => {
                let tick = next_tick(tick);
                let ghost advanced = decoder_view(next);
                if is_complete(&next) {
                    proof {
                        assert(rest.decoders.insert(t, e0).remove(t) =~= rest.decoders);
                    }
                    let state = state.at_tick(tick);
                    match decode_data(next) {
                        Ok(data) => {
                            proof {
                                assert forall|originals: Seq<Seq<u8>>|
                                    #[trigger] before.state.carries(t, originals)
                                        && frame.wire.piece.explained_by(
                                        originals,
                                    ) implies unpadded(joined(originals)) == Some(data@) by {
                                    assert(e0.state.explained_by(originals));
                                    assert(decoder_view(decoder).explained_by(originals));
                                    assert(advanced.explained_by(originals));
                                }
                            }
                            (
                                PubsubMux { host, state },
                                MuxEvent::PubsubDelivered { addr, topic, data },
                            )
                        },
                        Err(e) => {
                            proof {
                                assert forall|originals: Seq<Seq<u8>>|
                                    #[trigger] before.state.carries(t, originals)
                                        && frame.wire.piece.explained_by(
                                        originals,
                                    ) implies unpadded(joined(originals)) is None by {
                                    assert(e0.state.explained_by(originals));
                                    assert(decoder_view(decoder).explained_by(originals));
                                    assert(advanced.explained_by(originals));
                                }
                            }
                            let reason = "decode failed: ".to_owned().concat(e.as_str());
                            (PubsubMux { host, state }, MuxEvent::Rejected { addr, reason })
                        },
                    }
                } else {
                    let event_topic = topic.clone();
                    let next_entry = DecoderEntry {
                        state: next,
                        commitment,
                        last_activity: tick,
                    };
                    let ghost e1 = next_entry@;
                    let state = state.put_decoder(topic, next_entry, tick);
                    proof {
                        assert(rest.decoders.insert(t, e0).insert(t, e1)
                            =~= rest.decoders.insert(t, e1));
                        assert forall|originals: Seq<Seq<u8>>|
                            #[trigger] before.state.carries(t, originals)
                                && frame.wire.piece.explained_by(
                                originals,
                            ) implies state@.carries(t, originals) by {
                            assert(e0.state.explained_by(originals));
                            assert(decoder_view(decoder).explained_by(originals));
                            assert(advanced.explained_by(originals));
                        }
                    }
                    (
                        PubsubMux { host, state },
                        MuxEvent::PubsubAbsorbed { addr, topic: event_topic },
                    )
                }
            },
        },
    }
}

impl<A: PubsubAuth> PubsubMux<A> {
    /// A piece for a topic that is relayed; its recoder has been taken out.
    fn relay_piece<R: FnOnce(usize) -> Result<Vec<u8>, String>>(
        self,
        addr: UdpAddr,
        topic: Topic,
        entry: RecoderEntry<A>,
        wire_piece: &WirePiece<A>,
        relay_rng: R,
    ) -> (r: Result<(Self, MuxEvent, Vec<Outbound>), Failure>)
        requires
            entry@.gated(),
            forall|n: usize| #[trigger] relay_rng.requires((n,)),
        ensures
            ({
                let before = with_recoder(self@, topic@, entry@);
                let frame = PubsubFrameView::around(topic@, wire_piece@);
                &&& relay_outcome(before, addr, frame, relay_rng, r)
                &&& r matches Ok((mux, event, _)) ==> faithful(before, frame, mux@, event@)
            }),
    {
        let ghost before = with_recoder(self@, topic@, entry@);
        let ghost frame = PubsubFrameView::around(topic@, wire_piece@);
        let PubsubMux { host, state } = self;
        let ghost rest = state@;
        let ghost t = topic@;
        let ghost e0 = entry@;
        let RecoderEntry { recoder, rank_tracker, commitment, last_activity } = entry;
        let tick: u64 = state.tick();
        let verdict = state.auth().verify(&commitment, wire_piece.piece(), wire_piece.tag());
        match verdict {
            Err(e) => {
                let name = topic_name(&topic);
                let reason = "auth verify failed for topic ".to_owned().concat(
                    name.as_str(),
                ).concat(": ").concat(e.as_str());
                let state = state.put_recoder(
                    topic,
                    RecoderEntry { recoder, rank_tracker, commitment, last_activity },
                    tick,
                );
                let outbound: Vec<Outbound> = Vec::new();
                assert(outbounds_view(outbound@) =~= Seq::<OutboundView>::empty());
                return Ok((PubsubMux { host, state }, MuxEvent::Rejected { addr, reason }, outbound));
            },
            Ok(()) => {},
        }
        if is_complete(&rank_tracker) {
            return Ok(
                (PubsubMux { host, state }).redundant(
                    addr,
                    topic,
                    RecoderEntry { recoder, rank_tracker, commitment, last_activity },
                    Ghost(frame),
                ),
            );
        }
        let tracker = match absorb_piece(&rank_tracker, wire_piece.piece()) {
            Ok(tracker) => tracker,
            Err(e) => {
                let reason = "relay rank tracker absorb failed: ".to_owned().concat(e.as_str());
                let state = state.put_recoder(
                    topic,
                    RecoderEntry { recoder, rank_tracker, commitment, last_activity },
                    tick,
                );
                let outbound: Vec<Outbound> = Vec::new();
                assert(outbounds_view(outbound@) =~= Seq::<OutboundView>::empty());
                return Ok((PubsubMux { host, state }, MuxEvent::Rejected { addr, reason }, outbound));
            },
        };
        if useful_count(&tracker) == useful_count(&rank_tracker) {
            return Ok(
                (PubsubMux { host, state }).redundant(
                    addr,
                    topic,
                    RecoderEntry { recoder, rank_tracker, commitment, last_activity },
                    Ghost(frame),
                ),
            );
        }
        assert(before.state.relays(frame));
        let grown = match add_piece(&recoder, wire_piece.piece()) {
            Ok(grown) => grown,
            Err(e) => {
                assert(false);
                return Err(Failure::early(Error::RlncLayer { reason: e }));
            },
        };
        let n: usize = stored_count(&grown);
        proof {
            assert(recoder_view(grown).pieces =~= before.state.grown(frame).pieces);
            assert(before.state.wants(frame) == Some(n as nat));
        }
        let asked = relay_rng(n);
        let ghost c = asked;
        proof {
            assert(gives(relay_rng, n as nat, c));
        }
        proof {
            assert(before.on_relay(addr, frame, coefficients_view(c)) == match c {
                Ok(bytes) => before.on_fresh(addr, frame, bytes@),
                Err(reason) => Err(FailureView::early(ErrorView::RlncLayer(reason@))),
            });
        }
        let coefficients = match asked {
            Ok(coefficients) => coefficients,
            Err(e) => {
                let failure = Err(Failure::early(Error::RlncLayer { reason: e }));
                proof {
                    lemma_relay_outcome(before, addr, frame, relay_rng, n as nat, c, failure);
                }
                return failure;
            },
        };
        let recoded = match recode(&grown, &coefficients) {
            Ok(recoded) => recoded,
            Err(e) => {
                let failure = Err(Failure::early(Error::RlncLayer { reason: e }));
                proof {
                    lemma_relay_outcome(before, addr, frame, relay_rng, n as nat, c, failure);
                }
                return failure;
            },
        };
        let tag = state.auth().tag(&commitment, &recoded);
        let out_piece = WirePiece::<A>::new(A::copy_commitment(&commitment), recoded, tag);
        let piece_count: usize = wire_piece.piece().coding_vector.len();
        let piece_byte_len: usize = wire_piece.piece().data.len();
        proof {
            assert(out_piece@ == before.state.relay_frame(frame, coefficients@).wire);
            assert(faithful_relay(before, frame, coefficients@)) by {
                assert forall|originals: Seq<Seq<u8>>|
                    #[trigger] before.state.carries(t, originals)
                        && frame.wire.piece.explained_by(
                        originals,
                    ) implies before.state.relay_frame(
                    frame,
                    coefficients@,
                ).wire.piece.explained_by(originals) by {
                    assert(e0.recoder.explained_by(originals));
                    assert(recoder_view(grown).explained_by(originals));
                }
            }
        }
        let frame_bytes = match encode::<A>(&topic, piece_count, piece_byte_len, &out_piece) {
            Ok(bytes) => bytes,
            Err(e) => {
                let failure = Err(Failure::early(e));
                proof {
                    lemma_relay_outcome(before, addr, frame, relay_rng, n as nat, c, failure);
                }
                return failure;
            },
        };
        let plaintext = prefixed(KIND_PUBSUB, frame_bytes.as_slice());
        let addrs = other_addrs(&host, addr);
        let fanout_count: usize = addrs.len();
        match send_to_each(host, &addrs, plaintext.as_slice()) {
            Err(e) => {
                let failure = Err(e);
                proof {
                    lemma_relay_outcome(before, addr, frame, relay_rng, n as nat, c, failure);
                }
                failure
            },
            Ok((host, outbound)) => {
                let event_topic = topic.clone();
                let tick = next_tick(tick);
                let next_entry = RecoderEntry {
                    recoder: grown,
                    rank_tracker: tracker,
                    commitment,
                    last_activity: tick,
                };
                let ghost e1 = next_entry@;
                proof {
                    let piece = frame.wire.piece;
                    assert(e1.recoder.pieces =~= e0.recoder.pieces.push(piece));
                    assert(codings(e1.recoder.pieces) =~= codings(e0.recoder.pieces).push(
                        piece.coding,
                    ));
                }
                let state = state.put_recoder(topic, next_entry, tick);
                proof {
                    assert(rest.recoders.insert(t, e0).insert(t, e1) =~= rest.recoders.insert(
                        t,
                        e1,
                    ));
                    assert(e1.recoder == before.state.grown(frame));
                    assert(e1.tracker == e0.tracker.absorbed(frame.wire.piece));
                    assert forall|originals: Seq<Seq<u8>>|
                        #[trigger] before.state.carries(t, originals)
                            && frame.wire.piece.explained_by(originals) implies state@.carries(
                        t,
                        originals,
                    ) by {
                        assert(e0.recoder.explained_by(originals));
                    }
                }
                let done = Ok(
                    (
                        PubsubMux { host, state },
                        MuxEvent::PubsubRelayed { from: addr, topic: event_topic, fanout_count },
                        outbound,
                    ),
                );
                proof {
                    lemma_relay_outcome(before, addr, frame, relay_rng, n as nat, c, done);
                }
                done
            },
        }
    }

    /// A genuine piece that tells a relay nothing new: the recoder is put back
    /// and counts as touched.
    fn redundant(
        self,
        addr: UdpAddr,
        topic: Topic,
        entry: RecoderEntry<A>,
        Ghost(frame): Ghost<PubsubFrameView>,
    ) -> (r: (Self, MuxEvent, Vec<Outbound>))
        requires
            frame.topic == topic@,
            entry@.gated(),
        ensures
            ({
                let before = with_recoder(self@, topic@, entry@);
                &&& (MuxStepView { mux: r.0@, event: r.1@, outbound: outbounds_view(r.2@) })
                    == before.quiet(
                    before.state.recoder_touched(topic@),
                    MuxEventView::PubsubRedundant { addr, topic: topic@ },
                )
                &&& faithful(before, frame, r.0@, r.1@)
            }),
    {
        let PubsubMux { host, state } = self;
        let ghost rest = state@;
        let ghost t = topic@;
        let ghost e0 = entry@;
        let tick = next_tick(state.tick());
        let RecoderEntry { recoder, rank_tracker, commitment, last_activity } = entry;
        let next_entry = RecoderEntry { recoder, rank_tracker, commitment, last_activity: tick };
        let ghost e1 = next_entry@;
        let event_topic = topic.clone();
        let state = state.put_recoder(topic, next_entry, tick);
        proof {
            assert(rest.recoders.insert(t, e0).insert(t, e1) =~= rest.recoders.insert(t, e1));
        }
        let outbound: Vec<Outbound> = Vec::new();
        assert(outbounds_view(outbound@) =~= Seq::<OutboundView>::empty());
        (
            PubsubMux { host, state },
            MuxEvent::PubsubRedundant { addr, topic: event_topic },
            outbound,
        )
    }
}

/// A piece for a topic that the node relays. `relay_rng` is asked at most once,
/// for the coefficients of the combination that goes out.
pub fn relay_path<A: PubsubAuth, R: FnOnce(usize) -> Result<Vec<u8>, String>>(
    host: Host,
    state: PubsubState<A>,
    addr: UdpAddr,
    topic: Topic,
    wire_piece: &WirePiece<A>,
    relay_rng: R,
) -> (r: Result<(PubsubMux<A>, MuxEvent, Vec<Outbound>), Failure>)
    requires
        forall|n: usize| #[trigger] relay_rng.requires((n,)),
    ensures
        ({
            let before = MuxView { host: host@, state: state@ };
            let frame = PubsubFrameView::around(topic@, wire_piece@);
            if state@.recoders.dom().contains(topic@) {
                &&& relay_outcome(before, addr, frame, relay_rng, r)
                &&& r matches Ok((mux, event, outbound)) ==> {
                    let after = MuxStepView {
                        mux: mux@,
                        event: event@,
                        outbound: outbounds_view(outbound@),
                    };
                    &&& faithful(before, frame, mux@, event@)
                    &&& (RelayCall { before, addr, frame, after }).took_place()
                }
            } else {
                mux_step_view(r) == Ok::<MuxStepView<A>, FailureView>(
                    before.refuse(addr, vanished("recoder"@, topic@)),
                )
            }
        }),
{
    let ghost before = MuxView { host: host@, state: state@ };
    let ghost frame = PubsubFrameView::around(topic@, wire_piece@);
    let (state, taken) = state.take_recoder(&topic);
    match taken {
        None => {
            assert(state@.recoders =~= before.state.recoders);
            let name = topic_name(&topic);
            let reason = "recoder".to_owned().concat(" for topic ").concat(
                name.as_str(),
            ).concat(" vanished mid-dispatch");
            let outbound: Vec<Outbound> = Vec::new();
            assert(outbounds_view(outbound@) =~= Seq::<OutboundView>::empty());
            Ok((PubsubMux { host, state }, MuxEvent::Rejected { addr, reason }, outbound))
        },
        Some(entry) => {
            let rest = PubsubMux { host, state };
            assert(rest@.state.recoders.insert(topic@, entry@) =~= before.state.recoders);
            let r = rest.relay_piece(addr, topic, entry, wire_piece, relay_rng);
            proof {
                lemma_outcome_took_place(before, addr, frame, relay_rng, r);
            }
            r
        },
    }
}

/// What a plaintext does, whatever the random source gives: nothing depends on
/// the source unless the plaintext makes the node relay.
pub open spec fn plaintext_outcome<A: PubsubAuth, R: FnOnce(usize) -> Result<Vec<u8>, String>>(
    before: MuxView<A>,
    addr: UdpAddr,
    plaintext: Seq<u8>,
    rng: R,
    r: Result<(PubsubMux<A>, MuxEvent, Vec<Outbound>), Failure>,
) -> bool {
    match before.wants(plaintext) {
        None => mux_step_view(r) == before.on_plaintext(addr, plaintext, unasked()),
        Some(n) => exists|c: Result<Vec<u8>, String>| #[trigger]
            gives(rng, n, c) && plaintext_given(before, addr, plaintext, c, r),
    }
}

/// What a plaintext does once the random source gave `c`.
pub open spec fn plaintext_given<A: PubsubAuth>(
    before: MuxView<A>,
    addr: UdpAddr,
    plaintext: Seq<u8>,
    c: Result<Vec<u8>, String>,
    r: Result<(PubsubMux<A>, MuxEvent, Vec<Outbound>), Failure>,
) -> bool {
    &&& mux_step_view(r) == before.on_plaintext(addr, plaintext, coefficients_view(c))
    &&& r is Ok ==> c is Ok && faithful_relay(
        before,
        frame_in::<A>(plaintext)->Some_0,
        c->Ok_0@,
    )
}

/// A relayed plaintext is a relayed frame.
proof fn lemma_plaintext_outcome<A: PubsubAuth, R: FnOnce(usize) -> Result<Vec<u8>, String>>(
    before: MuxView<A>,
    addr: UdpAddr,
    plaintext: Seq<u8>,
    frame: PubsubFrameView,
    rng: R,
    r: Result<(PubsubMux<A>, MuxEvent, Vec<Outbound>), Failure>,
)
    requires
        frame_in::<A>(plaintext) == Some(frame),
        before.state.recoders.dom().contains(frame.topic),
        relay_outcome(before, addr, frame, rng, r),
    ensures
        plaintext_outcome(before, addr, plaintext, rng, r),
{
    match before.state.wants(frame) {
        None => {},
        Some(n) => {
            let c = choose|c: Result<Vec<u8>, String>| #[trigger]
                gives(rng, n, c) && relay_given(before, addr, frame, c, r);
            assert(gives(rng, n, c) && plaintext_given(before, addr, plaintext, c, r));
        },
    }
}

/// A plaintext with a frame for a topic that the node relays is a call of the relay,
/// to which the laws on runs of such calls apply.
pub proof fn relayed_plaintexts_are_relay_calls<
    A: PubsubAuth,
    R: FnOnce(usize) -> Result<Vec<u8>, String>,
>(
    before: MuxView<A>,
    addr: UdpAddr,
    plaintext: Seq<u8>,
    frame: PubsubFrameView,
    rng: R,
    r: Result<(PubsubMux<A>, MuxEvent, Vec<Outbound>), Failure>,
)
    requires
        before.state.gated(),
        frame_in::<A>(plaintext) == Some(frame),
        before.state.recoders.dom().contains(frame.topic),
        plaintext_outcome(before, addr, plaintext, rng, r),
    ensures
        mux_step_view(r) matches Ok(after) ==> (RelayCall {
            before,
            addr,
            frame,
            after,
        }).took_place(),
{
    match before.state.wants(frame) {
        None => {
            assert(mux_step_view(r) == before.on_relay(addr, frame, unasked()));
        },
        Some(n) => {
            let c = choose|c: Result<Vec<u8>, String>| #[trigger]
                gives(rng, n, c) && plaintext_given(before, addr, plaintext, c, r);
            assert(mux_step_view(r) == before.on_relay(addr, frame, coefficients_view(c)));
        },
    }
}

impl<A: PubsubAuth> PubsubMux<A> {
    /// Processes one decrypted plaintext that came from `addr`: its first byte
    /// says whether it is application data or a pubsub frame. `relay_rng` is
    /// asked at most once, for the coefficients of a piece to relay. Fails only
    /// where such a piece cannot be made or sent.
    pub fn process_plaintext<R: FnOnce(usize) -> Result<Vec<u8>, String>>(
        self,
        addr: UdpAddr,
        plaintext: &[u8],
        relay_rng: R,
    ) -> (r: Result<(Self, MuxEvent, Vec<Outbound>), Failure>)
        requires
            forall|n: usize| #[trigger] relay_rng.requires((n,)),
        ensures
            plaintext_outcome(self@, addr, plaintext@, relay_rng, r),
            r matches Ok((mux, event, _)) ==> (frame_in::<A>(plaintext@) matches Some(frame)
                ==> faithful(self@, frame, mux@, event@)),
    {
        let ghost before = self@;
        let outbound: Vec<Outbound> = Vec::new();
        assert(outbounds_view(outbound@) =~= Seq::<OutboundView>::empty());
        if plaintext.len() == 0 {
            let reason = "datagram plaintext was empty (no kind byte)".to_owned();
            return Ok((self, MuxEvent::Rejected { addr, reason }, outbound));
        }
        let kind: u8 = plaintext[0];
        let body = slice_subrange(plaintext, 1, plaintext.len());
        assert(body@ =~= plaintext@.skip(1));
        if kind == KIND_APP {
            let bytes = copy_range(plaintext, 1, plaintext.len());
            return Ok((self, MuxEvent::AppData { addr, bytes }, outbound));
        }
        if kind != KIND_PUBSUB {
            let digits = hex_byte_text(kind);
            let reason = "unknown plaintext kind byte 0x".to_owned().concat(digits.as_str());
            return Ok((self, MuxEvent::Rejected { addr, reason }, outbound));
        }
        let (frame, wire_piece) = match decode::<A>(body) {
            Ok(pair) => pair,
            Err(e) => {
                let text = e.describe();
                let reason = "pubsub frame decode failed: ".to_owned().concat(text.as_str());
                return Ok((self, MuxEvent::Rejected { addr, reason }, outbound));
            },
        };
        let ghost fv = PubsubFrameView {
            topic: frame.topic@,
            k: frame.piece_count as nat,
            b: frame.piece_byte_len as nat,
            wire: wire_piece@,
        };
        assert(frame_in::<A>(plaintext@) == Some(fv));
        let topic = frame.topic;
        assert(fv == PubsubFrameView::around(fv.topic, fv.wire));
        let PubsubMux { host, state } = self;
        if state.is_relay_registered(&topic) {
            let r = relay_path(host, state, addr, topic, &wire_piece, relay_rng);
            proof {
                lemma_plaintext_outcome(before, addr, plaintext@, fv, relay_rng, r);
            }
            return r;
        }
        if state.is_decoder_registered(&topic) {
            let (mux, event) = decoder_path(host, state, addr, topic, &wire_piece);
            return Ok((mux, event, outbound));
        }
        let name = topic_name(&topic);
        let reason = "frame received for unregistered topic ".to_owned().concat(name.as_str());
        Ok((PubsubMux { host, state }, MuxEvent::Rejected { addr, reason }, outbound))
    }

    /// Processes one datagram that arrived from `from`. `ephemeral_seed` is as
    /// for the host, `relay_rng` as for [`PubsubMux::process_plaintext`].
    pub fn recv_one<R: FnOnce(usize) -> Result<Vec<u8>, String>>(
        self,
        from: UdpAddr,
        datagram: &[u8],
        ephemeral_seed: [u8; 32],
        relay_rng: R,
    ) -> (r: Result<(Self, MuxEvent, Vec<Outbound>), Failure>)
        requires
            forall|n: usize| #[trigger] relay_rng.requires((n,)),
        ensures
            ({
                let s = self@.host.step(from, datagram@, ephemeral_seed@);
                let node = MuxView { host: s.host, ..self@ };
                match s.event {
                    HostEventView::DatagramDelivered { addr, plaintext } => {
                        &&& plaintext_outcome(node, addr, plaintext, relay_rng, r)
                        &&& r matches Ok((mux, event, _)) ==> (frame_in::<A>(
                            plaintext,
                        ) matches Some(frame) ==> faithful(node, frame, mux@, event@))
                    },
                    _ => mux_step_view(r) == node.on_host_event(s.event, s.outbound, unasked()),
                }
            }),
    {
        let PubsubMux { host, state } = self;
        let (host, event, sent) = host.recv_one(from, datagram, ephemeral_seed);
        let mut outbound: Vec<Outbound> = Vec::new();
        if let Some(o) = sent {
            outbound.push(o);
            assert(outbounds_view(outbound@) =~= seq![o@]);
        } else {
            assert(outbounds_view(outbound@) =~= Seq::<OutboundView>::empty());
        }
        let mux = PubsubMux { host, state };
        match event {
            HostEvent::HandshakeProgress { addr } => Ok(
                (mux, MuxEvent::HandshakeProgress { addr }, outbound),
            ),
            HostEvent::HandshakeComplete { addr, remote_static, remote_peer_id } => Ok(
                (mux, MuxEvent::HandshakeComplete { addr, remote_static, remote_peer_id }, outbound),
            ),
            HostEvent::Rejected { addr, reason } => Ok(
                (mux, MuxEvent::Rejected { addr, reason }, outbound),
            ),
            HostEvent::DatagramDelivered { addr, plaintext } => mux.process_plaintext(
                addr,
                plaintext.as_slice(),
                relay_rng,
            ),
        }
    }
}

impl<A: PubsubAuth> PubsubMux<A> {
    /// Processes one decrypted plaintext with the given coefficients, or the
    /// reason why there are none.
    pub fn process_plaintext_with(
        self,
        addr: UdpAddr,
        plaintext: &[u8],
        coefficients: Result<Vec<u8>, String>,
    ) -> (r: Result<(Self, MuxEvent, Vec<Outbound>), Failure>)
        ensures
            mux_step_view(r) == self@.on_plaintext(
                addr,
                plaintext@,
                coefficients_view(coefficients),
            ),
    {
        let ghost before = self@;
        let ghost given = coefficients;
        let source = move |n: usize| -> (c: Result<Vec<u8>, String>)
            ensures
                c == coefficients,
            { coefficients };
        let r = self.process_plaintext(addr, plaintext, source);
        proof {
            match before.wants(plaintext@) {
                None => {},
                Some(n) => {
                    let c = choose|c: Result<Vec<u8>, String>| #[trigger]
                        gives(source, n, c) && plaintext_given(before, addr, plaintext@, c, r);
                    assert(gives(source, n, c));
                    assert(c == given);
                },
            }
        }
        r
    }
}

// ----------------------------------------------------------- broadcasting

/// A piece of a generation with the given coefficients.
pub open spec fn coded(originals: Seq<Seq<u8>>, coefficients: Seq<u8>) -> PieceView {
    PieceView { coding: coefficients, data: gf_combine(coefficients, originals) }
}

/// Whether a random source may give the coefficients of a piece.
pub open spec fn drawn<F: Fn(usize) -> Result<Vec<u8>, String>>(
    rng: F,
    originals: Seq<Seq<u8>>,
    piece: PieceView,
) -> bool {
    exists|v: Vec<u8>|
        #![trigger coded(originals, v@)]
        rng.ensures((originals.len() as usize,), Ok(v)) && v@.len() == originals.len() && piece
            == coded(originals, v@)
}

/// Why no piece may come of a random source: it failed, or it gave the wrong
/// number of coefficients.
pub open spec fn drawing_fails<F: Fn(usize) -> Result<Vec<u8>, String>>(
    rng: F,
    originals: Seq<Seq<u8>>,
    e: ErrorView,
) -> bool {
    exists|c: Result<Vec<u8>, String>| #[trigger]
        rng.ensures((originals.len() as usize,), c) && match c {
            Err(reason) => e == ErrorView::RlncLayer(reason@),
            Ok(v) => v@.len() != originals.len() && e == ErrorView::RlncLayer(
                "coding vector length mismatch: expected "@ + decimal(originals.len()) + ", got "@
                    + decimal(v@.len()),
            ),
        }
}

impl<A: WireAuthenticator> PubsubView<A> {
    /// The frame of a piece of a generation.
    pub open spec fn source_frame(
        self,
        topic: Seq<u8>,
        originals: Seq<Seq<u8>>,
        piece: PieceView,
    ) -> PubsubFrameView {
        let commitment = self.auth.commits(originals);
        PubsubFrameView {
            topic,
            k: originals.len(),
            b: originals[0].len(),
            wire: WirePieceView { commitment, piece, tag: self.auth.tags(commitment, piece) },
        }
    }
}

/// The host after the first `n` frames went to every peer and the datagrams to
/// send, or the first failure and the datagrams before it.
pub open spec fn frames_sent(host: HostView, addrs: Seq<UdpAddr>, frames: Seq<Seq<u8>>, n: nat) -> Result<
    (HostView, Seq<OutboundView>),
    FailureView,
>
    decreases n,
{
    if n == 0 {
        Ok((host, Seq::empty()))
    } else {
        match frames_sent(host, addrs, frames, (n - 1) as nat) {
            Err(e) => Err(e),
            Ok((h, out)) => match sent_to_each(
                h,
                addrs,
                of_kind(KIND_PUBSUB, frames[n - 1]),
                addrs.len(),
            ) {
                Err(e) => Err(e.behind(out)),
                Ok((h2, more)) => Ok((h2, out + more)),
            },
        }
    }
}

/// Once a frame has failed all fail.
proof fn lemma_frames_fail(
    host: HostView,
    addrs: Seq<UdpAddr>,
    frames: Seq<Seq<u8>>,
    i: nat,
    n: nat,
)
    requires
        i <= n,
        frames_sent(host, addrs, frames, i) is Err,
    ensures
        frames_sent(host, addrs, frames, n) == frames_sent(host, addrs, frames, i),
    decreases n,
{
    if i < n {
        lemma_frames_fail(host, addrs, frames, i, (n - 1) as nat);
    }
}

impl<A: WireAuthenticator> MuxView<A> {
    /// What broadcasting given pieces of a generation does.
    pub open spec fn broadcast_pieces(
        self,
        topic: Seq<u8>,
        originals: Seq<Seq<u8>>,
        pieces: Seq<PieceView>,
    ) -> Result<(MuxView<A>, Seq<OutboundView>), FailureView> {
        let shape = self.state.source_frame(topic, originals, PieceView {
            coding: Seq::empty(),
            data: Seq::empty(),
        });
        match shape.shape_error() {
            Some(e) if pieces.len() > 0 => Err(FailureView::early(e)),
            _ => {
                let frames = pieces.map_values(
                    |p: PieceView| self.state.source_frame(topic, originals, p).bytes(),
                );
                let addrs = listing::<UdpAddr>(self.host.established.dom());
                match frames_sent(self.host, addrs, frames, frames.len()) {
                    Err(e) => Err(e),
                    Ok((host, out)) => Ok((MuxView { host, ..self }, out)),
                }
            },
        }
    }
}

/// Makes `num_pieces` pieces of a generation from a random source.
pub(crate) fn draw_pieces<F: Fn(usize) -> Result<Vec<u8>, String>>(
    data: &OriginalData,
    num_pieces: usize,
    rng_factory: &F,
) -> (r: Result<Vec<CodedPiece>, Error>)
    requires
        forall|n: usize| #[trigger] rng_factory.requires((n,)),
    ensures
        match r {
            Ok(pieces) => pieces@.len() == num_pieces && forall|i: int|
                0 <= i < pieces@.len() ==> drawn(
                    *rng_factory,
                    original_pieces(*data),
                    (#[trigger] pieces@[i])@,
                ),
            Err(e) => num_pieces > 0 && drawing_fails(*rng_factory, original_pieces(*data), e@),
        },
{
    let (k, _) = original_shape(data);
    let ghost originals = original_pieces(*data);
    let mut pieces: Vec<CodedPiece> = Vec::new();
    let mut i: usize = 0;
    while i < num_pieces
        invariant
            i <= num_pieces,
            pieces@.len() == i,
            k == originals.len(),
            originals == original_pieces(*data),
            forall|n: usize| #[trigger] rng_factory.requires((n,)),
            forall|j: int|
                0 <= j < pieces@.len() ==> drawn(*rng_factory, originals, (#[trigger] pieces@[j])@),
        decreases num_pieces - i,
    {
        let given = rng_factory(k);
        let ghost c = given;
        let coefficients = match given {
            Ok(coefficients) => coefficients,
            Err(reason) => {
                assert(rng_factory.ensures((originals.len() as usize,), c));
                return Err(Error::RlncLayer { reason });
            },
        };
        match encode_piece(data, &coefficients) {
            Ok(piece) => {
                assert(piece@ == coded(originals, coefficients@));
                assert(drawn(*rng_factory, originals, piece@));
                pieces.push(piece);
            },
            Err(reason) => {
                assert(rng_factory.ensures((originals.len() as usize,), c));
                return Err(Error::RlncLayer { reason });
            },
        }
        i = i + 1;
    }
    Ok(pieces)
}

impl<A: PubsubAuth> PubsubMux<A> {
    /// Tags, frames and sends given pieces of a generation to every established
    /// peer.
    fn send_pieces(self, topic: &Topic, data: &OriginalData, pieces: Vec<CodedPiece>) -> (r: Result<
        (Self, A::Commitment, Vec<Outbound>),
        Failure,
    >)
        ensures
            match r {
                Ok((mux, commitment, outbound)) => {
                    &&& A::commitment_bytes(commitment) == self@.state.auth.commits(
                        original_pieces(*data),
                    )
                    &&& self@.broadcast_pieces(
                        topic@,
                        original_pieces(*data),
                        pieces@.map_values(|p: CodedPiece| p@),
                    ) == Ok::<(MuxView<A>, Seq<OutboundView>), FailureView>(
                        (mux@, outbounds_view(outbound@)),
                    )
                },
                Err(e) => self@.broadcast_pieces(
                    topic@,
                    original_pieces(*data),
                    pieces@.map_values(|p: CodedPiece| p@),
                ) == Err::<(MuxView<A>, Seq<OutboundView>), FailureView>(e@),
            },
    {
        let ghost before = self@;
        let ghost originals = original_pieces(*data);
        let (k, b) = original_shape(data);
        let PubsubMux { host, state } = self;
        let commitment = state.commit(data);
        let ghost all = pieces@.map_values(|p: CodedPiece| p@);
        let ghost frame_of = |p: PieceView| before.state.source_frame(topic@, originals, p).bytes();
        let ghost wanted = all.map_values(frame_of);
        let total: usize = pieces.len();
        let mut frames: Vec<Vec<u8>> = Vec::new();
        let mut rest = pieces;
        let ghost given = pieces@;
        let mut i: usize = 0;
        while i < total
            invariant
                i <= total == given.len(),
                given == pieces@,
                before == self@,
                rest@ == given.skip(i as int),
                frames@.len() == i,
                originals == original_pieces(*data),
                k == originals.len(),
                b == originals[0].len(),
                k >= 1,
                state@ == before.state,
                A::commitment_bytes(commitment) == before.state.auth.commits(originals),
                all == given.map_values(|p: CodedPiece| p@),
                forall|j: int|
                    0 <= j < i ==> (#[trigger] frames@[j])@ == before.state.source_frame(
                        topic@,
                        originals,
                        all[j],
                    ).bytes(),
                i > 0 ==> before.state.source_frame(
                    topic@,
                    originals,
                    PieceView { coding: Seq::empty(), data: Seq::empty() },
                ).shape_error() is None,
            decreases total - i,
        {
            let piece = rest.remove(0);
            assert(piece == given[i as int]);
            assert(rest@ =~= given.skip(i + 1));
            let tag = state.auth().tag(&commitment, &piece);
            let wire = WirePiece::<A>::new(A::copy_commitment(&commitment), piece, tag);
            assert(all[i as int] == piece@);
            match encode::<A>(topic, k, b, &wire) {
                Ok(bytes) => {
                    frames.push(bytes);
                },
                Err(e) => {
                    return Err(Failure::early(e));
                },
            }
            i = i + 1;
        }
        let ghost sent = frames@.map_values(|f: Vec<u8>| f@);
        proof {
            assert(sent =~= wanted);
        }
        let addrs = host.established_addrs();
        let ghost start = host@;
        let mut next = host;
        let mut outbound: Vec<Outbound> = Vec::new();
        let mut j: usize = 0;
        assert(outbounds_view(outbound@) =~= Seq::<OutboundView>::empty());
        while j < frames.len()
            invariant
                j <= frames@.len(),
                sent == frames@.map_values(|f: Vec<u8>| f@),
                frames_sent(start, addrs@, sent, j as nat) == Ok::<
                    (HostView, Seq<OutboundView>),
                    FailureView,
                >((next@, outbounds_view(outbound@))),
                frames@.len() > 0 ==> before.state.source_frame(
                    topic@,
                    originals,
                    PieceView { coding: Seq::empty(), data: Seq::empty() },
                ).shape_error() is None,
                addrs@ == listing::<UdpAddr>(before.host.established.dom()),
                start == before.host,
                before == self@,
                sent == wanted,
                all.len() == frames@.len(),
                all == pieces@.map_values(|p: CodedPiece| p@),
                originals == original_pieces(*data),
                wanted == all.map_values(frame_of),
                frame_of == (|p: PieceView|
                    before.state.source_frame(topic@, originals, p).bytes()),
            decreases frames@.len() - j,
        {
            let plaintext = prefixed(KIND_PUBSUB, frames[j].as_slice());
            let ghost before_out = outbound@;
            let ghost h = next@;
            assert(sent[j as int] == frames@[j as int]@);
            match send_to_each(next, &addrs, plaintext.as_slice()) {
                Err(failure) => {
                    let failure = failure.behind(outbound);
                    proof {
                        assert(frames_sent(start, addrs@, sent, (j + 1) as nat) == Err::<
                            (HostView, Seq<OutboundView>),
                            FailureView,
                        >(failure@));
                        lemma_frames_fail(start, addrs@, sent, (j + 1) as nat, sent.len());
                    }
                    return Err(failure);
                },
                Ok((stepped, more)) => {
                    let mut more = more;
                    let ghost added = more@;
                    outbound.append(&mut more);
                    assert(outbounds_view(outbound@) =~= outbounds_view(before_out)
                        + outbounds_view(added));
                    next = stepped;
                },
            }
            j = j + 1;
        }
        Ok((PubsubMux { host: next, state }, commitment, outbound))
    }

    /// Broadcasts a generation on a topic: `num_pieces` pieces with coefficients
    /// from `rng_factory` are tagged, framed and sent to every established peer.
    /// Hands out the commitment to the generation.
    pub fn broadcast<F: Fn(usize) -> Result<Vec<u8>, String>>(
        self,
        topic: Topic,
        data: OriginalData,
        num_pieces: usize,
        rng_factory: F,
    ) -> (r: Result<(Self, A::Commitment, Vec<Outbound>), Failure>)
        requires
            forall|n: usize| #[trigger] rng_factory.requires((n,)),
        ensures
            match r {
                Ok((mux, commitment, outbound)) => {
                    &&& A::commitment_bytes(commitment) == self@.state.auth.commits(
                        original_pieces(data),
                    )
                    &&& exists|pieces: Seq<PieceView>|
                        {
                            &&& pieces.len() == num_pieces
                            &&& forall|i: int|
                                0 <= i < pieces.len() ==> drawn(
                                    rng_factory,
                                    original_pieces(data),
                                    #[trigger] pieces[i],
                                )
                            &&& #[trigger] self@.broadcast_pieces(
                                topic@,
                                original_pieces(data),
                                pieces,
                            ) == Ok::<(MuxView<A>, Seq<OutboundView>), FailureView>(
                                (mux@, outbounds_view(outbound@)),
                            )
                        }
                },
                Err(e) => (num_pieces > 0 && e@.outbound.len() == 0 && drawing_fails(
                    rng_factory,
                    original_pieces(data),
                    e@.error,
                )) || exists|
                    pieces: Seq<PieceView>,
                |
                    {
                        &&& pieces.len() == num_pieces
                        &&& forall|i: int|
                            0 <= i < pieces.len() ==> drawn(
                                rng_factory,
                                original_pieces(data),
                                #[trigger] pieces[i],
                            )
                        &&& #[trigger] self@.broadcast_pieces(
                            topic@,
                            original_pieces(data),
                            pieces,
                        ) == Err::<(MuxView<A>, Seq<OutboundView>), FailureView>(e@)
                    },
            },
    {
        let ghost before = self@;
        let pieces = match draw_pieces(&data, num_pieces, &rng_factory) {
            Ok(pieces) => pieces,
            Err(e) => {
                return Err(Failure::early(e));
            },
        };
        let ghost views = pieces@.map_values(|p: CodedPiece| p@);
        proof {
            assert forall|i: int| 0 <= i < views.len() implies drawn(
                rng_factory,
                original_pieces(data),
                #[trigger] views[i],
            ) by {
                assert(views[i] == pieces@[i]@);
            }
        }
        self.send_pieces(&topic, &data, pieces)
    }
}

/// Why given coefficient vectors make no pieces, if they make none: the first of
/// the wrong length.
pub open spec fn vectors_error(vectors: Seq<Seq<u8>>, k: nat) -> Option<ErrorView>
    decreases vectors.len(),
{
    if vectors.len() == 0 {
        None
    } else {
        match vectors_error(vectors.drop_last(), k) {
            Some(e) => Some(e),
            None => if vectors.last().len() != k {
                Some(
                    ErrorView::RlncLayer(
                        "coding vector length mismatch: expected "@ + decimal(k) + ", got "@
                            + decimal(vectors.last().len()),
                    ),
                )
            } else {
                None
            },
        }
    }
}

/// Once a vector is wrong the list is.
proof fn lemma_vectors_error(vectors: Seq<Seq<u8>>, k: nat, i: int)
    requires
        0 <= i <= vectors.len(),
        vectors_error(vectors.take(i), k) is Some,
    ensures
        vectors_error(vectors, k) == vectors_error(vectors.take(i), k),
    decreases vectors.len() - i,
{
    if i < vectors.len() {
        assert(vectors.take(i + 1).drop_last() =~= vectors.take(i));
        lemma_vectors_error(vectors, k, i + 1);
    } else {
        assert(vectors.take(i) =~= vectors);
    }
}

/// Makes the pieces of a generation with the given coefficients.
pub(crate) fn make_pieces(data: &OriginalData, vectors: &Vec<Vec<u8>>) -> (r: Result<
    Vec<CodedPiece>,
    Error,
>)
    ensures
        ({
            let originals = original_pieces(*data);
            let given = vectors@.map_values(|v: Vec<u8>| v@);
            match r {
                Ok(pieces) => vectors_error(given, originals.len()) is None && pieces@.map_values(
                    |p: CodedPiece| p@,
                ) == given.map_values(|v: Seq<u8>| coded(originals, v)),
                Err(e) => vectors_error(given, originals.len()) == Some(e@),
            }
        }),
{
    let ghost originals = original_pieces(*data);
    let ghost given = vectors@.map_values(|v: Vec<u8>| v@);
    let ghost wanted = given.map_values(|v: Seq<u8>| coded(originals, v));
    let mut pieces: Vec<CodedPiece> = Vec::new();
    let mut i: usize = 0;
    assert(given.take(0) =~= Seq::<Seq<u8>>::empty());
    while i < vectors.len()
        invariant
            i <= vectors@.len(),
            pieces@.len() == i,
            originals == original_pieces(*data),
            given == vectors@.map_values(|v: Vec<u8>| v@),
            vectors_error(given.take(i as int), originals.len()) is None,
            forall|j: int|
                0 <= j < i ==> (#[trigger] pieces@[j])@ == coded(originals, given[j]),
        decreases vectors@.len() - i,
    {
        proof {
            assert(given.take(i + 1).drop_last() =~= given.take(i as int));
            assert(given.take(i + 1).last() == vectors@[i as int]@);
        }
        match encode_piece(data, &vectors[i]) {
            Ok(piece) => {
                pieces.push(piece);
            },
            Err(reason) => {
                proof {
                    lemma_vectors_error(given, originals.len(), i + 1);
                }
                return Err(Error::RlncLayer { reason });
            },
        }
        i = i + 1;
    }
    proof {
        assert(given.take(i as int) =~= given);
        assert(pieces@.map_values(|p: CodedPiece| p@) =~= wanted);
    }
    Ok(pieces)
}

impl<A: PubsubAuth> PubsubMux<A> {
    /// Broadcasts a generation on a topic with the given coefficients, one
    /// vector for each piece.
    pub fn broadcast_with(self, topic: Topic, data: OriginalData, vectors: &Vec<Vec<u8>>) -> (r:
        Result<(Self, A::Commitment, Vec<Outbound>), Failure>)
        ensures
            ({
                let originals = original_pieces(data);
                let given = vectors@.map_values(|v: Vec<u8>| v@);
                let pieces = given.map_values(|v: Seq<u8>| coded(originals, v));
                match r {
                    Ok((mux, commitment, outbound)) => {
                        &&& vectors_error(given, originals.len()) is None
                        &&& A::commitment_bytes(commitment) == self@.state.auth.commits(originals)
                        &&& self@.broadcast_pieces(topic@, originals, pieces) == Ok::<
                            (MuxView<A>, Seq<OutboundView>),
                            FailureView,
                        >((mux@, outbounds_view(outbound@)))
                    },
                    Err(e) => match vectors_error(given, originals.len()) {
                        Some(bad) => e@ == FailureView::early(bad),
                        None => self@.broadcast_pieces(topic@, originals, pieces) == Err::<
                            (MuxView<A>, Seq<OutboundView>),
                            FailureView,
                        >(e@),
                    },
                }
            }),
    {
        match make_pieces(&data, vectors) {
            Err(e) => Err(Failure::early(e)),
            Ok(pieces) => self.send_pieces(&topic, &data, pieces),
        }
    }
}

/// A piece that a source draws is a combination of its generation.
pub proof fn drawn_pieces_are_explained<F: Fn(usize) -> Result<Vec<u8>, String>>(
    rng: F,
    originals: Seq<Seq<u8>>,
    piece: PieceView,
)
    requires
        drawn(rng, originals, piece),
    ensures
        piece.explained_by(originals),
        piece.coding.len() == originals.len(),
{
}

} // verus!
