//! A pubsub node over ready-made sessions: peers by number, one decoder for each
//! topic, no authentication.
use vstd::prelude::*;
use vstd::slice::slice_to_vec;
use vstd::string::StringExecFns;
use rlnc_cat_rs::coding::decode::DecoderState;
use rlnc_cat_rs::coding::piece::OriginalData;
use crate::addr::{Outbound, OutboundView, UdpAddr};
use crate::error::{Error, ErrorView};
use crate::failure::{outbounds_view, Failure, FailureView};
use crate::noise::transport::TransportState;
use crate::ordered_map::OrderedMap;
use crate::pubsub::auth::NullAuthenticator;
use crate::pubsub::codec::{decode, encode, parse, PubsubFrameView, WirePiece, WirePieceView};
use crate::pubsub::model::topic_text;
use crate::pubsub::mux::{
    coded, draw_pieces, drawing_fails, drawn, make_pieces, topic_name, vectors_error,
};
use crate::pubsub::peer_table::{PeerIndex, PeerTable, PeerTableView};
use crate::pubsub::topic::Topic;
use crate::rlnc::{
    absorb_piece, decode_data, decoder_view, is_complete, joined, misfit, new_decoder,
    original_pieces, original_shape, shaped, unpadded, CodedPiece, DecoderView, PieceView,
};

verus! {

/// A message that a topic's decoder has put together.
#[derive(Debug)]
pub struct DeliveredMessage {
    /// The peer whose piece completed the message.
    pub from: PeerIndex,
    pub topic: Topic,
    pub data: Vec<u8>,
}

/// The meaning of a [`DeliveredMessage`].
pub struct DeliveredView {
    pub from: PeerIndex,
    pub topic: Seq<u8>,
    pub data: Seq<u8>,
}

impl View for DeliveredMessage {
    type V = DeliveredView;

    open spec fn view(&self) -> DeliveredView {
        DeliveredView { from: self.from, topic: self.topic@, data: self.data@ }
    }
}

impl Clone for DeliveredMessage {
    fn clone(&self) -> (copy: Self)
        ensures
            copy@ == self@,
    {
        DeliveredMessage {
            from: self.from,
            topic: self.topic.clone(),
            data: slice_to_vec(self.data.as_slice()),
        }
    }
}

/// The meaning of an optional message.
pub open spec fn delivered_view(m: Option<DeliveredMessage>) -> Option<DeliveredView> {
    match m {
        Some(m) => Some(m@),
        None => None,
    }
}

/// The meaning of a [`PubsubNode`].
pub struct PubsubNodeView {
    pub peers: PeerTableView,
    pub decoders: Map<Seq<u8>, DecoderView>,
}

/// The frame of a piece of a generation.
pub open spec fn plain_frame(
    topic: Seq<u8>,
    originals: Seq<Seq<u8>>,
    piece: PieceView,
) -> PubsubFrameView {
    PubsubFrameView {
        topic,
        k: originals.len(),
        b: originals[0].len(),
        wire: WirePieceView { commitment: Seq::empty(), piece, tag: Seq::empty() },
    }
}

/// The table after a frame went to the first `n` peers and the datagrams to
/// send, or the first failure and the datagrams before it.
pub open spec fn frame_sent(peers: PeerTableView, frame: Seq<u8>, n: nat) -> Result<
    (PeerTableView, Seq<OutboundView>),
    FailureView,
>
    decreases n,
{
    if n == 0 {
        Ok((peers, Seq::empty()))
    } else {
        match frame_sent(peers, frame, (n - 1) as nat) {
            Err(e) => Err(e),
            Ok((p, out)) => {
                let i = n - 1;
                match p.encrypt_error(PeerIndex { index: i as usize }, frame) {
                    Some(error) => Err(FailureView { error, outbound: out }),
                    None => Ok(
                        (
                            p.with_session(i, p.peers[i].transport.sent()),
                            out.push(
                                OutboundView {
                                    addr: p.peers[i].addr,
                                    datagram: p.peers[i].transport.datagram(frame),
                                },
                            ),
                        ),
                    ),
                }
            },
        }
    }
}

/// The table after the first `n` frames went to every peer and the datagrams to
/// send, or the first failure and the datagrams before it.
pub open spec fn frames_sent(peers: PeerTableView, frames: Seq<Seq<u8>>, n: nat) -> Result<
    (PeerTableView, Seq<OutboundView>),
    FailureView,
>
    decreases n,
{
    if n == 0 {
        Ok((peers, Seq::empty()))
    } else {
        match frames_sent(peers, frames, (n - 1) as nat) {
            Err(e) => Err(e),
            Ok((p, out)) => match frame_sent(p, frames[n - 1], peers.peers.len()) {
                Err(e) => Err(e.behind(out)),
                Ok((p2, more)) => Ok((p2, out + more)),
            },
        }
    }
}

impl PubsubNodeView {
    /// What a piece for a topic does to the decoders: the next ones, and the
    /// message if it is complete.
    pub open spec fn absorb(self, from: PeerIndex, frame: PubsubFrameView) -> Result<
        (Map<Seq<u8>, DecoderView>, Option<DeliveredView>),
        ErrorView,
    > {
        let topic = frame.topic;
        if !self.decoders.dom().contains(topic) {
            Err(
                ErrorView::PubsubProtocol(
                    "frame received for unregistered topic "@ + topic_text(topic),
                ),
            )
        } else {
            let decoder = self.decoders[topic];
            match misfit(frame.wire.piece, decoder.k, decoder.b) {
                Some(reason) => Err(ErrorView::RlncLayer(reason)),
                None => {
                    let next = decoder.absorbed(frame.wire.piece);
                    if next.complete() {
                        match next.decoded() {
                            Ok(data) => Ok(
                                (
                                    self.decoders.remove(topic),
                                    Some(DeliveredView { from, topic, data }),
                                ),
                            ),
                            Err(reason) => Err(ErrorView::RlncLayer(reason)),
                        }
                    } else {
                        Ok((self.decoders.insert(topic, next), None))
                    }
                },
            }
        }
    }

    /// What a datagram does: the next node, and the message if it is complete.
    pub open spec fn step(self, from: UdpAddr, datagram: Seq<u8>) -> Result<
        (PubsubNodeView, Option<DeliveredView>),
        ErrorView,
    > {
        match self.peers.received(from, datagram) {
            Err(e) => Err(e),
            Ok(plaintext) => match parse::<NullAuthenticator>(plaintext) {
                Err(e) => Err(e),
                Ok(frame) => match self.absorb(
                    PeerIndex { index: self.peers.numbers[from] },
                    frame,
                ) {
                    Err(e) => Err(e),
                    Ok((decoders, message)) => Ok(
                        (
                            PubsubNodeView { peers: self.peers.after(from, datagram), decoders },
                            message,
                        ),
                    ),
                },
            },
        }
    }

    /// What broadcasting given pieces of a generation does.
    pub open spec fn broadcast_pieces(
        self,
        topic: Seq<u8>,
        originals: Seq<Seq<u8>>,
        pieces: Seq<PieceView>,
    ) -> Result<(PubsubNodeView, Seq<OutboundView>), FailureView> {
        let shape = plain_frame(topic, originals, PieceView {
            coding: Seq::empty(),
            data: Seq::empty(),
        });
        match shape.shape_error() {
            Some(e) if pieces.len() > 0 => Err(FailureView::early(e)),
            _ => {
                let frames = pieces.map_values(
                    |p: PieceView| plain_frame(topic, originals, p).bytes(),
                );
                match frames_sent(self.peers, frames, frames.len()) {
                    Err(e) => Err(e),
                    Ok((peers, out)) => Ok((PubsubNodeView { peers, ..self }, out)),
                }
            },
        }
    }
}

/// The meaning of a table of decoders.
pub open spec fn node_decoders(map: Map<Seq<u8>, DecoderState>) -> Map<Seq<u8>, DecoderView> {
    map.map_values(|d: DecoderState| decoder_view(d))
}

/// A node with its peers and decoders.
pub struct PubsubNode {
    peers: PeerTable,
    decoders: OrderedMap<Topic, DecoderState>,
}

impl View for PubsubNode {
    type V = PubsubNodeView;

    closed spec fn view(&self) -> PubsubNodeView {
        PubsubNodeView { peers: self.peers@, decoders: node_decoders(self.decoders.map()) }
    }
}

impl PubsubNode {
    /// A node without peers and topics.
    pub fn new() -> (node: Self)
        ensures
            node@ == (PubsubNodeView {
                peers: PeerTableView { peers: Seq::empty(), numbers: Map::empty() },
                decoders: Map::empty(),
            }),
    {
        let decoders: OrderedMap<Topic, DecoderState> = OrderedMap::new();
        assert(node_decoders(decoders.map()) =~= Map::<Seq<u8>, DecoderView>::empty());
        PubsubNode { peers: PeerTable::new(), decoders }
    }

    /// The peers.
    pub fn peers(&self) -> (peers: &PeerTable)
        ensures
            peers@ == self@.peers,
    {
        &self.peers
    }

    /// Adds a peer under the next number.
    pub fn add_peer(self, addr: UdpAddr, transport: TransportState) -> (r: (Self, PeerIndex))
        ensures
            r.0@ == (PubsubNodeView { peers: self@.peers.added(addr, transport@), ..self@ }),
            r.1.index == self@.peers.peers.len(),
    {
        let PubsubNode { peers, decoders } = self;
        let (peers, index) = peers.add(addr, transport);
        (PubsubNode { peers, decoders }, index)
    }

    /// Registers a topic for decoding.
    pub fn register_topic(self, topic: Topic, piece_count: usize, piece_byte_len: usize) -> (node:
        Self)
        requires
            piece_count + piece_byte_len <= usize::MAX,
        ensures
            node@ == (PubsubNodeView {
                decoders: self@.decoders.insert(
                    topic@,
                    DecoderView::empty(piece_count as nat, piece_byte_len as nat),
                ),
                ..self@
            }),
    {
        let ghost before = self@;
        let ghost t = topic@;
        let PubsubNode { peers, decoders } = self;
        let decoder = new_decoder(piece_count, piece_byte_len);
        let decoders = decoders.insert(topic, decoder);
        assert(node_decoders(decoders.map()) =~= before.decoders.insert(t, decoder_view(decoder)));
        PubsubNode { peers, decoders }
    }

    /// Broadcasts a generation on a topic: `num_pieces` pieces with coefficients
    /// from `rng_factory` are framed and sent to every peer.
    pub fn broadcast<F: Fn(usize) -> Result<Vec<u8>, String>>(
        self,
        topic: Topic,
        data: OriginalData,
        num_pieces: usize,
        rng_factory: F,
    ) -> (r: Result<(Self, Vec<Outbound>), Failure>)
        requires
            forall|n: usize| #[trigger] rng_factory.requires((n,)),
        ensures
            match r {
                Ok((node, outbound)) => exists|pieces: Seq<PieceView>|
                    {
                        &&& pieces.len() == num_pieces
                        &&& forall|i: int|
                            0 <= i < pieces.len() ==> drawn(
                                rng_factory,
                                original_pieces(data),
                                #[trigger] pieces[i],
                            )
                        &&& #[trigger] self@.broadcast_pieces(
                            topic@,
                            original_pieces(data),
                            pieces,
                        ) == Ok::<(PubsubNodeView, Seq<OutboundView>), FailureView>(
                            (node@, outbounds_view(outbound@)),
                        )
                    },
                Err(e) => (num_pieces > 0 && e@.outbound.len() == 0 && drawing_fails(
                    rng_factory,
                    original_pieces(data),
                    e@.error,
                )) || exists|
                    pieces: Seq<PieceView>,
                |
                    {
                        &&& pieces.len() == num_pieces
                        &&& forall|i: int|
                            0 <= i < pieces.len() ==> drawn(
                                rng_factory,
                                original_pieces(data),
                                #[trigger] pieces[i],
                            )
                        &&& #[trigger] self@.broadcast_pieces(
                            topic@,
                            original_pieces(data),
                            pieces,
                        ) == Err::<(PubsubNodeView, Seq<OutboundView>), FailureView>(e@)
                    },
            },
    {
        let pieces = match draw_pieces(&data, num_pieces, &rng_factory) {
            Ok(pieces) => pieces,
            Err(e) => {
                return Err(Failure::early(e));
            },
        };
        let ghost views = pieces@.map_values(|p: CodedPiece| p@);
        proof {
            assert forall|i: int| 0 <= i < views.len() implies drawn(
                rng_factory,
                original_pieces(data),
                #[trigger] views[i],
            ) by {
                assert(views[i] == pieces@[i]@);
            }
        }
        self.send_pieces(&topic, &data, pieces)
    }

    /// Broadcasts a generation on a topic with the given coefficients, one
    /// vector for each piece.
    pub fn broadcast_with(self, topic: Topic, data: OriginalData, vectors: &Vec<Vec<u8>>) -> (r:
        Result<(Self, Vec<Outbound>), Failure>)
        ensures
            ({
                let originals = original_pieces(data);
                let given = vectors@.map_values(|v: Vec<u8>| v@);
                let pieces = given.map_values(|v: Seq<u8>| coded(originals, v));
                match r {
                    Ok((node, outbound)) => {
                        &&& vectors_error(given, originals.len()) is None
                        &&& self@.broadcast_pieces(topic@, originals, pieces) == Ok::<
                            (PubsubNodeView, Seq<OutboundView>),
                            FailureView,
                        >((node@, outbounds_view(outbound@)))
                    },
                    Err(e) => match vectors_error(given, originals.len()) {
                        Some(bad) => e@ == FailureView::early(bad),
                        None => self@.broadcast_pieces(topic@, originals, pieces) == Err::<
                            (PubsubNodeView, Seq<OutboundView>),
                            FailureView,
                        >(e@),
                    },
                }
            }),
    {
        match make_pieces(&data, vectors) {
            Err(e) => Err(Failure::early(e)),
            Ok(pieces) => self.send_pieces(&topic, &data, pieces),
        }
    }

    /// Frames given pieces of a generation and sends them to every peer.
    fn send_pieces(self, topic: &Topic, data: &OriginalData, pieces: Vec<CodedPiece>) -> (r: Result<
        (Self, Vec<Outbound>),
        Failure,
    >)
        ensures
            match r {
                Ok((node, outbound)) => self@.broadcast_pieces(
                    topic@,
                    original_pieces(*data),
                    pieces@.map_values(|p: CodedPiece| p@),
                ) == Ok::<(PubsubNodeView, Seq<OutboundView>), FailureView>(
                    (node@, outbounds_view(outbound@)),
                ),
                Err(e) => self@.broadcast_pieces(
                    topic@,
                    original_pieces(*data),
                    pieces@.map_values(|p: CodedPiece| p@),
                ) == Err::<(PubsubNodeView, Seq<OutboundView>), FailureView>(e@),
            },
    {
        let ghost before = self@;
        let ghost originals = original_pieces(*data);
        let (k, b) = original_shape(data);
        let PubsubNode { peers, decoders } = self;
        let ghost all = pieces@.map_values(|p: CodedPiece| p@);
        let ghost frame_of = |p: PieceView| plain_frame(topic@, originals, p).bytes();
        let ghost wanted = all.map_values(frame_of);
        let total: usize = pieces.len();
        let mut frames: Vec<Vec<u8>> = Vec::new();
        let mut rest = pieces;
        let ghost given = pieces@;
        let mut i: usize = 0;
        while i < total
            invariant
                i <= total == given.len(),
                given == pieces@,
                before == self@,
                rest@ == given.skip(i as int),
                frames@.len() == i,
                originals == original_pieces(*data),
                k == originals.len(),
                b == originals[0].len(),
                k >= 1,
                all == given.map_values(|p: CodedPiece| p@),
                forall|j: int|
                    0 <= j < i ==> (#[trigger] frames@[j])@ == plain_frame(
                        topic@,
                        originals,
                        all[j],
                    ).bytes(),
                i > 0 ==> plain_frame(
                    topic@,
                    originals,
                    PieceView { coding: Seq::empty(), data: Seq::empty() },
                ).shape_error() is None,
            decreases total - i,
        {
            let piece = rest.remove(0);
            assert(piece == given[i as int]);
            assert(rest@ =~= given.skip(i + 1));
            let wire = WirePiece::<NullAuthenticator>::new((), piece, ());
            assert(all[i as int] == piece@);
            match encode::<NullAuthenticator>(topic, k, b, &wire) {
                Ok(bytes) => {
                    frames.push(bytes);
                },
                Err(e) => {
                    return Err(Failure::early(e));
                },
            }
            i = i + 1;
        }
        let ghost sent = frames@.map_values(|f: Vec<u8>| f@);
        proof {
            assert(sent =~= wanted);
        }
        match fan_out(peers, &frames) {
            Err(e) => Err(e),
            Ok((peers, outbound)) => Ok((PubsubNode { peers, decoders }, outbound)),
        }
    }

    /// Processes one datagram that arrived from `from`. Hands out the message
    /// that it completes, if it completes one. Where all that the decoder of the
    /// topic held, and the piece that arrived, are combinations of some original
    /// pieces, the message is the data of these pieces.
    pub fn recv_one(self, from: UdpAddr, datagram: &[u8]) -> (r: Result<
        (Self, Option<DeliveredMessage>),
        Error,
    >)
        ensures
            match r {
                Ok((node, message)) => self@.step(from, datagram@) == Ok::<
                    (PubsubNodeView, Option<DeliveredView>),
                    ErrorView,
                >((node@, delivered_view(message))),
                Err(e) => self@.step(from, datagram@) == Err::<
                    (PubsubNodeView, Option<DeliveredView>),
                    ErrorView,
                >(e@),
            },
            r matches Ok((node, Some(message))) ==> ({
                let plaintext = self@.peers.received(from, datagram@)->Ok_0;
                let frame = parse::<NullAuthenticator>(plaintext)->Ok_0;
                let decoder = self@.decoders[frame.topic];
                forall|originals: Seq<Seq<u8>>|
                    shaped(originals, decoder.k, decoder.b) && #[trigger] decoder.explained_by(
                        originals,
                    ) && frame.wire.piece.explained_by(originals) ==> unpadded(joined(originals))
                        == Some(message@.data)
            }),
    {
        let ghost before = self@;
        let PubsubNode { peers, decoders } = self;
        let (peers, from_peer, plaintext) = match peers.decrypt_from(from, datagram) {
            Ok(t) => t,
            Err(e) => {
                return Err(e);
            },
        };
        let (frame, wire) = match decode::<NullAuthenticator>(plaintext.as_slice()) {
            Ok(pair) => pair,
            Err(e) => {
                return Err(e);
            },
        };
        let topic = frame.topic;
        let ghost t = topic@;
        let (rest, decoder) = decoders.remove(&topic);
        let decoder = match decoder {
            Some(decoder) => decoder,
            None => {
                let name = topic_name(&topic);
                return Err(
                    Error::PubsubProtocol {
                        reason: "frame received for unregistered topic ".to_owned().concat(
                            name.as_str(),
                        ),
                    },
                );
            },
        };
        let next = match absorb_piece(&decoder, wire.piece()) {
            Ok(next) => next,
            Err(reason) => {
                return Err(Error::RlncLayer { reason });
            },
        };
        let ghost advanced = decoder_view(next);
        if is_complete(&next) {
            match decode_data(next) {
                Err(reason) => Err(Error::RlncLayer { reason }),
                Ok(data) => {
                    assert(node_decoders(rest.map()) =~= before.decoders.remove(t));
                    proof {
                        let d0 = decoder_view(decoder);
                        assert forall|originals: Seq<Seq<u8>>|
                            shaped(originals, d0.k, d0.b) && #[trigger] d0.explained_by(originals)
                                && wire@.piece.explained_by(originals) implies unpadded(
                            joined(originals),
                        ) == Some(data@) by {
                            assert(advanced.explained_by(originals));
                        }
                    }
                    Ok(
                        (
                            PubsubNode { peers, decoders: rest },
                            Some(DeliveredMessage { from: from_peer, topic, data }),
                        ),
                    )
                },
            }
        } else {
            let decoders = rest.insert(topic, next);
            assert(node_decoders(decoders.map()) =~= before.decoders.insert(t, advanced));
            Ok((PubsubNode { peers, decoders }, None))
        }
    }
}

/// Once a peer has failed all fail.
proof fn lemma_frame_fails(peers: PeerTableView, frame: Seq<u8>, i: nat, n: nat)
    requires
        i <= n,
        frame_sent(peers, frame, i) is Err,
    ensures
        frame_sent(peers, frame, n) == frame_sent(peers, frame, i),
    decreases n,
{
    if i < n {
        lemma_frame_fails(peers, frame, i, (n - 1) as nat);
    }
}

/// Once a frame has failed all fail.
proof fn lemma_frames_fail(peers: PeerTableView, frames: Seq<Seq<u8>>, i: nat, n: nat)
    requires
        i <= n,
        frames_sent(peers, frames, i) is Err,
    ensures
        frames_sent(peers, frames, n) == frames_sent(peers, frames, i),
    decreases n,
{
    if i < n {
        lemma_frames_fail(peers, frames, i, (n - 1) as nat);
    }
}

/// Sends a frame to every peer.
fn send_frame_to_all(peers: PeerTable, frame: &[u8]) -> (r: Result<(PeerTable, Vec<Outbound>), Failure>)
    ensures
        match r {
            Ok((next, outbound)) => frame_sent(peers@, frame@, peers@.peers.len()) == Ok::<
                (PeerTableView, Seq<OutboundView>),
                FailureView,
            >((next@, outbounds_view(outbound@))) && next@.peers.len() == peers@.peers.len(),
            Err(e) => frame_sent(peers@, frame@, peers@.peers.len()) == Err::<
                (PeerTableView, Seq<OutboundView>),
                FailureView,
            >(e@),
        },
{
    let ghost start = peers@;
    let n: usize = peers.len();
    let mut next = peers;
    let mut outbound: Vec<Outbound> = Vec::new();
    let mut i: usize = 0;
    assert(outbounds_view(outbound@) =~= Seq::<OutboundView>::empty());
    while i < n
        invariant
            i <= n,
            n == start.peers.len(),
            start == peers@,
            next@.peers.len() == n,
            frame_sent(start, frame@, i as nat) == Ok::<
                (PeerTableView, Seq<OutboundView>),
                FailureView,
            >((next@, outbounds_view(outbound@))),
        decreases n - i,
    {
        let ghost before = outbound@;
        let ghost p = next@;
        match next.encrypt_for(PeerIndex { index: i }, frame) {
            Err(error) => {
                let failure = Failure { error, outbound };
                proof {
                    assert(frame_sent(start, frame@, (i + 1) as nat) == Err::<
                        (PeerTableView, Seq<OutboundView>),
                        FailureView,
                    >(failure@));
                    lemma_frame_fails(start, frame@, (i + 1) as nat, n as nat);
                }
                return Err(failure);
            },
            Ok((stepped, addr, datagram)) => {
                let o = Outbound { addr, datagram };
                outbound.push(o);
                assert(outbounds_view(outbound@) =~= outbounds_view(before).push(o@));
                next = stepped;
            },
        }
        i = i + 1;
    }
    Ok((next, outbound))
}

/// Sends every frame to every peer.
fn fan_out(peers: PeerTable, frames: &Vec<Vec<u8>>) -> (r: Result<(PeerTable, Vec<Outbound>), Failure>)
    ensures
        match r {
            Ok((next, outbound)) => frames_sent(
                peers@,
                frames@.map_values(|f: Vec<u8>| f@),
                frames@.len(),
            ) == Ok::<(PeerTableView, Seq<OutboundView>), FailureView>(
                (next@, outbounds_view(outbound@)),
            ),
            Err(e) => frames_sent(peers@, frames@.map_values(|f: Vec<u8>| f@), frames@.len())
                == Err::<(PeerTableView, Seq<OutboundView>), FailureView>(e@),
        },
{
    let ghost start = peers@;
    let ghost sent = frames@.map_values(|f: Vec<u8>| f@);
    let mut next = peers;
    let mut outbound: Vec<Outbound> = Vec::new();
    let mut j: usize = 0;
    assert(outbounds_view(outbound@) =~= Seq::<OutboundView>::empty());
    while j < frames.len()
        invariant
            j <= frames@.len(),
            start == peers@,
            sent == frames@.map_values(|f: Vec<u8>| f@),
            next@.peers.len() == start.peers.len(),
            frames_sent(start, sent, j as nat) == Ok::<
                (PeerTableView, Seq<OutboundView>),
                FailureView,
            >((next@, outbounds_view(outbound@))),
        decreases frames@.len() - j,
    {
        let ghost before = outbound@;
        let ghost p = next@;
        assert(sent[j as int] == frames@[j as int]@);
        match send_frame_to_all(next, frames[j].as_slice()) {
            Err(failure) => {
                let failure = failure.behind(outbound);
                proof {
                    assert(frames_sent(start, sent, (j + 1) as nat) == Err::<
                        (PeerTableView, Seq<OutboundView>),
                        FailureView,
                    >(failure@));
                    lemma_frames_fail(start, sent, (j + 1) as nat, frames@.len());
                }
                return Err(failure);
            },
            Ok((stepped, more)) => {
                let mut more = more;
                let ghost added = more@;
                outbound.append(&mut more);
                assert(outbounds_view(outbound@) =~= outbounds_view(before) + outbounds_view(
                    added,
                ));
                next = stepped;
            },
        }
        j = j + 1;
    }
    Ok((next, outbound))
}

} // verus!
