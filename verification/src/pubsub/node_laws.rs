//! What a node over ready-made sessions promises: who is reached, who is named, and
//! what stays as it was.
use vstd::prelude::*;
use vstd::arithmetic::div_mod::lemma_fundamental_div_mod_converse;
use crate::addr::{OutboundView, UdpAddr};
use crate::error::ErrorView;
use crate::noise::transport::TransportView;
use crate::pubsub::auth::NullAuthenticator;
use crate::pubsub::codec::{parse, PubsubFrameView, WirePieceView};
use crate::pubsub::laws::sent_times;
use crate::pubsub::node::{frame_sent, frames_sent, DeliveredView, PubsubNodeView};
use crate::pubsub::peer_table::{PeerIndex, PeerTableView};
use crate::rlnc::{coding_rank, joined, misfit, reduced_rows, unpadded, PieceView};

verus! {

// -------------------------------------------------------------------- peers

/// A peer that is added gets the next number and is found by its address; the others
/// keep their numbers, addresses and sessions.
pub proof fn added_peers_get_the_next_number(
    table: PeerTableView,
    addr: UdpAddr,
    transport: TransportView,
    i: int,
    other: UdpAddr,
)
    requires
        table.valid(),
        table.peers.len() < usize::MAX,
    ensures
        ({
            let after = table.added(addr, transport);
            &&& after.peers.len() == table.peers.len() + 1
            &&& after.peers[table.peers.len() as int].addr == addr
            &&& after.peers[table.peers.len() as int].transport == transport
            &&& 0 <= i < table.peers.len() ==> after.peers[i] == table.peers[i]
            &&& after.numbers.dom().contains(addr) && after.numbers[addr] == table.peers.len()
            &&& other != addr ==> {
                &&& after.numbers.dom().contains(other) <==> table.numbers.dom().contains(other)
                &&& table.numbers.dom().contains(other) ==> after.numbers[other]
                    == table.numbers[other]
            }
            &&& after.valid()
        }),
{
    let after = table.added(addr, transport);
    assert forall|j: int| 0 <= j < after.peers.len() implies after.numbers.dom().contains(
        (#[trigger] after.peers[j]).addr,
    ) by {
        if j < table.peers.len() {
            assert(table.numbers.dom().contains(table.peers[j].addr));
        }
    }
}

/// A datagram from an address is opened under the session that is registered there,
/// and moves that session alone.
pub proof fn datagrams_go_to_the_registered_session(
    table: PeerTableView,
    from: UdpAddr,
    datagram: Seq<u8>,
    i: int,
)
    requires
        table.valid(),
    ensures
        !table.numbers.dom().contains(from) ==> table.received(from, datagram) is Err,
        table.numbers.dom().contains(from) ==> {
            let at = table.numbers[from] as int;
            let after = table.after(from, datagram);
            &&& table.peers[at].addr == from
            &&& table.received(from, datagram) == table.peers[at].transport.received(datagram)
            &&& after.peers.len() == table.peers.len()
            &&& after.numbers == table.numbers
            &&& after.peers[at].addr == from
            &&& after.peers[at].transport == table.peers[at].transport.after(datagram)
            &&& 0 <= i < table.peers.len() && i != at ==> after.peers[i] == table.peers[i]
        },
{
}

/// A frame for all peers: each gets one datagram under its own session, in the order
/// of their numbers.
proof fn lemma_frame_sent(peers: PeerTableView, frame: Seq<u8>, n: nat)
    requires
        n <= peers.peers.len() <= usize::MAX,
    ensures
        frame_sent(peers, frame, n) matches Ok((after, out)) ==> {
            &&& out.len() == n
            &&& after.peers.len() == peers.peers.len()
            &&& after.numbers == peers.numbers
            &&& forall|j: int|
                0 <= j < peers.peers.len() ==> (#[trigger] after.peers[j]).addr
                    == peers.peers[j].addr && after.peers[j].transport == if j < n {
                    peers.peers[j].transport.sent()
                } else {
                    peers.peers[j].transport
                }
            &&& forall|j: int|
                0 <= j < n ==> (#[trigger] out[j]) == (OutboundView {
                    addr: peers.peers[j].addr,
                    datagram: peers.peers[j].transport.datagram(frame),
                }) && peers.peers[j].transport.send_nonce < u64::MAX
        },
        (forall|j: int|
            0 <= j < n ==> (#[trigger] peers.peers[j]).transport.send_error(frame) is None)
            ==> frame_sent(peers, frame, n) is Ok,
    decreases n,
{
    if n > 0 {
        let m = (n - 1) as nat;
        lemma_frame_sent(peers, frame, m);
        if let Ok((mid, before)) = frame_sent(peers, frame, m) {
            assert(mid.peers[m as int].transport == peers.peers[m as int].transport);
            if let Ok((after, out)) = frame_sent(peers, frame, n) {
                assert forall|j: int| 0 <= j < peers.peers.len() implies (
                #[trigger] after.peers[j]).addr == peers.peers[j].addr && after.peers[j].transport
                    == if j < n {
                    peers.peers[j].transport.sent()
                } else {
                    peers.peers[j].transport
                } by {
                    assert(mid.peers[j].addr == peers.peers[j].addr);
                }
                assert forall|j: int| 0 <= j < n implies (#[trigger] out[j]) == (OutboundView {
                    addr: peers.peers[j].addr,
                    datagram: peers.peers[j].transport.datagram(frame),
                }) && peers.peers[j].transport.send_nonce < u64::MAX by {
                    if j < m {
                        assert(out[j] == before[j]);
                    } else {
                        assert(mid.peers[j].addr == peers.peers[j].addr);
                    }
                }
            }
        }
    }
}

/// The number of a datagram in a run gives its frame and its peer.
proof fn lemma_frames_sent(peers: PeerTableView, frames: Seq<Seq<u8>>, n: nat)
    requires
        n <= frames.len(),
        peers.peers.len() <= usize::MAX,
    ensures
        frames_sent(peers, frames, n) matches Ok((after, out)) ==> {
            let m = peers.peers.len() as int;
            &&& out.len() == n * m
            &&& after.peers.len() == peers.peers.len()
            &&& after.numbers == peers.numbers
            &&& forall|j: int|
                0 <= j < m ==> (#[trigger] after.peers[j]).addr == peers.peers[j].addr
                    && after.peers[j].transport == sent_times(peers.peers[j].transport, n)
                    && peers.peers[j].transport.send_nonce + n <= u64::MAX
            &&& forall|t: int|
                0 <= t < out.len() ==> (#[trigger] out[t]) == (OutboundView {
                    addr: peers.peers[t % m].addr,
                    datagram: sent_times(peers.peers[t % m].transport, (t / m) as nat).datagram(
                        frames[t / m],
                    ),
                })
        },
    decreases n,
{
    let m = peers.peers.len() as int;
    if n == 0 {
        assert(0 * m == 0);
    } else {
        let p = (n - 1) as nat;
        lemma_frames_sent(peers, frames, p);
        if let Ok((mid, before)) = frames_sent(peers, frames, p) {
            lemma_frame_sent(mid, frames[p as int], peers.peers.len());
            if let Ok((after, out)) = frames_sent(peers, frames, n) {
                let more = frame_sent(mid, frames[p as int], peers.peers.len())->Ok_0.1;
                assert(n * m == p * m + m) by (nonlinear_arith)
                    requires
                        n == p + 1,
                ;
                assert forall|j: int| 0 <= j < m implies (#[trigger] after.peers[j]).addr
                    == peers.peers[j].addr && after.peers[j].transport == sent_times(
                    peers.peers[j].transport,
                    n,
                ) && peers.peers[j].transport.send_nonce + n <= u64::MAX by {
                    assert(mid.peers[j].transport == sent_times(peers.peers[j].transport, p));
                    assert(more[j].addr == mid.peers[j].addr);
                }
                assert forall|t: int| 0 <= t < out.len() implies (#[trigger] out[t]) == (
                OutboundView {
                    addr: peers.peers[t % m].addr,
                    datagram: sent_times(peers.peers[t % m].transport, (t / m) as nat).datagram(
                        frames[t / m],
                    ),
                }) by {
                    if t < before.len() {
                        assert(out[t] == before[t]);
                    } else {
                        let j = t - p * m;
                        lemma_fundamental_div_mod_converse(t, m, p as int, j);
                        assert(out[t] == more[j]);
                        assert(mid.peers[j].transport == sent_times(peers.peers[j].transport, p));
                    }
                }
            }
        }
    }
}

/// A broadcast that succeeds sends every piece to every peer, piece by piece, each
/// under the peer's own session; the decoders stay as they are.
pub proof fn node_broadcasts_reach_every_peer(
    node: PubsubNodeView,
    topic: Seq<u8>,
    originals: Seq<Seq<u8>>,
    pieces: Seq<PieceView>,
)
    requires
        node.peers.peers.len() <= usize::MAX,
    ensures
        node.broadcast_pieces(topic, originals, pieces) matches Ok((after, out)) ==> {
            let m = node.peers.peers.len() as int;
            &&& out.len() == pieces.len() * m
            &&& forall|t: int|
                0 <= t < out.len() ==> (#[trigger] out[t]) == (OutboundView {
                    addr: node.peers.peers[t % m].addr,
                    datagram: sent_times(
                        node.peers.peers[t % m].transport,
                        (t / m) as nat,
                    ).datagram(
                        (PubsubFrameView {
                            topic,
                            k: originals.len(),
                            b: originals[0].len(),
                            wire: WirePieceView {
                                commitment: Seq::empty(),
                                piece: pieces[t / m],
                                tag: Seq::empty(),
                            },
                        }).bytes(),
                    ),
                })
            &&& after.decoders == node.decoders
            &&& after.peers.numbers == node.peers.numbers
            &&& after.peers.peers.len() == node.peers.peers.len()
        },
{
    let frames = pieces.map_values(
        |p: PieceView| crate::pubsub::node::plain_frame(topic, originals, p).bytes(),
    );
    lemma_frames_sent(node.peers, frames, frames.len());
    if let Ok((after, out)) = node.broadcast_pieces(topic, originals, pieces) {
        let m = node.peers.peers.len() as int;
        assert forall|t: int| 0 <= t < out.len() implies (#[trigger] out[t]) == (OutboundView {
            addr: node.peers.peers[t % m].addr,
            datagram: sent_times(node.peers.peers[t % m].transport, (t / m) as nat).datagram(
                (PubsubFrameView {
                    topic,
                    k: originals.len(),
                    b: originals[0].len(),
                    wire: WirePieceView {
                        commitment: Seq::empty(),
                        piece: pieces[t / m],
                        tag: Seq::empty(),
                    },
                }).bytes(),
            ),
        }) by {
            assert(0 <= t / m < pieces.len()) by (nonlinear_arith)
                requires
                    0 <= t < pieces.len() * m,
                    m >= 0,
            ;
        }
    }
}

/// Where every session can carry the frames, all of them go out.
proof fn lemma_frames_go_out(peers: PeerTableView, frames: Seq<Seq<u8>>, n: nat)
    requires
        n <= frames.len(),
        peers.peers.len() <= usize::MAX,
        forall|j: int|
            0 <= j < peers.peers.len() ==> (#[trigger] peers.peers[j]).transport.send_nonce
                + frames.len() <= u64::MAX,
        forall|i: int| 0 <= i < frames.len() ==> (#[trigger] frames[i]).len() < 0xffff_ffff,
    ensures
        frames_sent(peers, frames, n) is Ok,
    decreases n,
{
    if n > 0 {
        let p = (n - 1) as nat;
        lemma_frames_go_out(peers, frames, p);
        lemma_frames_sent(peers, frames, p);
        let (mid, _) = frames_sent(peers, frames, p)->Ok_0;
        assert forall|j: int| 0 <= j < peers.peers.len() implies (
        #[trigger] mid.peers[j]).transport.send_error(frames[p as int]) is None by {
            assert(mid.peers[j].transport == sent_times(peers.peers[j].transport, p));
        }
        lemma_frame_sent(mid, frames[p as int], peers.peers.len());
    }
}

/// A broadcast succeeds where the shape of the generation fits into a frame and
/// every session can send as many datagrams of that size.
pub proof fn node_broadcasts_succeed_where_nothing_hinders(
    node: PubsubNodeView,
    topic: Seq<u8>,
    originals: Seq<Seq<u8>>,
    pieces: Seq<PieceView>,
)
    requires
        node.peers.peers.len() <= usize::MAX,
        originals.len() <= u32::MAX,
        originals[0].len() <= u32::MAX,
        forall|j: int|
            0 <= j < node.peers.peers.len() ==> (
            #[trigger] node.peers.peers[j]).transport.send_nonce + pieces.len() <= u64::MAX,
        forall|i: int|
            0 <= i < pieces.len() ==> crate::pubsub::node::plain_frame(
                topic,
                originals,
                #[trigger] pieces[i],
            ).bytes().len() < 0xffff_ffff,
    ensures
        node.broadcast_pieces(topic, originals, pieces) is Ok,
{
    let frames = pieces.map_values(
        |p: PieceView| crate::pubsub::node::plain_frame(topic, originals, p).bytes(),
    );
    assert forall|i: int| 0 <= i < frames.len() implies (#[trigger] frames[i]).len() < 0xffff_ffff by {
        assert(frames[i] == crate::pubsub::node::plain_frame(topic, originals, pieces[i]).bytes());
    }
    lemma_frames_go_out(node.peers, frames, frames.len());
}

// ------------------------------------------------------------------- pieces

/// A piece that fits becomes a row of its topic's decoder; the message is delivered,
/// with the number of the peer that completed it, once the rank is full, and the
/// decoder is then gone. Every other decoder stays as it was.
pub proof fn node_decoders_gather_rows(
    node: PubsubNodeView,
    from: UdpAddr,
    datagram: Seq<u8>,
    plaintext: Seq<u8>,
    frame: PubsubFrameView,
    other: Seq<u8>,
)
    requires
        node.peers.valid(),
        node.peers.received(from, datagram) == Ok::<Seq<u8>, ErrorView>(plaintext),
        parse::<NullAuthenticator>(plaintext) == Ok::<PubsubFrameView, ErrorView>(frame),
        node.decoders.dom().contains(frame.topic),
        misfit(
            frame.wire.piece,
            node.decoders[frame.topic].k,
            node.decoders[frame.topic].b,
        ) is None,
    ensures
        ({
            let topic = frame.topic;
            let was = node.decoders[topic];
            let rows = reduced_rows(was.rows.push(frame.wire.piece.coding + frame.wire.piece.data));
            let number = node.peers.numbers[from];
            let data = unpadded(
                joined(rows.take(was.k as int).map_values(|row: Seq<u8>| row.skip(was.k as int))),
            );
            match node.step(from, datagram) {
                Ok((after, message)) => {
                    &&& after.peers == node.peers.after(from, datagram)
                    &&& other != topic ==> {
                        &&& after.decoders.dom().contains(other) <==> node.decoders.dom().contains(
                            other,
                        )
                        &&& node.decoders.dom().contains(other) ==> after.decoders[other]
                            == node.decoders[other]
                    }
                    &&& coding_rank(rows, was.k) < was.k ==> message is None
                        && after.decoders.dom().contains(topic) && after.decoders[topic].rows
                        == rows && after.decoders[topic].k == was.k && after.decoders[topic].b
                        == was.b
                    &&& coding_rank(rows, was.k) >= was.k ==> !after.decoders.dom().contains(topic)
                        && data is Some && message == Some(
                        DeliveredView {
                            from: PeerIndex { index: number },
                            topic,
                            data: data->Some_0,
                        },
                    )
                },
                Err(_) => coding_rank(rows, was.k) >= was.k && data is None,
            }
        }),
{
    let was = node.decoders[frame.topic];
    let k = was.k as int;
    let rows = reduced_rows(was.rows.push(frame.wire.piece.coding + frame.wire.piece.data));
    let next = was.absorbed(frame.wire.piece);
    assert(next.rows == rows);
    assert(next.solution() =~= rows.take(k).map_values(|row: Seq<u8>| row.skip(k)));
}

/// What does not come from a registered peer, does not open, is no frame, is for an
/// unknown topic or does not fit is an error.
pub proof fn nodes_refuse_what_they_cannot_place(
    node: PubsubNodeView,
    from: UdpAddr,
    datagram: Seq<u8>,
)
    ensures
        node.step(from, datagram) is Ok ==> {
            &&& node.peers.numbers.dom().contains(from)
            &&& node.peers.received(from, datagram) matches Ok(plaintext)
                && parse::<NullAuthenticator>(plaintext) matches Ok(frame)
                && node.decoders.dom().contains(frame.topic) && misfit(
                frame.wire.piece,
                node.decoders[frame.topic].k,
                node.decoders[frame.topic].b,
            ) is None
        },
{
}

/// What is sent to a peer by its number goes out under that peer's session, and is
/// refused where there is no such peer. Replacing a session touches no other.
pub proof fn numbers_lead_to_their_sessions(
    table: PeerTableView,
    peer: PeerIndex,
    plaintext: Seq<u8>,
    transport: TransportView,
    i: int,
)
    ensures
        table.encrypt_error(peer, plaintext) is None <==> peer.index < table.peers.len()
            && table.peers[peer.index as int].transport.send_error(plaintext) is None,
        peer.index < table.peers.len() ==> {
            let after = table.with_session(peer.index as int, transport);
            &&& after.peers.len() == table.peers.len()
            &&& after.numbers == table.numbers
            &&& after.peers[peer.index as int].addr == table.peers[peer.index as int].addr
            &&& after.peers[peer.index as int].transport == transport
            &&& 0 <= i < table.peers.len() && i != peer.index ==> after.peers[i] == table.peers[i]
        },
{
}

/// A broadcast that fails hands out the datagrams of the pieces before the one that
/// failed, and those of that piece for the peers before the one that failed.
pub proof fn failed_node_broadcasts_hand_out_what_came_before(
    peers: PeerTableView,
    frames: Seq<Seq<u8>>,
    n: nat,
) -> (i: nat)
    requires
        frames_sent(peers, frames, n) is Err,
    ensures
        i < n,
        frames_sent(peers, frames, i) matches Ok((mid, out)) && frames_sent(
            peers,
            frames,
            n,
        ) matches Err(e) && frame_sent(mid, frames[i as int], peers.peers.len()) matches Err(inner)
            && e.error == inner.error && e.outbound == out + inner.outbound,
    decreases n,
{
    let m = (n - 1) as nat;
    if frames_sent(peers, frames, m) is Err {
        failed_node_broadcasts_hand_out_what_came_before(peers, frames, m)
    } else {
        m
    }
}

/// A frame that cannot be sent to every peer leaves the datagrams for the peers
/// before the one that failed.
pub proof fn failed_frames_name_the_first_failure(
    peers: PeerTableView,
    frame: Seq<u8>,
    n: nat,
) -> (i: nat)
    requires
        n <= peers.peers.len() <= usize::MAX,
        frame_sent(peers, frame, n) is Err,
    ensures
        i < n,
        frame_sent(peers, frame, i) matches Ok((_, out)) && frame_sent(peers, frame, n) matches Err(
            e,
        ) && e.outbound == out && peers.peers[i as int].transport.send_error(frame) == Some(e.error),
    decreases n,
{
    let m = (n - 1) as nat;
    if frame_sent(peers, frame, m) is Err {
        failed_frames_name_the_first_failure(peers, frame, m)
    } else {
        lemma_frame_sent(peers, frame, m);
        let (mid, _) = frame_sent(peers, frame, m)->Ok_0;
        assert(mid.peers[m as int].transport == peers.peers[m as int].transport);
        m
    }
}

} // verus!
