//! Whom pieces reach, what becomes of the topics that a call does not name, and what
//! a decoder makes of a piece.
use vstd::prelude::*;
use crate::addr::{OutboundView, UdpAddr};
use crate::failure::FailureView;
use crate::host::event::HostEventView;
use crate::host::fanout::sent_to_each;
use crate::host::laws::fan_outs_reach_every_address;
use crate::host::model::HostView;
use crate::noise::transport::TransportView;
use crate::ordered_map::{finite_sets_are_listed, listing, OrderedKey};
use crate::pubsub::auth::WireAuthenticator;
use crate::pubsub::codec::{PubsubFrameView, WirePieceView};
use crate::pubsub::event::MuxEventView;
use crate::pubsub::model::{frame_in, others, without_addr, MuxStepView, MuxView, KIND_PUBSUB};
use crate::pubsub::mux::frames_sent;
use crate::pubsub::state::{PubsubView, RecoderEntryView};
use crate::rlnc::{coding_rank, gf_combine, joined, misfit, reduced_rows, unpadded, PieceView};

verus! {

/// The datagrams for one address, in their order.
pub open spec fn addressed_to(out: Seq<OutboundView>, a: UdpAddr) -> Seq<OutboundView> {
    out.filter(|o: OutboundView| o.addr == a)
}

/// What is addressed to a peer in two runs is what is addressed to it in each.
proof fn lemma_addressed_concat(x: Seq<OutboundView>, y: Seq<OutboundView>, a: UdpAddr)
    ensures
        addressed_to(x + y, a) == addressed_to(x, a) + addressed_to(y, a),
    decreases y.len(),
{
    reveal(Seq::filter);
    if y.len() == 0 {
        assert(x + y =~= x);
        assert(addressed_to(x, a) + addressed_to(y, a) =~= addressed_to(x, a));
    } else {
        lemma_addressed_concat(x, y.drop_last(), a);
        assert((x + y).drop_last() =~= x + y.drop_last());
        assert((x + y).last() == y.last());
        assert(addressed_to(x + y, a) =~= addressed_to(x, a) + addressed_to(y, a));
    }
}

/// Of datagrams to different addresses each address gets its own.
proof fn lemma_addressed_once(out: Seq<OutboundView>, a: UdpAddr)
    requires
        forall|i: int, j: int|
            0 <= i < j < out.len() ==> (#[trigger] out[i]).addr != (#[trigger] out[j]).addr,
    ensures
        (forall|i: int| 0 <= i < out.len() ==> (#[trigger] out[i]).addr != a) ==> addressed_to(
            out,
            a,
        ) == Seq::<OutboundView>::empty(),
        forall|i: int|
            0 <= i < out.len() && (#[trigger] out[i]).addr == a ==> addressed_to(out, a)
                == seq![out[i]],
    decreases out.len(),
{
    reveal(Seq::filter);
    if out.len() > 0 {
        let head = out.drop_last();
        assert forall|i: int, j: int| 0 <= i < j < head.len() implies (#[trigger] head[i]).addr != (
        #[trigger] head[j]).addr by {
            assert(out[i].addr != out[j].addr);
        }
        lemma_addressed_once(head, a);
        let last = out.last();
        if last.addr == a {
            assert forall|i: int| 0 <= i < head.len() implies (#[trigger] head[i]).addr != a by {
                assert(out[i].addr != out[out.len() - 1].addr);
            }
            assert(addressed_to(out, a) =~= seq![last]);
        } else {
            assert(addressed_to(out, a) == addressed_to(head, a));
            if forall|i: int| 0 <= i < out.len() ==> (#[trigger] out[i]).addr != a {
                assert forall|i: int| 0 <= i < head.len() implies (#[trigger] head[i]).addr != a by {
                    assert(out[i].addr != a);
                }
            }
            assert forall|i: int| 0 <= i < out.len() && (#[trigger] out[i]).addr == a implies addressed_to(
                out,
                a,
            ) == seq![out[i]] by {
                assert(head[i] == out[i]);
            }
        }
    } else {
        assert(addressed_to(out, a) =~= Seq::<OutboundView>::empty());
    }
}

/// A plaintext for different addresses: each gets exactly one datagram, and nobody
/// else gets any.
proof fn lemma_fan_out(host: HostView, addrs: Seq<UdpAddr>, plaintext: Seq<u8>, a: UdpAddr)
    requires
        forall|i: int, j: int|
            0 <= i < j < addrs.len() ==> #[trigger] addrs[i] != #[trigger] addrs[j],
    ensures
        sent_to_each(host, addrs, plaintext, addrs.len()) matches Ok((after, out)) ==> {
            &&& out.len() == addrs.len()
            &&& addressed_to(out, a) == if addrs.contains(a) {
                seq![
                    OutboundView {
                        addr: a,
                        datagram: host.established[a].transport.datagram(plaintext),
                    },
                ]
            } else {
                Seq::empty()
            }
        },
{
    fan_outs_reach_every_address(host, addrs, plaintext, addrs.len());
    if let Ok((after, out)) = sent_to_each(host, addrs, plaintext, addrs.len()) {
        assert forall|i: int, j: int| 0 <= i < j < out.len() implies (#[trigger] out[i]).addr != (
        #[trigger] out[j]).addr by {
            assert(addrs[i] != addrs[j]);
        }
        lemma_addressed_once(out, a);
        if addrs.contains(a) {
            let i = addrs.index_of(a);
            assert(out[i].addr == a);
        } else {
            assert forall|i: int| 0 <= i < out.len() implies (#[trigger] out[i]).addr != a by {
                assert(addrs.contains(addrs[i]));
            }
        }
    }
}

/// The addresses but one are what their name says.
proof fn lemma_without(addrs: Seq<UdpAddr>, exclude: UdpAddr)
    requires
        forall|i: int, j: int|
            0 <= i < j < addrs.len() ==> #[trigger] addrs[i] != #[trigger] addrs[j],
    ensures
        forall|i: int, j: int|
            0 <= i < j < without_addr(addrs, exclude).len() ==> #[trigger] without_addr(
                addrs,
                exclude,
            )[i] != #[trigger] without_addr(addrs, exclude)[j],
        forall|a: UdpAddr| #[trigger]
            without_addr(addrs, exclude).contains(a) <==> addrs.contains(a) && a != exclude,
        without_addr(addrs, exclude).len() == if addrs.contains(exclude) {
            addrs.len() - 1
        } else {
            addrs.len() as int
        },
    decreases addrs.len(),
{
    if addrs.len() > 0 {
        let head = addrs.drop_last();
        let last = addrs.last();
        assert forall|i: int, j: int| 0 <= i < j < head.len() implies #[trigger] head[i]
            != #[trigger] head[j] by {
            assert(addrs[i] != addrs[j]);
        }
        lemma_without(head, exclude);
        let before = without_addr(head, exclude);
        let all = without_addr(addrs, exclude);
        assert forall|a: UdpAddr| addrs.contains(a) <==> head.contains(a) || a == last by {
            if addrs.contains(a) {
                let i = addrs.index_of(a);
                if i < head.len() {
                    assert(head[i] == a);
                }
            }
            if head.contains(a) {
                let i = head.index_of(a);
                assert(addrs[i] == a);
            }
            if a == last {
                assert(addrs[addrs.len() - 1] == a);
            }
        }
        assert(!head.contains(last)) by {
            if head.contains(last) {
                let i = head.index_of(last);
                assert(addrs[i] != addrs[addrs.len() - 1]);
            }
        }
        if last != exclude {
            assert forall|a: UdpAddr| all.contains(a) <==> before.contains(a) || a == last by {
                if all.contains(a) {
                    let i = all.index_of(a);
                    if i < before.len() {
                        assert(before[i] == a);
                    }
                }
                if before.contains(a) {
                    let i = before.index_of(a);
                    assert(all[i] == a);
                }
                if a == last {
                    assert(all[all.len() - 1] == a);
                }
            }
            assert forall|i: int, j: int| 0 <= i < j < all.len() implies #[trigger] all[i]
                != #[trigger] all[j] by {
                assert(before[i] == all[i]);
                assert(before.contains(before[i]));
                if j < before.len() {
                    assert(before[j] == all[j]);
                }
            }
        }
    }
}

/// The established peers stand in a list, each once.
proof fn lemma_established(host: HostView)
    requires
        host.established.dom().finite(),
    ensures
        ({
            let addrs = listing::<UdpAddr>(host.established.dom());
            &&& addrs.len() == host.established.dom().len()
            &&& forall|i: int, j: int|
                0 <= i < j < addrs.len() ==> #[trigger] addrs[i] != #[trigger] addrs[j]
            &&& forall|a: UdpAddr| #[trigger]
                addrs.contains(a) <==> host.established.dom().contains(a)
        }),
{
    finite_sets_are_listed::<UdpAddr>(host.established.dom());
    let addrs = listing::<UdpAddr>(host.established.dom());
    assert forall|i: int, j: int| 0 <= i < j < addrs.len() implies #[trigger] addrs[i]
        != #[trigger] addrs[j] by {
        <UdpAddr as OrderedKey>::irreflexive(addrs[i]);
        assert(UdpAddr::precedes(addrs[i], addrs[j]));
    }
    assert forall|a: UdpAddr| #[trigger]
        addrs.contains(a) <==> host.established.dom().contains(a) by {}
}

// ------------------------------------------------------------------ relaying

/// The frame that a relay sends: a combination of what it stores with the piece that
/// came, under the commitment of the topic and tagged for it.
pub open spec fn recoded<A: WireAuthenticator>(
    auth: A,
    topic: Seq<u8>,
    entry: RecoderEntryView,
    piece: PieceView,
    coefficients: Seq<u8>,
) -> PubsubFrameView {
    let pieces = entry.recoder.pieces.push(piece);
    let combination = PieceView {
        coding: gf_combine(coefficients, Seq::new(pieces.len(), |i: int| pieces[i].coding)),
        data: gf_combine(coefficients, Seq::new(pieces.len(), |i: int| pieces[i].data)),
    };
    PubsubFrameView {
        topic,
        k: piece.coding.len(),
        b: piece.data.len(),
        wire: WirePieceView {
            commitment: entry.commitment,
            piece: combination,
            tag: auth.tags(entry.commitment, combination),
        },
    }
}

/// A piece that is relayed goes, recoded, to every established peer but the one that
/// it came from: one datagram for each, none for anybody else, and as many as the
/// event says.
pub proof fn relayed_pieces_reach_every_other_peer<A: WireAuthenticator>(
    mux: MuxView<A>,
    from: UdpAddr,
    frame: PubsubFrameView,
    coefficients: Result<Seq<u8>, Seq<char>>,
)
    requires
        mux.host.established.dom().finite(),
        mux.state.recoders.dom().contains(frame.topic),
    ensures
        mux.on_relay(from, frame, coefficients) matches Ok(step) ==> (step.event is PubsubRelayed
            ==> {
            let entry = mux.state.recoders[frame.topic];
            let reached = mux.host.established.dom().remove(from);
            let sent = recoded(
                mux.state.auth,
                frame.topic,
                entry,
                frame.wire.piece,
                coefficients->Ok_0,
            );
            &&& coefficients is Ok
            &&& coefficients->Ok_0.len() == entry.recoder.pieces.len() + 1
            &&& step.event == MuxEventView::PubsubRelayed {
                from,
                topic: frame.topic,
                fanout_count: reached.len(),
            }
            &&& step.outbound.len() == reached.len()
            &&& forall|a: UdpAddr| #[trigger]
                addressed_to(step.outbound, a) == if mux.host.established.dom().contains(a) && a
                    != from {
                    seq![
                        OutboundView {
                            addr: a,
                            datagram: mux.host.established[a].transport.datagram(
                                seq![0x01u8] + sent.bytes(),
                            ),
                        },
                    ]
                } else {
                    Seq::empty()
                }
        }),
{
    lemma_established(mux.host);
    let all = listing::<UdpAddr>(mux.host.established.dom());
    lemma_without(all, from);
    let addrs = others(mux.host, from);
    if let Ok(step) = mux.on_relay(from, frame, coefficients) {
        if step.event is PubsubRelayed {
            let c = coefficients->Ok_0;
            let entry = mux.state.recoders[frame.topic];
            let out = mux.state.relay_frame(frame, c);
            let pieces = entry.recoder.pieces.push(frame.wire.piece);
            assert(pieces.map_values(|p: PieceView| p.coding) =~= Seq::new(
                pieces.len(),
                |i: int| pieces[i].coding,
            ));
            assert(pieces.map_values(|p: PieceView| p.data) =~= Seq::new(
                pieces.len(),
                |i: int| pieces[i].data,
            ));
            let sent = recoded(mux.state.auth, frame.topic, entry, frame.wire.piece, c);
            assert(out == sent);
            let plaintext = seq![KIND_PUBSUB] + out.bytes();
            assert forall|a: UdpAddr| #[trigger]
                addressed_to(step.outbound, a) == if mux.host.established.dom().contains(a) && a
                    != from {
                    seq![
                        OutboundView {
                            addr: a,
                            datagram: mux.host.established[a].transport.datagram(
                                seq![0x01u8] + sent.bytes(),
                            ),
                        },
                    ]
                } else {
                    Seq::empty()
                } by {
                lemma_fan_out(mux.host, addrs, plaintext, a);
                assert(addrs.contains(a) <==> all.contains(a) && a != from);
            }
            lemma_fan_out(mux.host, addrs, plaintext, from);
            assert(all.contains(from) <==> mux.host.established.dom().contains(from));
        }
    }
}

/// A piece that a relay takes is relayed wherever the random source serves it, the
/// shape fits into the frame, and every other session can send.
pub proof fn fresh_pieces_are_relayed<A: WireAuthenticator>(
    mux: MuxView<A>,
    from: UdpAddr,
    frame: PubsubFrameView,
    coefficients: Seq<u8>,
)
    requires
        mux.host.established.dom().finite(),
        mux.state.recoders.dom().contains(frame.topic),
        mux.state.relays(frame),
        coefficients.len() == mux.state.recoders[frame.topic].recoder.pieces.len() + 1,
        frame.wire.piece.coding.len() <= u32::MAX,
        frame.wire.piece.data.len() <= u32::MAX,
        forall|a: UdpAddr|
            #![trigger mux.host.established[a]]
            mux.host.established.dom().contains(a) && a != from
                ==> mux.host.established[a].transport.send_error(
                seq![0x01u8] + recoded(
                    mux.state.auth,
                    frame.topic,
                    mux.state.recoders[frame.topic],
                    frame.wire.piece,
                    coefficients,
                ).bytes(),
            ) is None,
    ensures
        mux.on_relay(from, frame, Ok(coefficients)) matches Ok(step) && step.event is PubsubRelayed,
        ({
            let step = mux.on_relay(from, frame, Ok(coefficients))->Ok_0;
            let was = mux.state.recoders[frame.topic];
            let is = step.mux.state.recoders[frame.topic];
            &&& is.recoder.pieces == was.recoder.pieces.push(frame.wire.piece)
            &&& is.recoder.k == was.recoder.k && is.recoder.b == was.recoder.b
            &&& is.tracker.rows == reduced_rows(
                was.tracker.rows.push(frame.wire.piece.coding + frame.wire.piece.data),
            )
            &&& is.commitment == was.commitment
            &&& is.last_activity == step.mux.state.tick
        }),
{
    lemma_established(mux.host);
    let all = listing::<UdpAddr>(mux.host.established.dom());
    lemma_without(all, from);
    let addrs = others(mux.host, from);
    let entry = mux.state.recoders[frame.topic];
    let out = mux.state.relay_frame(frame, coefficients);
    let pieces = entry.recoder.pieces.push(frame.wire.piece);
    assert(pieces.map_values(|p: PieceView| p.coding) =~= Seq::new(
        pieces.len(),
        |i: int| pieces[i].coding,
    ));
    assert(pieces.map_values(|p: PieceView| p.data) =~= Seq::new(
        pieces.len(),
        |i: int| pieces[i].data,
    ));
    assert(out == recoded(mux.state.auth, frame.topic, entry, frame.wire.piece, coefficients));
    let plaintext = seq![KIND_PUBSUB] + out.bytes();
    assert forall|i: int| 0 <= i < addrs.len() implies mux.host.established.dom().contains(
        #[trigger] addrs[i],
    ) && mux.host.established[addrs[i]].transport.send_error(plaintext) is None by {
        assert(addrs.contains(addrs[i]));
        assert(all.contains(addrs[i]));
    }
    fan_outs_reach_every_address(mux.host, addrs, plaintext, addrs.len());
}

// -------------------------------------------------------------- broadcasting

/// A session after `n` more datagrams went out.
pub open spec fn sent_times(transport: TransportView, n: nat) -> TransportView {
    TransportView {
        send_key: transport.send_key,
        send_nonce: (transport.send_nonce + n) as u64,
        recv_key: transport.recv_key,
        recv_max_nonce: transport.recv_max_nonce,
        recv_replay_window: transport.recv_replay_window,
    }
}

/// What goes to a peer in a run of frames.
pub open spec fn run_for(conn: TransportView, a: UdpAddr, frames: Seq<Seq<u8>>, n: nat) -> Seq<
    OutboundView,
> {
    Seq::new(
        n,
        |i: int|
            OutboundView {
                addr: a,
                datagram: sent_times(conn, i as nat).datagram(seq![0x01u8] + frames[i]),
            },
    )
}

/// Every frame goes to every address, one after the other.
proof fn lemma_frames_reach_all(
    host: HostView,
    addrs: Seq<UdpAddr>,
    frames: Seq<Seq<u8>>,
    n: nat,
    a: UdpAddr,
)
    requires
        n <= frames.len(),
        forall|i: int, j: int|
            0 <= i < j < addrs.len() ==> #[trigger] addrs[i] != #[trigger] addrs[j],
        n > 0 ==> forall|i: int|
            0 <= i < addrs.len() ==> host.established.dom().contains(#[trigger] addrs[i]),
    ensures
        frames_sent(host, addrs, frames, n) matches Ok((after, out)) ==> {
            &&& out.len() == n * addrs.len()
            &&& addressed_to(out, a) == if addrs.contains(a) {
                run_for(host.established[a].transport, a, frames, n)
            } else {
                Seq::empty()
            }
            &&& after.established.dom() == host.established.dom()
            &&& forall|i: int|
                0 <= i < addrs.len() ==> after.established[#[trigger] addrs[i]].transport
                    == sent_times(host.established[addrs[i]].transport, n)
                    && host.established[addrs[i]].transport.send_nonce + n <= u64::MAX
            &&& after.handshakes == host.handshakes
        },
    decreases n,
{
    reveal(Seq::filter);
    if n == 0 {
        assert(addressed_to(Seq::<OutboundView>::empty(), a) =~= Seq::<OutboundView>::empty());
        assert(run_for(host.established[a].transport, a, frames, 0) =~= Seq::<
            OutboundView,
        >::empty());
        assert(0 * addrs.len() == 0);
    } else {
        let m = (n - 1) as nat;
        lemma_frames_reach_all(host, addrs, frames, m, a);
        if let Ok((mid, before)) = frames_sent(host, addrs, frames, m) {
            let plaintext = seq![KIND_PUBSUB] + frames[m as int];
            lemma_fan_out(mid, addrs, plaintext, a);
            fan_outs_reach_every_address(mid, addrs, plaintext, addrs.len());
            if let Ok((after, more)) = sent_to_each(mid, addrs, plaintext, addrs.len()) {
                lemma_addressed_concat(before, more, a);
                assert(n * addrs.len() == m * addrs.len() + addrs.len()) by (nonlinear_arith)
                    requires
                        n == m + 1,
                ;
                assert forall|i: int| 0 <= i < addrs.len() implies after.established[#[trigger] addrs[i]].transport
                    == sent_times(host.established[addrs[i]].transport, n)
                    && host.established[addrs[i]].transport.send_nonce + n <= u64::MAX by {
                    assert(mid.established[addrs[i]].transport == sent_times(
                        host.established[addrs[i]].transport,
                        m,
                    ));
                    lemma_sent_each_could(mid, addrs, plaintext, addrs.len(), i);
                }
                if addrs.contains(a) {
                    let q = addrs.index_of(a);
                    assert(mid.established[addrs[q]].transport == sent_times(
                        host.established[addrs[q]].transport,
                        m,
                    ));
                    assert(run_for(host.established[a].transport, a, frames, n) =~= run_for(
                        host.established[a].transport,
                        a,
                        frames,
                        m,
                    ) + seq![
                        OutboundView {
                            addr: a,
                            datagram: mid.established[a].transport.datagram(plaintext),
                        },
                    ]);
                } else {
                    assert(addressed_to(before + more, a) =~= Seq::<OutboundView>::empty());
                }
            }
        }
    }
}

/// Where a plaintext went to each address, each could be sent to.
proof fn lemma_sent_each_could(
    host: HostView,
    addrs: Seq<UdpAddr>,
    plaintext: Seq<u8>,
    n: nat,
    i: int,
)
    requires
        0 <= i < n <= addrs.len(),
        forall|p: int, q: int|
            0 <= p < q < addrs.len() ==> #[trigger] addrs[p] != #[trigger] addrs[q],
        sent_to_each(host, addrs, plaintext, n) is Ok,
    ensures
        host.established[addrs[i]].transport.send_nonce < u64::MAX,
    decreases n,
{
    let m = (n - 1) as nat;
    if i < m {
        lemma_sent_each_could(host, addrs, plaintext, m, i);
    } else {
        fan_outs_reach_every_address(host, addrs, plaintext, m);
        assert(forall|p: int| 0 <= p < m ==> #[trigger] addrs[p] != addrs[m as int]);
        let (mid, _) = sent_to_each(host, addrs, plaintext, m)->Ok_0;
        assert(mid.established[addrs[i]] == host.established[addrs[i]]);
    }
}

/// The frame of a piece of a generation that a source sends: under the commitment to
/// the generation, and tagged for it.
pub open spec fn sourced<A: WireAuthenticator>(
    auth: A,
    topic: Seq<u8>,
    originals: Seq<Seq<u8>>,
    piece: PieceView,
) -> PubsubFrameView {
    PubsubFrameView {
        topic,
        k: originals.len(),
        b: originals[0].len(),
        wire: WirePieceView {
            commitment: auth.commits(originals),
            piece,
            tag: auth.tags(auth.commits(originals), piece),
        },
    }
}

/// A broadcast that succeeds sends every piece to every established peer: to each as
/// many datagrams as there are pieces, the first with the first piece and so on, and
/// nothing to anybody else. The topics stay as they are.
pub proof fn broadcasts_reach_every_peer<A: WireAuthenticator>(
    mux: MuxView<A>,
    topic: Seq<u8>,
    originals: Seq<Seq<u8>>,
    pieces: Seq<PieceView>,
)
    requires
        mux.host.established.dom().finite(),
    ensures
        mux.broadcast_pieces(topic, originals, pieces) matches Ok((after, out)) ==> {
            &&& out.len() == pieces.len() * mux.host.established.dom().len()
            &&& forall|a: UdpAddr| #[trigger]
                addressed_to(out, a) == if mux.host.established.dom().contains(a) {
                    Seq::new(
                        pieces.len(),
                        |i: int|
                            OutboundView {
                                addr: a,
                                datagram: sent_times(
                                    mux.host.established[a].transport,
                                    i as nat,
                                ).datagram(
                                    seq![0x01u8] + sourced(
                                        mux.state.auth,
                                        topic,
                                        originals,
                                        pieces[i],
                                    ).bytes(),
                                ),
                            },
                    )
                } else {
                    Seq::empty()
                }
            &&& after.state == mux.state
            &&& after.host.established.dom() == mux.host.established.dom()
            &&& after.host.handshakes == mux.host.handshakes
        },
{
    lemma_established(mux.host);
    let addrs = listing::<UdpAddr>(mux.host.established.dom());
    let frames = pieces.map_values(
        |p: PieceView| mux.state.source_frame(topic, originals, p).bytes(),
    );
    assert forall|i: int| 0 <= i < addrs.len() implies mux.host.established.dom().contains(
        #[trigger] addrs[i],
    ) by {
        assert(addrs.contains(addrs[i]));
    }
    if let Ok((after, out)) = mux.broadcast_pieces(topic, originals, pieces) {
        assert forall|a: UdpAddr| #[trigger]
            addressed_to(out, a) == if mux.host.established.dom().contains(a) {
                Seq::new(
                    pieces.len(),
                    |i: int|
                        OutboundView {
                            addr: a,
                            datagram: sent_times(
                                mux.host.established[a].transport,
                                i as nat,
                            ).datagram(
                                seq![0x01u8] + sourced(
                                    mux.state.auth,
                                    topic,
                                    originals,
                                    pieces[i],
                                ).bytes(),
                            ),
                        },
                )
            } else {
                Seq::empty()
            } by {
            lemma_frames_reach_all(mux.host, addrs, frames, frames.len(), a);
            if mux.host.established.dom().contains(a) {
                assert(addrs.contains(a));
                let run = run_for(mux.host.established[a].transport, a, frames, frames.len());
                assert(run =~= Seq::new(
                    pieces.len(),
                    |i: int|
                        OutboundView {
                            addr: a,
                            datagram: sent_times(
                                mux.host.established[a].transport,
                                i as nat,
                            ).datagram(
                                seq![0x01u8] + sourced(
                                    mux.state.auth,
                                    topic,
                                    originals,
                                    pieces[i],
                                ).bytes(),
                            ),
                        },
                ));
            }
        }
        lemma_frames_reach_all(mux.host, addrs, frames, frames.len(), arbitrary());
    }
}

/// Where every session can carry the frames, each of them goes out.
proof fn lemma_frames_succeed(host: HostView, addrs: Seq<UdpAddr>, frames: Seq<Seq<u8>>, n: nat)
    requires
        n <= frames.len(),
        forall|i: int, j: int|
            0 <= i < j < addrs.len() ==> #[trigger] addrs[i] != #[trigger] addrs[j],
        forall|i: int|
            0 <= i < addrs.len() ==> host.established.dom().contains(#[trigger] addrs[i])
                && host.established[addrs[i]].transport.send_nonce + frames.len() <= u64::MAX,
        forall|i: int| 0 <= i < frames.len() ==> (#[trigger] frames[i]).len() < 0xffff_ffff,
    ensures
        frames_sent(host, addrs, frames, n) is Ok,
    decreases n,
{
    if n > 0 {
        let m = (n - 1) as nat;
        lemma_frames_succeed(host, addrs, frames, m);
        if addrs.len() > 0 {
            lemma_frames_reach_all(host, addrs, frames, m, addrs[0]);
        } else {
            lemma_frames_reach_all(host, addrs, frames, m, arbitrary());
        }
        let (mid, _) = frames_sent(host, addrs, frames, m)->Ok_0;
        let plaintext = seq![KIND_PUBSUB] + frames[m as int];
        assert forall|i: int| 0 <= i < addrs.len() implies mid.established.dom().contains(
            #[trigger] addrs[i],
        ) && mid.established[addrs[i]].transport.send_error(plaintext) is None by {
            assert(mid.established[addrs[i]].transport == sent_times(
                host.established[addrs[i]].transport,
                m,
            ));
        }
        fan_outs_reach_every_address(mid, addrs, plaintext, addrs.len());
    }
}

/// A broadcast succeeds where the shape of the generation fits into a frame and
/// every session can send as many datagrams of that size.
pub proof fn broadcasts_succeed_where_nothing_hinders<A: WireAuthenticator>(
    mux: MuxView<A>,
    topic: Seq<u8>,
    originals: Seq<Seq<u8>>,
    pieces: Seq<PieceView>,
)
    requires
        mux.host.established.dom().finite(),
        originals.len() <= u32::MAX,
        originals[0].len() <= u32::MAX,
        forall|a: UdpAddr| #[trigger]
            mux.host.established.dom().contains(a)
                ==> mux.host.established[a].transport.send_nonce + pieces.len() <= u64::MAX,
        forall|i: int|
            0 <= i < pieces.len() ==> sourced(
                mux.state.auth,
                topic,
                originals,
                #[trigger] pieces[i],
            ).bytes().len() < 0xffff_ffff,
    ensures
        mux.broadcast_pieces(topic, originals, pieces) is Ok,
{
    lemma_established(mux.host);
    let addrs = listing::<UdpAddr>(mux.host.established.dom());
    let frames = pieces.map_values(
        |p: PieceView| mux.state.source_frame(topic, originals, p).bytes(),
    );
    assert forall|i: int| 0 <= i < addrs.len() implies mux.host.established.dom().contains(
        #[trigger] addrs[i],
    ) && mux.host.established[addrs[i]].transport.send_nonce + frames.len() <= u64::MAX by {
        assert(addrs.contains(addrs[i]));
    }
    assert forall|i: int| 0 <= i < frames.len() implies (#[trigger] frames[i]).len() < 0xffff_ffff by {
        assert(frames[i] == sourced(mux.state.auth, topic, originals, pieces[i]).bytes());
    }
    lemma_frames_succeed(mux.host, addrs, frames, frames.len());
}

// -------------------------------------------------------------------- topics

/// Whether two states agree on a topic.
pub open spec fn same_topic<A: WireAuthenticator>(
    a: PubsubView<A>,
    b: PubsubView<A>,
    topic: Seq<u8>,
) -> bool {
    &&& a.decoders.dom().contains(topic) <==> b.decoders.dom().contains(topic)
    &&& a.decoders.dom().contains(topic) ==> a.decoders[topic] == b.decoders[topic]
    &&& a.recoders.dom().contains(topic) <==> b.recoders.dom().contains(topic)
    &&& a.recoders.dom().contains(topic) ==> a.recoders[topic] == b.recoders[topic]
}

/// Registering a topic gives it an empty decoder, or an empty recoder, of the given
/// shape and commitment, touched just now, and touches no other topic.
pub proof fn registered_topics_start_empty<A: WireAuthenticator>(
    state: PubsubView<A>,
    topic: Seq<u8>,
    k: nat,
    b: nat,
    commitment: Seq<u8>,
    other: Seq<u8>,
)
    ensures
        ({
            let after = state.decoding(topic, k, b, commitment);
            &&& after.decoders.dom().contains(topic)
            &&& after.decoders[topic].state.rows.len() == 0
            &&& after.decoders[topic].state.k == k && after.decoders[topic].state.b == b
            &&& after.decoders[topic].commitment == commitment
            &&& after.decoders[topic].last_activity == after.tick
            &&& after.recoders == state.recoders
            &&& after.auth == state.auth
            &&& other != topic ==> same_topic(state, after, other)
        }),
        ({
            let after = state.relaying(topic, k, b, commitment);
            &&& after.recoders.dom().contains(topic)
            &&& after.recoders[topic].recoder.pieces.len() == 0
            &&& after.recoders[topic].tracker.rows.len() == 0
            &&& after.recoders[topic].recoder.k == k && after.recoders[topic].recoder.b == b
            &&& after.recoders[topic].tracker.k == k && after.recoders[topic].tracker.b == b
            &&& after.recoders[topic].commitment == commitment
            &&& after.recoders[topic].last_activity == after.tick
            &&& after.decoders == state.decoders
            &&& after.auth == state.auth
            &&& other != topic ==> same_topic(state, after, other)
        }),
{
}

/// The clock moves on with every operation that touches the state, and starts over
/// only after its last tick.
pub proof fn clocks_move_on<A: WireAuthenticator>(
    state: PubsubView<A>,
    topic: Seq<u8>,
    k: nat,
    b: nat,
    commitment: Seq<u8>,
)
    requires
        state.tick < u64::MAX,
    ensures
        state.ticked().tick == state.tick + 1,
        state.ticked().decoders == state.decoders,
        state.ticked().recoders == state.recoders,
        state.ticked().auth == state.auth,
        state.decoding(topic, k, b, commitment).tick == state.tick + 1,
        state.relaying(topic, k, b, commitment).tick == state.tick + 1,
{
}

/// A decoder or recoder is idle exactly if it was last touched more than the given
/// number of ticks ago.
pub proof fn idle_topics_were_not_touched<A: WireAuthenticator>(
    state: PubsubView<A>,
    max_idle_ticks: u64,
    topic: Seq<u8>,
)
    ensures
        state.idle_decoders(max_idle_ticks).contains(topic) <==> state.decoders.dom().contains(
            topic,
        ) && state.tick - state.decoders[topic].last_activity > max_idle_ticks,
        state.idle_recoders(max_idle_ticks).contains(topic) <==> state.recoders.dom().contains(
            topic,
        ) && state.tick - state.recoders[topic].last_activity > max_idle_ticks,
        ({
            let kept = crate::activity::kept(
                state.decoders,
                crate::pubsub::state::decoder_activity(state.decoders),
                crate::activity::idle_cutoff(state.tick, max_idle_ticks),
            );
            &&& kept.dom().contains(topic) <==> state.decoders.dom().contains(topic)
                && !state.idle_decoders(max_idle_ticks).contains(topic)
            &&& kept.dom().contains(topic) ==> kept[topic] == state.decoders[topic]
        }),
        ({
            let kept = crate::activity::kept(
                state.recoders,
                crate::pubsub::state::recoder_activity(state.recoders),
                crate::activity::idle_cutoff(state.tick, max_idle_ticks),
            );
            &&& kept.dom().contains(topic) <==> state.recoders.dom().contains(topic)
                && !state.idle_recoders(max_idle_ticks).contains(topic)
            &&& kept.dom().contains(topic) ==> kept[topic] == state.recoders[topic]
        }),
{
}

/// A piece touches its own topic alone: whatever a node decodes or relays besides
/// stays as it was, and so does the authenticator.
pub proof fn pieces_touch_their_own_topic<A: WireAuthenticator>(
    mux: MuxView<A>,
    addr: UdpAddr,
    plaintext: Seq<u8>,
    coefficients: Result<Seq<u8>, Seq<char>>,
    other: Seq<u8>,
)
    ensures
        mux.on_plaintext(addr, plaintext, coefficients) matches Ok(step) ==> {
            &&& step.mux.state.auth == mux.state.auth
            &&& match frame_in::<A>(plaintext) {
                Some(frame) => other != frame.topic ==> same_topic(mux.state, step.mux.state, other),
                None => step.mux == mux && step.outbound.len() == 0,
            }
        },
{
}

/// A frame for a topic that the node neither decodes nor relays is refused, as is
/// what is no frame at all: nothing changes and nothing is sent.
pub proof fn strange_topics_change_nothing<A: WireAuthenticator>(
    mux: MuxView<A>,
    addr: UdpAddr,
    plaintext: Seq<u8>,
    coefficients: Result<Seq<u8>, Seq<char>>,
)
    requires
        plaintext.len() > 0,
        plaintext[0] == 0x01,
        frame_in::<A>(plaintext) matches Some(frame) ==> !mux.state.decoders.dom().contains(
            frame.topic,
        ) && !mux.state.recoders.dom().contains(frame.topic),
    ensures
        mux.on_plaintext(addr, plaintext, coefficients) matches Ok(step) && step.mux == mux
            && step.outbound.len() == 0 && (step.event matches MuxEventView::Rejected { addr: a, .. }
            && a == addr),
{
}

/// Raw data arrives as it was sent, with the address of its sender; the node stays
/// as it is.
pub proof fn raw_data_arrives<A: WireAuthenticator>(
    mux: MuxView<A>,
    addr: UdpAddr,
    payload: Seq<u8>,
    coefficients: Result<Seq<u8>, Seq<char>>,
)
    ensures
        mux.on_plaintext(addr, seq![0x00u8] + payload, coefficients) matches Ok(step) && step.mux
            == mux && step.outbound.len() == 0 && step.event == (MuxEventView::AppData {
            addr,
            bytes: payload,
        }),
{
    assert((seq![0x00u8] + payload).skip(1) =~= payload);
}

/// A genuine piece that fits becomes a row of its topic's decoder. While the rank is
/// short of the number of pieces, the decoder waits on and counts as touched;
/// once it is not, the decoder is gone and the data in front of the marker is
/// delivered.
pub proof fn decoders_gather_rows<A: WireAuthenticator>(
    mux: MuxView<A>,
    addr: UdpAddr,
    frame: PubsubFrameView,
)
    requires
        mux.state.decoders.dom().contains(frame.topic),
        mux.state.auth.accepts(
            mux.state.decoders[frame.topic].commitment,
            frame.wire.piece,
            frame.wire.tag,
        ),
        misfit(
            frame.wire.piece,
            mux.state.decoders[frame.topic].state.k,
            mux.state.decoders[frame.topic].state.b,
        ) is None,
    ensures
        ({
            let topic = frame.topic;
            let was = mux.state.decoders[topic];
            let k = was.state.k;
            let rows = reduced_rows(
                was.state.rows.push(frame.wire.piece.coding + frame.wire.piece.data),
            );
            let step = mux.on_decoder(addr, frame);
            let after = step.mux.state;
            &&& step.outbound.len() == 0
            &&& step.mux.host == mux.host
            &&& coding_rank(rows, k) < k ==> {
                &&& step.event == MuxEventView::PubsubAbsorbed { addr, topic }
                &&& after.decoders.dom().contains(topic)
                &&& after.decoders[topic].state.rows == rows
                &&& after.decoders[topic].state.k == k
                &&& after.decoders[topic].state.b == was.state.b
                &&& after.decoders[topic].commitment == was.commitment
                &&& after.decoders[topic].last_activity == after.tick
            }
            &&& coding_rank(rows, k) >= k ==> {
                &&& !after.decoders.dom().contains(topic)
                &&& match unpadded(
                    joined(rows.take(k as int).map_values(|row: Seq<u8>| row.skip(k as int))),
                ) {
                    Some(data) => step.event == MuxEventView::PubsubDelivered { addr, topic, data },
                    None => step.event is Rejected,
                }
            }
        }),
{
    let was = mux.state.decoders[frame.topic];
    let k = was.state.k as int;
    let rows = reduced_rows(was.state.rows.push(frame.wire.piece.coding + frame.wire.piece.data));
    let next = was.state.absorbed(frame.wire.piece);
    assert(next.rows == rows);
    assert(next.solution() =~= rows.take(k).map_values(|row: Seq<u8>| row.skip(k)));
}

/// A genuine piece that does not fit its topic's decoder ends the decoding; one with
/// a bad tag changes nothing.
pub proof fn refused_pieces_are_not_decoded<A: WireAuthenticator>(
    mux: MuxView<A>,
    addr: UdpAddr,
    frame: PubsubFrameView,
)
    requires
        mux.state.decoders.dom().contains(frame.topic),
    ensures
        ({
            let was = mux.state.decoders[frame.topic];
            let genuine = mux.state.auth.accepts(was.commitment, frame.wire.piece, frame.wire.tag);
            let step = mux.on_decoder(addr, frame);
            &&& !genuine ==> step.mux == mux
            &&& genuine && misfit(frame.wire.piece, was.state.k, was.state.b) is Some
                ==> !step.mux.state.decoders.dom().contains(frame.topic) && step.mux.host
                == mux.host && step.mux.state.tick == mux.state.tick
            &&& !genuine || misfit(frame.wire.piece, was.state.k, was.state.b) is Some
                ==> step.outbound.len() == 0 && (step.event matches MuxEventView::Rejected {
                addr: a,
                ..
            } && a == addr)
        }),
{
}

/// A relay comes before a decoder: a frame for a topic that the node relays is
/// relayed, and only otherwise decoded.
pub proof fn relays_come_first<A: WireAuthenticator>(
    mux: MuxView<A>,
    addr: UdpAddr,
    plaintext: Seq<u8>,
    coefficients: Result<Seq<u8>, Seq<char>>,
    frame: PubsubFrameView,
)
    requires
        frame_in::<A>(plaintext) == Some(frame),
    ensures
        mux.state.recoders.dom().contains(frame.topic) ==> mux.on_plaintext(
            addr,
            plaintext,
            coefficients,
        ) == mux.on_relay(addr, frame, coefficients),
        !mux.state.recoders.dom().contains(frame.topic) && mux.state.decoders.dom().contains(
            frame.topic,
        ) ==> mux.on_plaintext(addr, plaintext, coefficients) == Ok::<MuxStepView<A>, FailureView>(
            mux.on_decoder(addr, frame),
        ),
{
}

/// A piece that tells a relay nothing new counts as activity and changes nothing else;
/// one that does not fit changes nothing at all. Neither is sent on.
pub proof fn idle_pieces_leave_a_relay_alone<A: WireAuthenticator>(
    mux: MuxView<A>,
    addr: UdpAddr,
    frame: PubsubFrameView,
    coefficients: Result<Seq<u8>, Seq<char>>,
)
    requires
        mux.state.recoders.dom().contains(frame.topic),
        mux.state.auth.accepts(
            mux.state.recoders[frame.topic].commitment,
            frame.wire.piece,
            frame.wire.tag,
        ),
    ensures
        ({
            let was = mux.state.recoders[frame.topic];
            let full = coding_rank(was.tracker.rows, was.tracker.k) >= was.tracker.k;
            let grown = reduced_rows(
                was.tracker.rows.push(frame.wire.piece.coding + frame.wire.piece.data),
            );
            let fits = misfit(frame.wire.piece, was.tracker.k, was.tracker.b) is None;
            let known = coding_rank(grown, was.tracker.k) == coding_rank(
                was.tracker.rows,
                was.tracker.k,
            );
            &&& full || fits && known ==> (mux.on_relay(addr, frame, coefficients) matches Ok(step)
                && {
                let is = step.mux.state.recoders[frame.topic];
                &&& step.event == MuxEventView::PubsubRedundant { addr, topic: frame.topic }
                &&& step.outbound.len() == 0
                &&& step.mux.host == mux.host
                &&& is.recoder == was.recoder && is.tracker == was.tracker && is.commitment
                    == was.commitment
                &&& is.last_activity == step.mux.state.tick
                &&& step.mux.state.decoders == mux.state.decoders
            })
            &&& !full && !fits ==> (mux.on_relay(addr, frame, coefficients) matches Ok(step)
                && step.mux == mux && step.outbound.len() == 0 && (step.event matches
                MuxEventView::Rejected { addr: a, .. } && a == addr))
            &&& !full && fits && !known ==> match coefficients {
                Ok(_) => !(mux.on_relay(addr, frame, coefficients) matches Ok(step) && !(
                step.event is PubsubRelayed)),
                Err(_) => mux.on_relay(addr, frame, coefficients) is Err,
            }
        }),
{
}

/// What the host has to send goes out, and what it has to say reaches the caller; a
/// plaintext is processed as such.
pub proof fn host_events_are_passed_on<A: WireAuthenticator>(
    mux: MuxView<A>,
    event: HostEventView,
    outbound: Option<OutboundView>,
    coefficients: Result<Seq<u8>, Seq<char>>,
)
    ensures
        match event {
            HostEventView::DatagramDelivered { addr, plaintext } => mux.on_host_event(
                event,
                outbound,
                coefficients,
            ) == mux.on_plaintext(addr, plaintext, coefficients),
            _ => mux.on_host_event(event, outbound, coefficients) matches Ok(step) && step.mux
                == mux && match outbound {
                Some(o) => step.outbound == seq![o],
                None => step.outbound.len() == 0,
            } && step.event == match event {
                HostEventView::HandshakeProgress { addr } => MuxEventView::HandshakeProgress {
                    addr,
                },
                HostEventView::HandshakeComplete { addr, remote_static, remote_peer_id } => {
                    MuxEventView::HandshakeComplete { addr, remote_static, remote_peer_id }
                },
                HostEventView::Rejected { addr, reason } => MuxEventView::Rejected { addr, reason },
                HostEventView::DatagramDelivered { addr, plaintext } => MuxEventView::AppData {
                    addr,
                    bytes: plaintext,
                },
            },
        },
{
}

/// A broadcast that fails hands out the datagrams of the pieces before the one that
/// failed, and those of that piece before the failure.
pub proof fn failed_broadcasts_hand_out_what_came_before(
    host: HostView,
    addrs: Seq<UdpAddr>,
    frames: Seq<Seq<u8>>,
    n: nat,
) -> (i: nat)
    requires
        frames_sent(host, addrs, frames, n) is Err,
    ensures
        i < n,
        frames_sent(host, addrs, frames, i) matches Ok((mid, out)) && frames_sent(
            host,
            addrs,
            frames,
            n,
        ) matches Err(e) && sent_to_each(
            mid,
            addrs,
            seq![0x01u8] + frames[i as int],
            addrs.len(),
        ) matches Err(inner) && e.error == inner.error && e.outbound == out + inner.outbound,
    decreases n,
{
    let m = (n - 1) as nat;
    if frames_sent(host, addrs, frames, m) is Err {
        failed_broadcasts_hand_out_what_came_before(host, addrs, frames, m)
    } else {
        m
    }
}

/// A relay asks its random source exactly where it takes a piece, for one coefficient
/// for each piece that it then stores.
pub proof fn relays_ask_for_one_coefficient_each<A: WireAuthenticator>(
    mux: MuxView<A>,
    plaintext: Seq<u8>,
    frame: PubsubFrameView,
)
    requires
        frame_in::<A>(plaintext) == Some(frame),
    ensures
        ({
            let entry = mux.state.recoders[frame.topic];
            let piece = frame.wire.piece;
            let rank = coding_rank(entry.tracker.rows, entry.tracker.k);
            let grown = reduced_rows(entry.tracker.rows.push(piece.coding + piece.data));
            let taken = mux.state.recoders.dom().contains(frame.topic) && mux.state.auth.accepts(
                entry.commitment,
                piece,
                frame.wire.tag,
            ) && rank < entry.tracker.k && misfit(piece, entry.tracker.k, entry.tracker.b) is None
                && coding_rank(grown, entry.tracker.k) != rank;
            mux.wants(plaintext) == if taken {
                Some((entry.recoder.pieces.len() + 1) as nat)
            } else {
                None
            }
        }),
{
}

/// A piece that a source makes of a vector carries that vector, and the combination of
/// the generation that it describes.
pub proof fn sources_code_what_they_are_given(originals: Seq<Seq<u8>>, vector: Seq<u8>)
    ensures
        crate::pubsub::mux::coded(originals, vector).coding == vector,
        crate::pubsub::mux::coded(originals, vector).data == gf_combine(vector, originals),
{
}

/// A relay that fails has failed to be served by its random source, to frame what it
/// has to send, or to send it: in the last case it hands out the datagrams for the
/// peers before the one that could not be sent to, otherwise none.
pub proof fn failed_relays_hand_out_what_came_before<A: WireAuthenticator>(
    mux: MuxView<A>,
    from: UdpAddr,
    frame: PubsubFrameView,
    coefficients: Result<Seq<u8>, Seq<char>>,
)
    requires
        mux.state.recoders.dom().contains(frame.topic),
    ensures
        mux.on_relay(from, frame, coefficients) matches Err(e) ==> {
            let entry = mux.state.recoders[frame.topic];
            let served = coefficients matches Ok(c) && c.len() == entry.recoder.pieces.len() + 1;
            let framed = frame.wire.piece.coding.len() <= u32::MAX && frame.wire.piece.data.len()
                <= u32::MAX;
            let addrs = others(mux.host, from);
            let sent = recoded(
                mux.state.auth,
                frame.topic,
                entry,
                frame.wire.piece,
                coefficients->Ok_0,
            );
            &&& !served || !framed ==> e.outbound.len() == 0
            &&& served && framed ==> (sent_to_each(
                mux.host,
                addrs,
                seq![0x01u8] + sent.bytes(),
                addrs.len(),
            ) matches Err(inner) && inner == e)
        },
{
    if let Ok(c) = coefficients {
        let entry = mux.state.recoders[frame.topic];
        let out = mux.state.relay_frame(frame, c);
        let pieces = entry.recoder.pieces.push(frame.wire.piece);
        assert(pieces.map_values(|p: PieceView| p.coding) =~= Seq::new(
            pieces.len(),
            |i: int| pieces[i].coding,
        ));
        assert(pieces.map_values(|p: PieceView| p.data) =~= Seq::new(
            pieces.len(),
            |i: int| pieces[i].data,
        ));
        assert(out == recoded(mux.state.auth, frame.topic, entry, frame.wire.piece, c));
    }
}

} // verus!
