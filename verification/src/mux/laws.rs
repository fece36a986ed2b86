//! That every protocol finds its own plaintexts, and that nothing is lost or changed
//! on the way to the caller.
use vstd::prelude::*;
use crate::addr::{OutboundView, UdpAddr};
use crate::host::event::HostEventView;
use crate::kad::bucket::Peers;
use crate::kad::codec::{parse, FrameView};
use crate::kad::distance::bucket_of;
use crate::kad::event::KadEventView;
use crate::kad::laws::nearest;
use crate::kad::lookup::LookupView;
use crate::kad::node::node_id_of_peer;
use crate::kad::node_id::{distance_of, NodeId};
use crate::kad::node_laws::{offered_peers_come_first, requests_are_answered_with_the_nearest};
use crate::kad::search_laws::connected_peers_wait_to_be_asked;
use crate::error::ErrorView;
use crate::mux::event::{InboundView, MultiProtocolEventView, RendezvousEventView};
use crate::mux::node::{lookup_on_event, MultiView};
use crate::pubsub::auth::WireAuthenticator;
use crate::pubsub::event::MuxEventView;

verus! {

// --------------------------------------------------------------- dispatching

/// Raw data, an RPC envelope and a rendezvous frame reach the caller as they were
/// sent, with the address of their sender; the node stays as it is and sends nothing.
pub proof fn payloads_reach_the_caller<A: WireAuthenticator>(
    node: MultiView<A>,
    addr: UdpAddr,
    payload: Seq<u8>,
    coefficients: Result<Seq<u8>, Seq<char>>,
)
    ensures
        node.on_plaintext(addr, seq![0x00u8] + payload, coefficients) matches Ok(step)
            && step.node == node && step.outbound.len() == 0 && step.inbound == InboundView::Event(
            MultiProtocolEventView::AppData { addr, bytes: payload },
        ),
        node.on_plaintext(addr, seq![0x04u8] + payload, coefficients) matches Ok(step)
            && step.node == node && step.outbound.len() == 0 && step.inbound == InboundView::Event(
            MultiProtocolEventView::RpcDatagram { peer: addr, body: payload },
        ),
        node.on_plaintext(addr, seq![0x03u8] + payload, coefficients) matches Ok(step)
            && step.node == node && step.outbound.len() == 0 && step.inbound
            == (InboundView::Rendezvous { from: addr, body: payload }),
{
    assert((seq![0x00u8] + payload).skip(1) =~= payload);
    assert((seq![0x03u8] + payload).skip(1) =~= payload);
    assert((seq![0x04u8] + payload).skip(1) =~= payload);
}

/// What belongs to no protocol is refused: nothing changes and nothing is sent.
pub proof fn strange_plaintexts_change_nothing<A: WireAuthenticator>(
    node: MultiView<A>,
    addr: UdpAddr,
    plaintext: Seq<u8>,
    coefficients: Result<Seq<u8>, Seq<char>>,
)
    requires
        plaintext.len() == 0 || plaintext[0] > 0x04,
    ensures
        node.on_plaintext(addr, plaintext, coefficients) matches Ok(step) && step.node == node
            && step.outbound.len() == 0 && (step.inbound matches InboundView::Event(
            MultiProtocolEventView::Rejected { addr: a, .. },
        ) && a == addr),
{
}

/// A pubsub frame does to the topics, the host and the network what it does to a node
/// of that protocol alone; the routing table is not touched.
pub proof fn pubsub_frames_reach_the_topics<A: WireAuthenticator>(
    node: MultiView<A>,
    addr: UdpAddr,
    body: Seq<u8>,
    coefficients: Result<Seq<u8>, Seq<char>>,
)
    ensures
        ({
            let alone = node.pubsub_side().on_plaintext(addr, seq![0x01u8] + body, coefficients);
            match node.on_plaintext(addr, seq![0x01u8] + body, coefficients) {
                Ok(step) => alone matches Ok(s) && step.node.host == s.mux.host && step.node.pubsub
                    == s.mux.state && step.node.table == node.table && step.outbound == s.outbound,
                Err(e) => alone matches Err(inner) && inner == e,
            }
        }),
        node.pubsub_side().host == node.host,
        node.pubsub_side().state == node.pubsub,
{
}

/// A Kademlia frame does to the routing table, the host and the network what it does
/// to a node of that protocol alone, with the kind of the protocol in front of the
/// answer; the topics are not touched.
pub proof fn kademlia_frames_reach_the_table<A: WireAuthenticator>(
    node: MultiView<A>,
    addr: UdpAddr,
    body: Seq<u8>,
    coefficients: Result<Seq<u8>, Seq<char>>,
)
    ensures
        ({
            let alone = node.kad_side().on_plaintext(addr, seq![0x02u8], body);
            match node.on_plaintext(addr, seq![0x02u8] + body, coefficients) {
                Ok(step) => alone matches Ok(s) && step.node.host == s.node.host && step.node.table
                    == s.node.table && step.node.pubsub == node.pubsub && match s.outbound {
                    Some(o) => step.outbound == seq![o],
                    None => step.outbound.len() == 0,
                },
                Err(e) => alone matches Err(inner) && e.error == inner && e.outbound.len() == 0,
            }
        }),
        node.kad_side().host == node.host,
        node.kad_side().table == node.table,
{
    assert((seq![0x02u8] + body).skip(1) =~= body);
}

/// A node of all protocols, too, answers a request for the peers around a target with
/// those of its table that are closest to it, and sends the answer, with the kind of
/// the protocol in front, to the one who asked.
pub proof fn multi_nodes_answer_with_the_nearest<A: WireAuthenticator>(
    node: MultiView<A>,
    addr: UdpAddr,
    body: Seq<u8>,
    coefficients: Result<Seq<u8>, Seq<char>>,
    target: NodeId,
)
    requires
        node.table.valid(),
        parse(body) == Ok::<FrameView, ErrorView>(FrameView::FindNodeReq { target }),
    ensures
        node.on_plaintext(addr, seq![0x02u8] + body, coefficients) matches Ok(step)
            ==> exists|peers: Peers| #[trigger]
            nearest(step.node.table, target, node.table.k, peers) && {
                &&& FrameView::FindNodeResp { peers }.wire() is Ok
                &&& step.outbound == seq![
                    OutboundView {
                        addr,
                        datagram: node.host.established[addr].transport.datagram(
                            seq![0x02u8] + FrameView::FindNodeResp { peers }.wire()->Ok_0,
                        ),
                    },
                ]
                &&& step.inbound == InboundView::Event(
                    MultiProtocolEventView::KadFindNodeRequestReceived {
                        from: addr,
                        target,
                        returned: peers.len(),
                    },
                )
            },
{
    let side = node.kad_side();
    requests_are_answered_with_the_nearest(side, addr, seq![0x02u8], body, target);
    kademlia_frames_reach_the_table(node, addr, body, coefficients);
    assert((seq![0x02u8] + body).skip(1) =~= body);
    if let Ok(step) = node.on_plaintext(addr, seq![0x02u8] + body, coefficients) {
        let s = side.on_plaintext(addr, seq![0x02u8], body)->Ok_0;
        let peers = choose|peers: Peers| #[trigger]
            nearest(side.seen(addr).table, target, side.table.k, peers) && {
                &&& FrameView::FindNodeResp { peers }.wire() is Ok
                &&& s.outbound == Some(
                    OutboundView {
                        addr,
                        datagram: side.host.established[addr].transport.datagram(
                            seq![0x02u8] + FrameView::FindNodeResp { peers }.wire()->Ok_0,
                        ),
                    },
                )
                &&& s.event == KadEventView::FindNodeRequestReceived {
                    from: addr,
                    target,
                    returned: peers.len(),
                }
                &&& s.node.table == side.seen(addr).table
            };
        assert(nearest(step.node.table, target, node.table.k, peers));
    }
}

/// What the host has to send goes out, and what it has to say reaches the caller.
/// Whoever completes a handshake is listed wherever its bucket has room.
pub proof fn host_events_reach_the_caller<A: WireAuthenticator>(
    node: MultiView<A>,
    event: HostEventView,
    outbound: Option<OutboundView>,
    coefficients: Result<Seq<u8>, Seq<char>>,
    b: int,
)
    requires
        node.table.valid(),
    ensures
        event is DatagramDelivered || (node.on_host_event(event, outbound, coefficients) matches Ok(
            step,
        ) && step.node.host == node.host && step.node.pubsub == node.pubsub && match outbound {
            Some(o) => step.outbound == seq![o],
            None => step.outbound.len() == 0,
        }),
        event matches HostEventView::DatagramDelivered { addr, plaintext } ==> node.on_host_event(
            event,
            outbound,
            coefficients,
        ) == node.on_plaintext(addr, plaintext, coefficients),
        event matches HostEventView::HandshakeProgress { addr } ==> (node.on_host_event(
            event,
            outbound,
            coefficients,
        ) matches Ok(step) && step.node == node && step.inbound == InboundView::Event(
            MultiProtocolEventView::HandshakeProgress { addr },
        )),
        event matches HostEventView::Rejected { addr, reason } ==> (node.on_host_event(
            event,
            outbound,
            coefficients,
        ) matches Ok(step) && step.node == node && step.inbound == InboundView::Event(
            MultiProtocolEventView::Rejected { addr, reason },
        )),
        event matches HostEventView::HandshakeComplete { addr, remote_static, remote_peer_id } ==> (
        node.on_host_event(event, outbound, coefficients) matches Ok(step) && step.inbound
            == InboundView::Event(
            MultiProtocolEventView::HandshakeComplete {
                addr,
                remote_static,
                remote_peer_id,
                remote_node_id: node_id_of_peer(remote_peer_id),
            },
        ) && (bucket_of(distance_of(node.table.self_id, node_id_of_peer(remote_peer_id))) == Some(b)
            && node.table.buckets[b].len() < node.table.k ==> step.node.table.holds(
            node_id_of_peer(remote_peer_id),
            addr,
        ))),
{
    if let HostEventView::HandshakeComplete { addr, remote_static, remote_peer_id } = event {
        let id = node_id_of_peer(remote_peer_id);
        if bucket_of(distance_of(node.table.self_id, id)) == Some(b) && node.table.buckets[b].len()
            < node.table.k {
            offered_peers_come_first(node.table, id, addr, b);
        }
    }
}

// ------------------------------------------------------------------ lifting

/// What a pubsub step has to say reaches the caller field by field.
pub proof fn pubsub_events_are_told_whole(event: MuxEventView)
    ensures
        match event {
            MuxEventView::AppData { addr, bytes } => event.lifted()
                == (MultiProtocolEventView::AppData { addr, bytes }),
            MuxEventView::PubsubAbsorbed { addr, topic } => event.lifted()
                == (MultiProtocolEventView::PubsubAbsorbed { addr, topic }),
            MuxEventView::PubsubDelivered { addr, topic, data } => event.lifted()
                == (MultiProtocolEventView::PubsubDelivered { addr, topic, data }),
            MuxEventView::PubsubRedundant { addr, topic } => event.lifted()
                == (MultiProtocolEventView::PubsubRedundant { addr, topic }),
            MuxEventView::PubsubRelayed { from, topic, fanout_count } => event.lifted()
                == (MultiProtocolEventView::PubsubRelayed { from, topic, fanout_count }),
            MuxEventView::Rejected { addr, reason } => event.lifted()
                == (MultiProtocolEventView::Rejected { addr, reason }),
            MuxEventView::HandshakeProgress { addr } => (event.lifted() matches
                MultiProtocolEventView::Rejected { addr: a, .. } && a == addr),
            MuxEventView::HandshakeComplete { addr, .. } => (event.lifted() matches
                MultiProtocolEventView::Rejected { addr: a, .. } && a == addr),
        },
{
}

/// What a Kademlia step has to say reaches the caller field by field.
pub proof fn kademlia_events_are_told_whole(event: KadEventView)
    ensures
        match event {
            KadEventView::PingRequestReceived { from } => event.lifted()
                == (MultiProtocolEventView::KadPingRequestReceived { from }),
            KadEventView::PingResponseReceived { from } => event.lifted()
                == (MultiProtocolEventView::KadPingResponseReceived { from }),
            KadEventView::FindNodeRequestReceived { from, target, returned } => event.lifted()
                == (MultiProtocolEventView::KadFindNodeRequestReceived { from, target, returned }),
            KadEventView::FindNodeResponseReceived { from, peers } => event.lifted()
                == (MultiProtocolEventView::KadFindNodeResponseReceived { from, peers }),
            KadEventView::Rejected { addr, reason } => event.lifted()
                == (MultiProtocolEventView::Rejected { addr, reason }),
            KadEventView::HandshakeProgress { addr } => (event.lifted() matches
                MultiProtocolEventView::Rejected { addr: a, .. } && a == addr),
            KadEventView::HandshakeComplete { addr, .. } => (event.lifted() matches
                MultiProtocolEventView::Rejected { addr: a, .. } && a == addr),
        },
{
}

/// What a rendezvous step has to say reaches the caller field by field.
pub proof fn rendezvous_events_are_told_whole(event: RendezvousEventView)
    ensures
        match event {
            RendezvousEventView::ObserveRequestReceived { from } => event.lifted()
                == (MultiProtocolEventView::ObserveRequestReceived { from }),
            RendezvousEventView::ObserveResponseReceived { from, observed } => event.lifted()
                == (MultiProtocolEventView::ObserveResponseReceived { from, observed }),
            RendezvousEventView::PunchRequestReceived { from, target, forwarded } => event.lifted()
                == (MultiProtocolEventView::PunchRequestReceived { from, target, forwarded }),
            RendezvousEventView::PunchForwardReceived { from, initiator } => event.lifted()
                == (MultiProtocolEventView::PunchForwardReceived { from, initiator }),
            RendezvousEventView::RelayForwarded { from, target, forwarded, payload_len } => {
                event.lifted() == (MultiProtocolEventView::RelayForwarded {
                    from,
                    target,
                    forwarded,
                    payload_len,
                })
            },
            RendezvousEventView::RelayReceived { from, originator, payload } => event.lifted()
                == (MultiProtocolEventView::RelayReceived { from, originator, payload }),
            RendezvousEventView::RelayFailed { from, peer, reason } => event.lifted()
                == (MultiProtocolEventView::RelayFailed { from, peer, reason }),
            RendezvousEventView::Rejected { addr, reason } => event.lifted()
                == (MultiProtocolEventView::Rejected { addr, reason }),
            RendezvousEventView::HandshakeProgress { addr } => (event.lifted() matches
                MultiProtocolEventView::Rejected { addr: a, .. } && a == addr),
            RendezvousEventView::HandshakeComplete { addr, .. } => (event.lifted() matches
                MultiProtocolEventView::Rejected { addr: a, .. } && a == addr),
        },
{
}

/// What a step of one protocol has to say is what the caller is told.
pub proof fn steps_are_told_to_the_caller<A: WireAuthenticator>(
    node: MultiView<A>,
    addr: UdpAddr,
    body: Seq<u8>,
    coefficients: Result<Seq<u8>, Seq<char>>,
)
    ensures
        node.on_plaintext(addr, seq![0x01u8] + body, coefficients) matches Ok(step)
            ==> step.inbound == InboundView::Event(
            node.pubsub_side().on_plaintext(
                addr,
                seq![0x01u8] + body,
                coefficients,
            )->Ok_0.event.lifted(),
        ),
        node.on_plaintext(addr, seq![0x02u8] + body, coefficients) matches Ok(step)
            ==> step.inbound == InboundView::Event(
            node.kad_side().on_plaintext(addr, seq![0x02u8], body)->Ok_0.event.lifted(),
        ),
{
    assert((seq![0x02u8] + body).skip(1) =~= body);
}

/// Answers and completed handshakes that are awaited move a lookup on; every other
/// event leaves it as it is.
pub proof fn other_events_change_no_lookup(lookup: LookupView, event: MultiProtocolEventView)
    ensures
        match event {
            MultiProtocolEventView::KadFindNodeResponseReceived { from, peers } => {
                &&& lookup.pending_queries.dom().contains(from) ==> lookup_on_event(lookup, event)
                    == lookup.answered(from, peers)
                &&& !lookup.pending_queries.dom().contains(from) ==> lookup_on_event(lookup, event)
                    == lookup
            },
            MultiProtocolEventView::HandshakeComplete { addr, .. } => lookup_on_event(lookup, event)
                == lookup.dial_completed(addr),
            _ => lookup_on_event(lookup, event) == lookup,
        },
{
    if let MultiProtocolEventView::HandshakeComplete { addr, .. } = event {
        connected_peers_wait_to_be_asked(lookup, addr);
    }
}

} // verus!
