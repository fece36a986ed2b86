//! What a routing table makes of the peers that it is offered, and what a node
//! answers.
use vstd::prelude::*;
use crate::addr::{OutboundView, UdpAddr};
use crate::error::ErrorView;
use crate::host::event::HostEventView;
use crate::kad::bucket::{lemma_offered, lemma_without, lists_peer, offered, without, Peers};
use crate::kad::codec::{parse, FrameView};
use crate::kad::distance::{
    bit_at, bucket_of, leading_zero_bits, lemma_first_set_bit, lemma_no_bucket_iff_zero,
};
use crate::kad::event::KadEventView;
use crate::kad::laws::{closest_peers_are_nearest, nearest};
use crate::kad::node::{node_id_of_peer, KadNodeView};
use crate::kad::node_id::{distance_is_zero_iff_equal, distance_of, node_id_len, NodeId};
use crate::kad::routing_table::{
    insert_keeps_the_table_valid, insert_touches_one_peer, lemma_contains, owner_is_never_listed,
    remove_takes_the_peer_out, TableView,
};

verus! {

// -------------------------------------------------------------- the metric

/// A bit of the distance is set exactly where the two identifiers differ.
pub proof fn distances_mark_the_differences(a: NodeId, b: NodeId, i: int)
    requires
        0 <= i < 256,
    ensures
        bit_at(distance_of(a, b), i) <==> bit_at(a@, i) != bit_at(b@, i),
{
    let x = a@[i / 8];
    let y = b@[i / 8];
    let s = (7 - i % 8) as u8;
    assert(distance_of(a, b)[i / 8] == x ^ y);
    assert((((x ^ y) >> s) & 1 == 1) <==> (((x >> s) & 1 == 1) != ((y >> s) & 1 == 1)))
        by (bit_vector);
}

/// Two identifiers belong into bucket `b` exactly if the first bit in which they
/// differ is bit `b`, counted from the least significant.
pub proof fn buckets_go_by_the_common_prefix(x: NodeId, y: NodeId, b: int)
    requires
        0 <= b < 256,
    ensures
        bucket_of(distance_of(x, y)) == Some(b) <==> {
            &&& bit_at(x@, 255 - b) != bit_at(y@, 255 - b)
            &&& forall|i: int| 0 <= i < 255 - b ==> #[trigger] bit_at(x@, i) == bit_at(y@, i)
        },
{
    let d = distance_of(x, y);
    let n = leading_zero_bits(d);
    lemma_first_set_bit(d, 0);
    distances_mark_the_differences(x, y, 255 - b);
    assert forall|i: int| 0 <= i < 256 implies (#[trigger] bit_at(x@, i) != bit_at(y@, i))
        == bit_at(d, i) by {
        distances_mark_the_differences(x, y, i);
    }
    if bucket_of(d) == Some(b) {
        assert forall|i: int| 0 <= i < 255 - b implies #[trigger] bit_at(x@, i) == bit_at(y@, i) by {
            assert(!bit_at(d, i));
        }
    }
    if bit_at(d, 255 - b) && (forall|i: int|
        0 <= i < 255 - b ==> #[trigger] bit_at(x@, i) == bit_at(y@, i)) {
        if n < 255 - b {
            assert(bit_at(x@, n) == bit_at(y@, n));
        }
        if n > 255 - b {
            assert(!bit_at(d, 255 - b));
        }
    }
}

// ------------------------------------------------------------------ tables

/// A peer that a valid table holds stands in the bucket of its distance.
proof fn lemma_holds(table: TableView, id: NodeId, addr: UdpAddr)
    requires
        table.valid(),
    ensures
        table.holds(id, addr) <==> (bucket_of(distance_of(table.self_id, id)) matches Some(b) && 0
            <= b < 256 && table.buckets[b].contains((id, addr))),
{
    broadcast use node_id_len;

    lemma_no_bucket_iff_zero(distance_of(table.self_id, id));
    if table.holds(id, addr) {
        let b = choose|b: int|
            0 <= b < table.buckets.len() && (#[trigger] table.buckets[b]).contains((id, addr));
        let j = table.buckets[b].index_of((id, addr));
        assert(table.buckets[b][j].0 == id);
    }
}

/// A peer that is known, or finds room in its bucket, stands first in it once it was
/// offered, with the address that was offered and no other.
pub proof fn offered_peers_come_first(table: TableView, id: NodeId, addr: UdpAddr, b: int)
    requires
        table.valid(),
        bucket_of(distance_of(table.self_id, id)) == Some(b),
        table.contains(id) || table.buckets[b].len() < table.k,
    ensures
        table.inserted(id, addr).buckets[b].len() > 0,
        table.inserted(id, addr).buckets[b][0] == (id, addr),
        forall|other: UdpAddr| #[trigger]
            table.inserted(id, addr).holds(id, other) <==> other == addr,
{
    broadcast use node_id_len;

    lemma_no_bucket_iff_zero(distance_of(table.self_id, id));
    lemma_contains(table, id);
    let next = table.inserted(id, addr);
    insert_keeps_the_table_valid(table, id, addr);
    lemma_offered(table.buckets[b], table.k, id, addr);
    assert(next.buckets[b][0] == (id, addr));
    assert forall|other: UdpAddr| #[trigger] next.holds(id, other) <==> other == addr by {
        lemma_holds(next, id, other);
        if next.holds(id, other) {
            let j = next.buckets[b].index_of((id, other));
            if j > 0 {
                assert(next.buckets[b][0].0 != next.buckets[b][j].0);
            }
        } else if other == addr {
            assert(next.buckets[b].contains(next.buckets[b][0]));
        }
    }
}

/// A full bucket turns newcomers away: the table stays as it is. So it does where it
/// is offered its owner.
pub proof fn full_buckets_turn_newcomers_away(table: TableView, id: NodeId, addr: UdpAddr, b: int)
    requires
        table.valid(),
    ensures
        bucket_of(distance_of(table.self_id, id)) == Some(b) && !table.contains(id)
            && table.buckets[b].len() >= table.k ==> table.inserted(id, addr) == table,
        table.inserted(table.self_id, addr) == table,
{
    broadcast use node_id_len;

    lemma_no_bucket_iff_zero(distance_of(table.self_id, id));
    distance_is_zero_iff_equal(table.self_id, table.self_id);
    lemma_contains(table, id);
    if bucket_of(distance_of(table.self_id, id)) == Some(b) && !table.contains(id)
        && table.buckets[b].len() >= table.k {
        assert(table.inserted(id, addr).buckets =~= table.buckets);
    }
}

/// Offering a peer leaves every other peer where it was found, at its address.
pub proof fn offers_leave_the_others(
    table: TableView,
    id: NodeId,
    addr: UdpAddr,
    other: NodeId,
    at: UdpAddr,
)
    requires
        table.valid(),
        other != id,
    ensures
        table.inserted(id, addr).holds(other, at) <==> table.holds(other, at),
        table.inserted(id, addr).self_id == table.self_id,
        table.inserted(id, addr).k == table.k,
{
    broadcast use node_id_len;

    let next = table.inserted(id, addr);
    insert_keeps_the_table_valid(table, id, addr);
    lemma_holds(table, other, at);
    lemma_holds(next, other, at);
    lemma_no_bucket_iff_zero(distance_of(table.self_id, id));
    lemma_no_bucket_iff_zero(distance_of(table.self_id, other));
    if let Some(b) = bucket_of(distance_of(table.self_id, id)) {
        let list = table.buckets[b];
        let grown = offered(list, table.k, id, addr);
        lemma_offered(list, table.k, id, addr);
        lemma_without(list, id);
        let e = (other, at);
        if list.contains(e) {
            let rest = if lists_peer(list, id) {
                without(list, id)
            } else {
                list
            };
            assert(rest.contains(e));
            let q = rest.index_of(e);
            if lists_peer(list, id) || list.len() < table.k {
                assert(grown[q + 1] == e);
            } else {
                assert(grown[q] == e);
            }
        }
    }
}

/// Taking a peer out takes out this peer and no other.
pub proof fn removals_leave_the_others(table: TableView, id: NodeId, other: NodeId, at: UdpAddr)
    requires
        table.valid(),
    ensures
        table.removed(id).holds(other, at) <==> table.holds(other, at) && other != id,
        table.removed(id).self_id == table.self_id,
        table.removed(id).k == table.k,
{
    broadcast use node_id_len;

    let next = table.removed(id);
    remove_takes_the_peer_out(table, id);
    lemma_holds(table, other, at);
    lemma_holds(next, other, at);
    lemma_no_bucket_iff_zero(distance_of(table.self_id, id));
    lemma_no_bucket_iff_zero(distance_of(table.self_id, other));
    lemma_contains(table, id);
    if let Some(b) = bucket_of(distance_of(table.self_id, id)) {
        lemma_without(table.buckets[b], id);
    }
    if other == id && table.holds(other, at) {
        owner_is_never_listed(table);
    }
}

/// Offering many peers keeps the table valid and forgets no peer; and each of them is
/// in the table afterwards, unless it is the owner or its bucket is full.
pub proof fn merging_learns_what_fits(table: TableView, peers: Peers, n: nat)
    requires
        table.valid(),
        n <= peers.len(),
    ensures
        table.merged(peers, n).valid(),
        table.merged(peers, n).self_id == table.self_id,
        table.merged(peers, n).k == table.k,
        forall|id: NodeId| #[trigger]
            table.contains(id) ==> table.merged(peers, n).contains(id),
        forall|i: int, b: int|
            0 <= i < n && bucket_of(distance_of(table.self_id, (#[trigger] peers[i]).0)) == Some(b)
                && #[trigger] table.merged(peers, n).buckets[b].len() < table.k ==> table.merged(
                peers,
                n,
            ).contains(peers[i].0),
        forall|id: NodeId| #[trigger]
            table.merged(peers, n).contains(id) ==> table.contains(id) || exists|i: int|
                0 <= i < n && (#[trigger] peers[i]).0 == id,
    decreases n,
{
    broadcast use node_id_len;

    if n > 0 {
        let m = (n - 1) as nat;
        merging_learns_what_fits(table, peers, m);
        let before = table.merged(peers, m);
        let after = table.merged(peers, n);
        let (id, addr) = peers[m as int];
        insert_keeps_the_table_valid(before, id, addr);
        lemma_no_bucket_iff_zero(distance_of(table.self_id, id));
        distance_is_zero_iff_equal(table.self_id, id);
        assert forall|x: NodeId| before.contains(x) implies #[trigger] after.contains(x) by {
            if x != id {
                insert_touches_one_peer(before, id, addr, x);
            } else {
                owner_is_never_listed(before);
                lemma_contains(before, x);
                lemma_contains(after, x);
                if let Some(b) = before.bucket_for(id) {
                    lemma_offered(before.buckets[b], before.k, id, addr);
                    let list = after.buckets[b];
                    assert(list.contains((id, addr)));
                    let q = list.index_of((id, addr));
                    assert(list[q].0 == id);
                }
            }
        }
        assert forall|x: NodeId| #[trigger] table.contains(x) implies after.contains(x) by {
            assert(before.contains(x));
        }
        assert forall|i: int, b: int|
            0 <= i < n && bucket_of(distance_of(table.self_id, (#[trigger] peers[i]).0)) == Some(b)
                && #[trigger] after.buckets[b].len() < table.k implies after.contains(peers[i].0) by {
            lemma_no_bucket_iff_zero(distance_of(table.self_id, peers[i].0));
            if before.bucket_for(id) == Some(b) {
                lemma_without(before.buckets[b], id);
            }
            assert(before.buckets[b].len() < table.k);
            if i < m {
                assert(before.contains(peers[i].0));
            } else {
                lemma_contains(after, id);
                lemma_offered(before.buckets[b], before.k, id, addr);
                let list = after.buckets[b];
                assert(list.contains((id, addr)));
                let q = list.index_of((id, addr));
                assert(list[q].0 == id);
            }
        }
        assert forall|x: NodeId| #[trigger] after.contains(x) implies table.contains(x)
            || exists|i: int| 0 <= i < n && (#[trigger] peers[i]).0 == x by {
            if x == id {
                assert(peers[m as int].0 == x);
            } else {
                insert_touches_one_peer(before, id, addr, x);
                if !table.contains(x) {
                    let i = choose|i: int| 0 <= i < m && (#[trigger] peers[i]).0 == x;
                    assert(peers[i].0 == x);
                }
            }
        }
    }
}

// ----------------------------------------------------------------- answers

/// Noting a peer keeps the table valid.
proof fn lemma_seen(node: KadNodeView, addr: UdpAddr)
    requires
        node.table.valid(),
    ensures
        node.seen(addr).table.valid(),
        node.seen(addr).host == node.host,
        node.seen(addr).table.k == node.table.k,
        node.seen(addr).table.self_id == node.table.self_id,
{
    if node.host.established.dom().contains(addr) {
        let id = node_id_of_peer(node.host.established[addr].remote_peer_id);
        insert_keeps_the_table_valid(node.table, id, addr);
    }
}

/// A request for the peers around a target is answered, to the one who asked, with
/// those of the table's peers that are closest to that target, as many as a bucket
/// holds.
pub proof fn requests_are_answered_with_the_nearest(
    node: KadNodeView,
    addr: UdpAddr,
    prefix: Seq<u8>,
    plaintext: Seq<u8>,
    target: NodeId,
)
    requires
        node.table.valid(),
        parse(plaintext) == Ok::<FrameView, ErrorView>(FrameView::FindNodeReq { target }),
    ensures
        exists|peers: Peers| #[trigger]
            nearest(node.seen(addr).table, target, node.table.k, peers) && match node.on_plaintext(
                addr,
                prefix,
                plaintext,
            ) {
                Ok(step) => {
                    &&& node.host.established.dom().contains(addr)
                    &&& FrameView::FindNodeResp { peers }.wire() is Ok
                    &&& step.outbound == Some(
                        OutboundView {
                            addr,
                            datagram: node.host.established[addr].transport.datagram(
                                prefix + FrameView::FindNodeResp { peers }.wire()->Ok_0,
                            ),
                        },
                    )
                    &&& step.event == KadEventView::FindNodeRequestReceived {
                        from: addr,
                        target,
                        returned: peers.len(),
                    }
                    &&& step.node.table == node.seen(addr).table
                },
                Err(_) => {
                    ||| !node.host.established.dom().contains(addr)
                    ||| peers.len() > 255
                    ||| node.host.established[addr].transport.send_error(
                        prefix + FrameView::FindNodeResp { peers }.wire()->Ok_0,
                    ) is Some
                },
            },
{
    lemma_seen(node, addr);
    let seen = node.seen(addr);
    let peers = seen.table.closest(target, seen.table.k);
    closest_peers_are_nearest(seen.table, target, seen.table.k);
    assert(nearest(node.seen(addr).table, target, node.table.k, peers));
}

/// A ping is answered, to the one who pinged; an answer to a ping is not.
pub proof fn pings_are_answered(
    node: KadNodeView,
    addr: UdpAddr,
    prefix: Seq<u8>,
    plaintext: Seq<u8>,
)
    ensures
        parse(plaintext) == Ok::<FrameView, ErrorView>(FrameView::PingReq) ==> match node.on_plaintext(
            addr,
            prefix,
            plaintext,
        ) {
            Ok(step) => {
                &&& node.host.established.dom().contains(addr)
                &&& step.outbound == Some(
                    OutboundView {
                        addr,
                        datagram: node.host.established[addr].transport.datagram(
                            prefix + seq![0x01u8],
                        ),
                    },
                )
                &&& step.event == KadEventView::PingRequestReceived { from: addr }
            },
            Err(_) => !node.host.established.dom().contains(addr)
                || node.host.established[addr].transport.send_error(prefix + seq![0x01u8]) is Some,
        },
        parse(plaintext) == Ok::<FrameView, ErrorView>(FrameView::PingResp) ==> (node.on_plaintext(
            addr,
            prefix,
            plaintext,
        ) matches Ok(step) && step.outbound is None && step.node.host == node.host && step.event
            == KadEventView::PingResponseReceived { from: addr }),
{
}

/// An answer to a request is handed on whole, and what it names is learned as far as
/// there is room; nothing is sent.
pub proof fn answers_are_learned(
    node: KadNodeView,
    addr: UdpAddr,
    prefix: Seq<u8>,
    plaintext: Seq<u8>,
    peers: Peers,
)
    requires
        node.table.valid(),
        parse(plaintext) == Ok::<FrameView, ErrorView>(FrameView::FindNodeResp { peers }),
    ensures
        node.on_plaintext(addr, prefix, plaintext) matches Ok(step) && {
            &&& step.outbound is None
            &&& step.node.host == node.host
            &&& step.event == KadEventView::FindNodeResponseReceived { from: addr, peers }
            &&& step.node.table.valid()
            &&& forall|id: NodeId| #[trigger]
                node.table.contains(id) ==> step.node.table.contains(id)
            &&& forall|i: int, b: int|
                0 <= i < peers.len() && bucket_of(
                    distance_of(node.table.self_id, (#[trigger] peers[i]).0),
                ) == Some(b) && #[trigger] step.node.table.buckets[b].len() < node.table.k
                    ==> step.node.table.contains(peers[i].0)
        },
{
    lemma_seen(node, addr);
    let seen = node.seen(addr);
    merging_learns_what_fits(seen.table, peers, peers.len());
    let step = node.on_plaintext(addr, prefix, plaintext)->Ok_0;
    assert(step.node.table == seen.table.merged(peers, peers.len()));
    assert forall|id: NodeId| #[trigger] node.table.contains(id) implies step.node.table.contains(
        id,
    ) by {
        if node.host.established.dom().contains(addr) {
            let me = node_id_of_peer(node.host.established[addr].remote_peer_id);
            let one = seq![(me, addr)];
            assert(node.table.merged(one, 0) == node.table);
            assert(node.table.merged(one, 1) == node.table.inserted(me, addr));
            merging_learns_what_fits(node.table, one, 1);
        }
        assert(seen.table.contains(id));
    }
}

/// Whoever speaks the protocol from an established address is listed at that address,
/// under the identity that the handshake proved, wherever the bucket has room.
pub proof fn speakers_are_listed(
    node: KadNodeView,
    addr: UdpAddr,
    prefix: Seq<u8>,
    plaintext: Seq<u8>,
    b: int,
)
    requires
        node.table.valid(),
        node.host.established.dom().contains(addr),
        parse(plaintext) matches Ok(frame) && !(frame is FindNodeResp),
        bucket_of(
            distance_of(
                node.table.self_id,
                node_id_of_peer(node.host.established[addr].remote_peer_id),
            ),
        ) == Some(b),
        node.table.buckets[b].len() < node.table.k || node.table.contains(
            node_id_of_peer(node.host.established[addr].remote_peer_id),
        ),
    ensures
        node.on_plaintext(addr, prefix, plaintext) matches Ok(step) ==> step.node.table.holds(
            node_id_of_peer(node.host.established[addr].remote_peer_id),
            addr,
        ),
{
    let id = node_id_of_peer(node.host.established[addr].remote_peer_id);
    offered_peers_come_first(node.table, id, addr, b);
    if let Ok(step) = node.on_plaintext(addr, prefix, plaintext) {
        assert(step.node.table == node.table.inserted(id, addr));
    }
}

/// Whoever completes a handshake is listed at its address, under the identity that the
/// handshake proved, wherever the bucket has room; the host's datagram goes out.
pub proof fn completed_handshakes_are_listed(
    node: KadNodeView,
    addr: UdpAddr,
    remote_static: Seq<u8>,
    remote_peer_id: Seq<u8>,
    outbound: Option<OutboundView>,
    b: int,
)
    requires
        node.table.valid(),
        bucket_of(distance_of(node.table.self_id, node_id_of_peer(remote_peer_id))) == Some(b),
        node.table.buckets[b].len() < node.table.k || node.table.contains(
            node_id_of_peer(remote_peer_id),
        ),
    ensures
        node.on_host_event(
            HostEventView::HandshakeComplete { addr, remote_static, remote_peer_id },
            outbound,
        ) matches Ok(step) && {
            &&& step.node.table.holds(node_id_of_peer(remote_peer_id), addr)
            &&& step.node.host == node.host
            &&& step.outbound == outbound
            &&& step.event == KadEventView::HandshakeComplete {
                addr,
                remote_static,
                remote_peer_id,
                remote_node_id: node_id_of_peer(remote_peer_id),
            }
        },
{
    offered_peers_come_first(node.table, node_id_of_peer(remote_peer_id), addr, b);
}

/// What is no frame changes nothing and is not answered.
pub proof fn junk_changes_no_table(
    node: KadNodeView,
    addr: UdpAddr,
    prefix: Seq<u8>,
    plaintext: Seq<u8>,
)
    requires
        parse(plaintext) is Err,
    ensures
        node.on_plaintext(addr, prefix, plaintext) matches Ok(step) && step.node == node
            && step.outbound is None && step.event is Rejected,
{
}

/// A frame goes to the peer that it is meant for, under the session with that peer,
/// behind the prefix; it is refused unless the peer is established. The routing table
/// is not touched.
pub proof fn frames_go_to_their_addressee(
    node: KadNodeView,
    addr: UdpAddr,
    prefix: Seq<u8>,
    frame: FrameView,
)
    ensures
        node.send_error(addr, prefix, frame) is None ==> {
            &&& node.host.established.dom().contains(addr)
            &&& frame.wire() is Ok
            &&& node.send_datagram(addr, prefix, frame).addr == addr
            &&& node.send_datagram(addr, prefix, frame).datagram
                == node.host.established[addr].transport.datagram(prefix + frame.wire()->Ok_0)
            &&& node.sent(addr).table == node.table
            &&& node.sent(addr).host == node.host.sent(addr)
        },
        node.host.established.dom().contains(addr) && frame.wire() is Ok
            && node.host.established[addr].transport.send_error(prefix + frame.wire()->Ok_0) is None
            ==> node.send_error(addr, prefix, frame) is None,
{
}

/// Of two other peers in a bucket, the one that was seen later stays in front of the
/// one that was seen earlier, whoever is offered.
pub proof fn offers_keep_the_order(
    list: Peers,
    capacity: nat,
    id: NodeId,
    addr: UdpAddr,
    p: int,
    q: int,
)
    requires
        crate::kad::bucket::no_peer_twice(list),
        0 <= p < q < list.len(),
        list[p].0 != id,
        list[q].0 != id,
    ensures
        exists|x: int, y: int|
            0 <= x < y < offered(list, capacity, id, addr).len() && #[trigger] offered(
                list,
                capacity,
                id,
                addr,
            )[x] == list[p] && #[trigger] offered(list, capacity, id, addr)[y] == list[q],
{
    let grown = offered(list, capacity, id, addr);
    if lists_peer(list, id) {
        let before = |a: (NodeId, UdpAddr), b: (NodeId, UdpAddr)|
            list.index_of(a) < list.index_of(b);
        let stays = |e: (NodeId, UdpAddr)| e.0 != id;
        lemma_positions(list);
        assert forall|i: int, j: int| 0 <= i < j < list.len() implies before(
            #[trigger] list[i],
            #[trigger] list[j],
        ) by {
            assert(list.index_of(list[i]) == i && list.index_of(list[j]) == j);
        }
        crate::kad::laws::lemma_filter_keeps_order(list, stays, before);
        let rest = without(list, id);
        lemma_without_filters(list, id, stays);
        assert(list.contains(list[p]) && list.contains(list[q]));
        assert(rest.contains(list[p]) && rest.contains(list[q]));
        let x = rest.index_of(list[p]);
        let y = rest.index_of(list[q]);
        if y < x {
            assert(before(rest[y], rest[x]));
        }
        assert(x != y) by {
            assert(list[p].0 != list[q].0);
        }
        assert(grown[x + 1] == list[p] && grown[y + 1] == list[q]);
    } else if list.len() < capacity {
        assert(grown[p + 1] == list[p] && grown[q + 1] == list[q]);
    } else {
        assert(grown[p] == list[p] && grown[q] == list[q]);
    }
}

/// Leaving a peer out is filtering.
proof fn lemma_without_filters(list: Peers, id: NodeId, stays: spec_fn((NodeId, UdpAddr)) -> bool)
    requires
        forall|e: (NodeId, UdpAddr)| #[trigger] stays(e) <==> e.0 != id,
    ensures
        without(list, id) == list.filter(stays),
    decreases list.len(),
{
    reveal(Seq::filter);
    if list.len() > 0 {
        lemma_without_filters(list.drop_last(), id, stays);
        assert(stays(list.last()) <==> list.last().0 != id);
    }
}

/// In a list of distinct peers each stands where it is found.
proof fn lemma_positions(list: Peers)
    requires
        crate::kad::bucket::no_peer_twice(list),
    ensures
        forall|i: int| 0 <= i < list.len() ==> list.index_of(#[trigger] list[i]) == i,
{
    assert forall|i: int| 0 <= i < list.len() implies list.index_of(#[trigger] list[i]) == i by {
        let j = list.index_of(list[i]);
        assert(list.contains(list[i]));
        assert(list[j] == list[i]);
        if i < j {
            assert(list[i].0 != list[j].0);
        } else if j < i {
            assert(list[j].0 != list[i].0);
        }
    }
}

/// What is reported of an offer is what became of it; where a bucket is full, the
/// peer that was seen longest ago is named.
pub proof fn offers_are_reported(
    list: Peers,
    capacity: nat,
    id: NodeId,
    addr: UdpAddr,
    outcome: crate::kad::bucket::InsertOutcome,
)
    requires
        crate::kad::bucket::no_peer_twice(list),
        list.len() <= capacity,
        crate::kad::bucket::offer_reported(list, capacity, id, outcome),
    ensures
        match outcome {
            crate::kad::bucket::InsertOutcome::Added => !lists_peer(list, id) && offered(
                list,
                capacity,
                id,
                addr,
            ).len() == list.len() + 1,
            crate::kad::bucket::InsertOutcome::Updated => lists_peer(list, id) && offered(
                list,
                capacity,
                id,
                addr,
            ).len() == list.len(),
            crate::kad::bucket::InsertOutcome::BucketFull { lru_candidate } => {
                &&& !lists_peer(list, id)
                &&& list.len() == capacity
                &&& offered(list, capacity, id, addr) == list
                &&& list.len() > 0 ==> lru_candidate == list[list.len() - 1].0
            },
        },
{
    lemma_without(list, id);
}

/// What the host has to send goes out, and what it has to say reaches the caller; a
/// plaintext is processed as such.
pub proof fn host_events_are_passed_on(
    node: KadNodeView,
    event: HostEventView,
    outbound: Option<OutboundView>,
)
    ensures
        match event {
            HostEventView::HandshakeProgress { addr } => node.on_host_event(
                event,
                outbound,
            ) matches Ok(step) && step.node == node && step.outbound == outbound && step.event
                == (KadEventView::HandshakeProgress { addr }),
            HostEventView::Rejected { addr, reason } => node.on_host_event(
                event,
                outbound,
            ) matches Ok(step) && step.node == node && step.outbound == outbound && step.event
                == (KadEventView::Rejected { addr, reason }),
            HostEventView::HandshakeComplete { addr, remote_static, remote_peer_id } => {
                node.on_host_event(event, outbound) matches Ok(step) && step.node.host == node.host
                    && step.outbound == outbound && step.event
                    == (KadEventView::HandshakeComplete {
                    addr,
                    remote_static,
                    remote_peer_id,
                    remote_node_id: node_id_of_peer(remote_peer_id),
                })
            },
            HostEventView::DatagramDelivered { addr, plaintext } => node.on_host_event(
                event,
                outbound,
            ) == node.on_plaintext(addr, Seq::empty(), plaintext),
        },
{
}

/// A datagram is first the host's: the node goes on from the host as the datagram
/// left it, and from what the host says of it.
pub proof fn datagrams_are_first_the_hosts(
    node: KadNodeView,
    from: UdpAddr,
    datagram: Seq<u8>,
    seed: Seq<u8>,
)
    ensures
        ({
            let s = node.host.step(from, datagram, seed);
            let carried = KadNodeView { host: s.host, table: node.table };
            node.step(from, datagram, seed) == carried.on_host_event(s.event, s.outbound)
        }),
{
}

/// A new table holds nobody, and knows its owner and the size of its buckets.
pub proof fn new_tables_hold_nobody(self_id: NodeId, k: nat, id: NodeId, addr: UdpAddr)
    ensures
        !TableView::empty(self_id, k).holds(id, addr),
        TableView::empty(self_id, k).valid(),
        TableView::empty(self_id, k).self_id == self_id,
        TableView::empty(self_id, k).k == k,
{
}

/// A peer is in a table exactly if the table holds it at some address.
pub proof fn listed_peers_have_an_address(table: TableView, id: NodeId)
    ensures
        table.contains(id) <==> exists|addr: UdpAddr| #[trigger] table.holds(id, addr),
{
    if table.contains(id) {
        let b = choose|b: int|
            0 <= b < table.buckets.len() && lists_peer(#[trigger] table.buckets[b], id);
        let j = choose|j: int|
            0 <= j < table.buckets[b].len() && (#[trigger] table.buckets[b][j]).0 == id;
        let e = table.buckets[b][j];
        assert(e == (id, e.1));
        assert(table.buckets[b].contains((id, e.1)));
        assert(table.holds(id, e.1));
    }
    if exists|addr: UdpAddr| #[trigger] table.holds(id, addr) {
        let addr = choose|addr: UdpAddr| #[trigger] table.holds(id, addr);
        let b = choose|b: int|
            0 <= b < table.buckets.len() && (#[trigger] table.buckets[b]).contains((id, addr));
        let j = table.buckets[b].index_of((id, addr));
        assert(table.buckets[b][j].0 == id);
    }
}

/// A peer's identifier in the table is the hash of its peer identifier.
pub proof fn identifiers_are_hashes(peer_id: Seq<u8>)
    requires
        crate::crypto::blake3_hash(peer_id).len() == 32,
    ensures
        node_id_of_peer(peer_id)@ == crate::crypto::blake3_hash(peer_id),
{
    crate::kad::node_id::node_id_of_bytes(crate::crypto::blake3_hash(peer_id));
}

/// Of the addresses under which a peer is offered the last one counts.
pub proof fn merging_takes_the_last_address(table: TableView, peers: Peers, n: nat, i: int)
    requires
        table.valid(),
        0 <= i < n <= peers.len(),
        forall|j: int| i < j < n ==> (#[trigger] peers[j]).0 != peers[i].0,
        table.merged(peers, n).contains(peers[i].0),
    ensures
        table.merged(peers, n).holds(peers[i].0, peers[i].1),
    decreases n,
{
    broadcast use node_id_len;

    let m = (n - 1) as nat;
    merging_learns_what_fits(table, peers, m);
    merging_learns_what_fits(table, peers, n);
    let before = table.merged(peers, m);
    let (id, addr) = peers[m as int];
    if i < m {
        assert(peers[m as int].0 != peers[i].0);
        insert_touches_one_peer(before, id, addr, peers[i].0);
        merging_takes_the_last_address(table, peers, m, i);
        offers_leave_the_others(before, id, addr, peers[i].0, peers[i].1);
    } else {
        let after = table.merged(peers, n);
        owner_is_never_listed(after);
        distance_is_zero_iff_equal(before.self_id, id);
        lemma_no_bucket_iff_zero(distance_of(before.self_id, id));
        let b = before.bucket_for(id)->Some_0;
        if !before.contains(id) && before.buckets[b].len() >= before.k {
            full_buckets_turn_newcomers_away(before, id, addr, b);
        } else {
            offered_peers_come_first(before, id, addr, b);
        }
    }
}

} // verus!
