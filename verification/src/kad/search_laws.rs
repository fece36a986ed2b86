//! How a lookup moves: what becomes of each peer as it is asked, dialed, answers or
//! is given up, and what a round sends.
use vstd::prelude::*;
use crate::addr::UdpAddr;
use crate::host::model::HostView;
use crate::kad::bucket::Peers;
use crate::kad::event::KadEventView;
use crate::kad::laws::{picks_are_the_closest_waiting, nearest, closest_peers_are_nearest};
use crate::kad::lookup::{
    absorbed, absorbing_forgets_nothing, absorbing_learns_every_peer, given_up, is_pending, seeded,
    Entries, LookupConfig, LookupEntry, LookupStatus, LookupView,
};
use crate::kad::node_id::{distance_of, NodeId};
use crate::kad::rounds::{
    fresh_searches_know_the_table, noted, performed, planned, started, RoundAction, SearchView,
};
use crate::kad::routing_table::TableView;

verus! {

/// Whether the entries are the same but for the one at `d`.
pub open spec fn same_but(a: Entries, b: Entries, d: Seq<u8>) -> bool {
    forall|x: Seq<u8>|
        x != d ==> (#[trigger] a.dom().contains(x) <==> b.dom().contains(x)) && (a.dom().contains(x)
            ==> a[x] == b[x])
}

/// A new lookup knows exactly the peers that it starts from, but for its owner, and
/// waits for each to be asked; a peer that is named twice counts with its last
/// address.
pub proof fn lookups_start_from_the_given_peers(
    peers: Peers,
    n: nat,
    self_id: NodeId,
    target: NodeId,
)
    requires
        n <= peers.len(),
    ensures
        forall|i: int|
            0 <= i < n && (#[trigger] peers[i]).0 != self_id && (forall|j: int|
                i < j < n ==> (#[trigger] peers[j]).0 != peers[i].0) ==> {
                let d = distance_of(peers[i].0, target);
                &&& seeded(peers, n, self_id, target).dom().contains(d)
                &&& seeded(peers, n, self_id, target)[d] == (LookupEntry {
                    node_id: peers[i].0,
                    addr: peers[i].1,
                    status: LookupStatus::Unqueried,
                })
            },
        forall|d: Seq<u8>| #[trigger]
            seeded(peers, n, self_id, target).dom().contains(d) ==> exists|i: int|
                0 <= i < n && (#[trigger] peers[i]).0 != self_id && d == distance_of(
                    peers[i].0,
                    target,
                ),
        seeded(peers, n, self_id, target).dom().finite(),
    decreases n,
{
    if n > 0 {
        let m = (n - 1) as nat;
        lookups_start_from_the_given_peers(peers, m, self_id, target);
        let before = seeded(peers, m, self_id, target);
        let after = seeded(peers, n, self_id, target);
        assert forall|i: int|
            0 <= i < n && (#[trigger] peers[i]).0 != self_id && (forall|j: int|
                i < j < n ==> (#[trigger] peers[j]).0 != peers[i].0) implies {
            let d = distance_of(peers[i].0, target);
            &&& after.dom().contains(d)
            &&& after[d] == (LookupEntry {
                node_id: peers[i].0,
                addr: peers[i].1,
                status: LookupStatus::Unqueried,
            })
        } by {
            if i < m {
                assert(peers[m as int].0 != peers[i].0);
                if distance_of(peers[m as int].0, target) == distance_of(peers[i].0, target) {
                    crate::kad::node_id::distance_is_injective(
                        peers[m as int].0,
                        peers[i].0,
                        target,
                    );
                }
            }
        }
        assert forall|d: Seq<u8>| #[trigger] after.dom().contains(d) implies exists|i: int|
            0 <= i < n && (#[trigger] peers[i]).0 != self_id && d == distance_of(
                peers[i].0,
                target,
            ) by {
            if before.dom().contains(d) {
                let i = choose|i: int|
                    0 <= i < m && (#[trigger] peers[i]).0 != self_id && d == distance_of(
                        peers[i].0,
                        target,
                    );
                assert(peers[i].0 != self_id);
            } else {
                assert(peers[m as int].0 != self_id);
            }
        }
    }
}

/// A peer that is asked is awaited and does not wait any more; every other peer stays
/// as it was.
pub proof fn asked_peers_are_awaited(lookup: LookupView, peer: NodeId, addr: UdpAddr)
    ensures
        ({
            let after = lookup.queried(peer, addr);
            let d = distance_of(peer, lookup.target);
            &&& after.pending_queries.dom().contains(addr)
            &&& after.pending_queries[addr] == peer
            &&& after.pending_queries.remove(addr) == lookup.pending_queries.remove(addr)
            &&& after.pending_dials == lookup.pending_dials
            &&& after.entries.dom() == lookup.entries.dom()
            &&& lookup.entries.dom().contains(d) ==> after.entries[d] == (LookupEntry {
                status: LookupStatus::InFlight,
                node_id: lookup.entries[d].node_id,
                addr: lookup.entries[d].addr,
            })
            &&& same_but(lookup.entries, after.entries, d)
            &&& after.target == lookup.target && after.self_id == lookup.self_id && after.config
                == lookup.config
        }),
{
    let after = lookup.queried(peer, addr);
    assert(after.pending_queries.remove(addr) =~= lookup.pending_queries.remove(addr));
    assert(after.entries.dom() =~= lookup.entries.dom());
}

/// A peer that is dialed is awaited and does not wait any more; every other peer
/// stays as it was.
pub proof fn dialed_peers_are_awaited(lookup: LookupView, peer: NodeId, addr: UdpAddr)
    ensures
        ({
            let after = lookup.dialing(peer, addr);
            let d = distance_of(peer, lookup.target);
            &&& after.pending_dials.dom().contains(addr)
            &&& after.pending_dials[addr] == peer
            &&& after.pending_dials.remove(addr) == lookup.pending_dials.remove(addr)
            &&& after.pending_queries == lookup.pending_queries
            &&& after.entries.dom() == lookup.entries.dom()
            &&& lookup.entries.dom().contains(d) ==> after.entries[d] == (LookupEntry {
                status: LookupStatus::Dialing,
                node_id: lookup.entries[d].node_id,
                addr: lookup.entries[d].addr,
            })
            &&& same_but(lookup.entries, after.entries, d)
            &&& after.target == lookup.target && after.self_id == lookup.self_id && after.config
                == lookup.config
        }),
{
    let after = lookup.dialing(peer, addr);
    assert(after.pending_dials.remove(addr) =~= lookup.pending_dials.remove(addr));
    assert(after.entries.dom() =~= lookup.entries.dom());
}

/// A dialed peer whose handshake completes waits to be asked; every other peer stays
/// as it was, and so does everything where no such handshake was awaited.
pub proof fn connected_peers_wait_to_be_asked(lookup: LookupView, addr: UdpAddr)
    ensures
        ({
            let after = lookup.dial_completed(addr);
            let d = distance_of(lookup.pending_dials[addr], lookup.target);
            &&& !after.pending_dials.dom().contains(addr)
            &&& after.pending_dials == lookup.pending_dials.remove(addr)
            &&& after.pending_queries == lookup.pending_queries
            &&& after.entries.dom() == lookup.entries.dom()
            &&& lookup.pending_dials.dom().contains(addr) && lookup.entries.dom().contains(d)
                ==> after.entries[d] == (LookupEntry {
                status: LookupStatus::Unqueried,
                node_id: lookup.entries[d].node_id,
                addr: lookup.entries[d].addr,
            })
            &&& lookup.pending_dials.dom().contains(addr) ==> same_but(
                lookup.entries,
                after.entries,
                d,
            )
            &&& !lookup.pending_dials.dom().contains(addr) ==> after == lookup
            &&& after.target == lookup.target && after.self_id == lookup.self_id && after.config
                == lookup.config
        }),
{
    let after = lookup.dial_completed(addr);
    assert(after.entries.dom() =~= lookup.entries.dom());
    if !lookup.pending_dials.dom().contains(addr) {
        assert(after.pending_dials =~= lookup.pending_dials);
    }
}

/// Adding peers adds only peers of the list that were unknown, each to be asked.
proof fn lemma_absorbed_is_new(
    entries: Entries,
    peers: Peers,
    n: nat,
    self_id: NodeId,
    target: NodeId,
)
    requires
        n <= peers.len(),
    ensures
        forall|d: Seq<u8>| #[trigger]
            absorbed(entries, peers, n, self_id, target).dom().contains(d)
                && !entries.dom().contains(d) ==> {
                let e = absorbed(entries, peers, n, self_id, target)[d];
                &&& e.status == LookupStatus::Unqueried
                &&& e.node_id != self_id
                &&& d == distance_of(e.node_id, target)
                &&& peers.contains((e.node_id, e.addr))
            },
    decreases n,
{
    if n > 0 {
        lemma_absorbed_is_new(entries, peers, (n - 1) as nat, self_id, target);
        let last = peers[n - 1];
        assert(peers.contains(last));
        assert(last == (last.0, last.1));
    }
}

/// An answer that was awaited: the peer that gave it is done, every peer that it
/// names is known, one that was unknown waits to be asked, and whoever was known
/// stays as it was. Nobody else is added.
pub proof fn answers_lead_on(lookup: LookupView, from: UdpAddr, peers: Peers)
    requires
        lookup.pending_queries.dom().contains(from),
    ensures
        ({
            let after = lookup.answered(from, peers);
            let asked = distance_of(lookup.pending_queries[from], lookup.target);
            &&& after.pending_queries == lookup.pending_queries.remove(from)
            &&& after.pending_dials == lookup.pending_dials
            &&& after.target == lookup.target && after.self_id == lookup.self_id && after.config
                == lookup.config
            &&& lookup.entries.dom().contains(asked) ==> after.entries.dom().contains(asked)
                && after.entries[asked] == (LookupEntry {
                status: LookupStatus::Done,
                node_id: lookup.entries[asked].node_id,
                addr: lookup.entries[asked].addr,
            })
            &&& forall|d: Seq<u8>| #[trigger]
                lookup.entries.dom().contains(d) && d != asked ==> after.entries.dom().contains(d)
                    && after.entries[d] == lookup.entries[d]
            &&& forall|i: int|
                0 <= i < peers.len() && (#[trigger] peers[i]).0 != lookup.self_id
                    ==> after.entries.dom().contains(distance_of(peers[i].0, lookup.target))
            &&& forall|d: Seq<u8>| #[trigger]
                after.entries.dom().contains(d) && !lookup.entries.dom().contains(d) && d != asked
                    ==> {
                    &&& after.entries[d].status == LookupStatus::Unqueried
                    &&& after.entries[d].node_id != lookup.self_id
                    &&& d == distance_of(after.entries[d].node_id, lookup.target)
                    &&& peers.contains((after.entries[d].node_id, after.entries[d].addr))
                }
        }),
{
    let n = peers.len();
    let grown = absorbed(lookup.entries, peers, n, lookup.self_id, lookup.target);
    let after = lookup.answered(from, peers);
    let asked = distance_of(lookup.pending_queries[from], lookup.target);
    absorbing_forgets_nothing(lookup.entries, peers, n, lookup.self_id, lookup.target);
    lemma_absorbed_is_new(lookup.entries, peers, n, lookup.self_id, lookup.target);
    assert(after.entries.dom() =~= grown.dom());
    assert forall|d: Seq<u8>| lookup.entries.dom().contains(d) implies grown.dom().contains(d)
        && #[trigger] grown[d] == lookup.entries[d] by {
        assert(lookup.entries.submap_of(grown));
        assert(grown.dom().contains(d));
    }
    if lookup.entries.dom().contains(asked) {
        assert(grown[asked] == lookup.entries[asked]);
    }
    assert forall|d: Seq<u8>| #[trigger]
        lookup.entries.dom().contains(d) && d != asked implies after.entries.dom().contains(d)
        && after.entries[d] == lookup.entries[d] by {
        assert(grown[d] == lookup.entries[d]);
    }
    assert forall|i: int|
        0 <= i < peers.len() && (#[trigger] peers[i]).0 != lookup.self_id implies after.entries.dom().contains(
    distance_of(peers[i].0, lookup.target)) by {
        absorbing_learns_every_peer(
            lookup.entries,
            peers,
            n,
            lookup.self_id,
            lookup.target,
            i,
        );
    }
}

/// Giving up marks exactly the peers that are awaited.
proof fn lemma_given_up(entries: Entries, pending: Map<UdpAddr, NodeId>, target: NodeId)
    ensures
        given_up(entries, pending, target).dom() == entries.dom(),
        forall|d: Seq<u8>| #[trigger]
            entries.dom().contains(d) ==> given_up(entries, pending, target)[d] == (LookupEntry {
                status: if is_pending(pending, target, d) {
                    LookupStatus::Skipped
                } else {
                    entries[d].status
                },
                node_id: entries[d].node_id,
                addr: entries[d].addr,
            }),
{
    assert(given_up(entries, pending, target).dom() =~= entries.dom());
}

/// At the end of a round nothing is awaited any more: whoever was asked or dialed
/// and did not answer is given up, and every other peer stays as it was.
pub proof fn ended_rounds_give_up_the_silent(search: SearchView)
    ensures
        ({
            let before = search.lookup;
            let after = search.round_ended().lookup;
            &&& after.pending_queries.dom() == Set::<UdpAddr>::empty()
            &&& after.pending_dials.dom() == Set::<UdpAddr>::empty()
            &&& after.entries.dom() == before.entries.dom()
            &&& after.target == before.target && after.self_id == before.self_id && after.config
                == before.config
            &&& search.round_ended().rounds_left == search.rounds_left
            &&& search.round_ended().budget == 0
            &&& forall|d: Seq<u8>| #[trigger]
                before.entries.dom().contains(d) ==> {
                    let silent = (exists|a: UdpAddr| #[trigger]
                        before.pending_queries.dom().contains(a) && distance_of(
                            before.pending_queries[a],
                            before.target,
                        ) == d) || (exists|a: UdpAddr| #[trigger]
                        before.pending_dials.dom().contains(a) && distance_of(
                            before.pending_dials[a],
                            before.target,
                        ) == d);
                    after.entries[d] == (LookupEntry {
                        status: if silent {
                            LookupStatus::Skipped
                        } else {
                            before.entries[d].status
                        },
                        node_id: before.entries[d].node_id,
                        addr: before.entries[d].addr,
                    })
                }
        }),
{
    let before = search.lookup;
    let mid = before.queries_skipped();
    lemma_given_up(before.entries, before.pending_queries, before.target);
    lemma_given_up(mid.entries, before.pending_dials, before.target);
    let after = search.round_ended().lookup;
    assert forall|d: Seq<u8>| #[trigger] before.entries.dom().contains(d) implies {
        let silent = is_pending(before.pending_queries, before.target, d) || is_pending(
            before.pending_dials,
            before.target,
            d,
        );
        after.entries[d] == (LookupEntry {
            status: if silent {
                LookupStatus::Skipped
            } else {
                before.entries[d].status
            },
            node_id: before.entries[d].node_id,
            addr: before.entries[d].addr,
        })
    } by {
        assert(mid.entries.dom().contains(d));
    }
    assert(after.pending_queries.dom() =~= Set::<UdpAddr>::empty());
    assert(after.pending_dials.dom() =~= Set::<UdpAddr>::empty());
}

/// Answers and completed handshakes that are awaited move a lookup on; every other
/// event leaves it as it is.
pub proof fn other_events_change_no_lookup(lookup: LookupView, event: KadEventView)
    ensures
        match event {
            KadEventView::FindNodeResponseReceived { from, peers } => {
                &&& lookup.pending_queries.dom().contains(from) ==> lookup.on_event(event)
                    == lookup.answered(from, peers)
                &&& !lookup.pending_queries.dom().contains(from) ==> lookup.on_event(event)
                    == lookup
            },
            KadEventView::HandshakeComplete { addr, .. } => lookup.on_event(event)
                == lookup.dial_completed(addr),
            _ => lookup.on_event(event) == lookup,
        },
{
    if let KadEventView::HandshakeComplete { addr, .. } = event {
        connected_peers_wait_to_be_asked(lookup, addr);
    }
}

/// A round that takes a datagram has one less to take; one that takes none any more
/// is left as it is.
pub proof fn rounds_take_a_bounded_number(search: SearchView, lookup: LookupView)
    ensures
        ({
            let pending = search.lookup.pending_queries.len() > 0
                || search.lookup.pending_dials.len() > 0;
            let after = search.after_datagram(lookup);
            &&& search.budget > 0 && pending ==> after.lookup == lookup && after.budget
                == search.budget - 1 && after.rounds_left == search.rounds_left
            &&& !(search.budget > 0 && pending) ==> after == search
        }),
{
}

// --------------------------------------------------------------- the rounds

/// Of two lists of actions that agree on their fronts the same is noted.
proof fn lemma_noted(lookup: LookupView, actions: Seq<(NodeId, RoundAction)>, n: nat)
    requires
        n <= actions.len(),
    ensures
        noted(lookup, actions, n).target == lookup.target,
        noted(lookup, actions, n).self_id == lookup.self_id,
        noted(lookup, actions, n).config == lookup.config,
        noted(lookup, actions, n).entries.dom() == lookup.entries.dom(),
        forall|d: Seq<u8>| #[trigger]
            lookup.entries.dom().contains(d) && (forall|i: int|
                0 <= i < n ==> distance_of((#[trigger] actions[i]).0, lookup.target) != d)
                ==> noted(lookup, actions, n).entries[d] == lookup.entries[d],
        forall|i: int|
            0 <= i < n && (forall|j: int|
                i < j < n ==> (#[trigger] actions[j]).0 != actions[i].0)
                && lookup.entries.dom().contains(
                distance_of((#[trigger] actions[i]).0, lookup.target),
            ) ==> noted(lookup, actions, n).entries[distance_of(actions[i].0, lookup.target)].status
                == match actions[i].1 {
                RoundAction::Query { .. } => LookupStatus::InFlight,
                RoundAction::Dial { .. } => LookupStatus::Dialing,
            },
        forall|i: int|
            0 <= i < n ==> match (#[trigger] actions[i]).1 {
                RoundAction::Query { addr } => noted(
                    lookup,
                    actions,
                    n,
                ).pending_queries.dom().contains(addr),
                RoundAction::Dial { addr, .. } => noted(
                    lookup,
                    actions,
                    n,
                ).pending_dials.dom().contains(addr),
            },
    decreases n,
{
    if n > 0 {
        let m = (n - 1) as nat;
        lemma_noted(lookup, actions, m);
        let before = noted(lookup, actions, m);
        let after = noted(lookup, actions, n);
        let (id, action) = actions[m as int];
        match action {
            RoundAction::Query { addr } => asked_peers_are_awaited(before, id, addr),
            RoundAction::Dial { addr, .. } => dialed_peers_are_awaited(before, id, addr),
        }
        let at = distance_of(id, lookup.target);
        assert(same_but(before.entries, after.entries, at));
        assert forall|d: Seq<u8>| #[trigger]
            lookup.entries.dom().contains(d) && (forall|i: int|
                0 <= i < n ==> distance_of((#[trigger] actions[i]).0, lookup.target) != d) implies after.entries[d]
            == lookup.entries[d] by {
            assert(distance_of(actions[m as int].0, lookup.target) != d);
            assert(before.entries.dom().contains(d));
            assert(after.entries[d] == before.entries[d]);
        }
        assert forall|i: int|
            0 <= i < n && (forall|j: int|
                i < j < n ==> (#[trigger] actions[j]).0 != actions[i].0)
                && lookup.entries.dom().contains(
                distance_of((#[trigger] actions[i]).0, lookup.target),
            ) implies after.entries[distance_of(actions[i].0, lookup.target)].status
            == match actions[i].1 {
            RoundAction::Query { .. } => LookupStatus::InFlight,
            RoundAction::Dial { .. } => LookupStatus::Dialing,
        } by {
            let d = distance_of(actions[i].0, lookup.target);
            if i < m {
                assert(actions[m as int].0 != actions[i].0);
                if d == at {
                    crate::kad::node_id::distance_is_injective(actions[i].0, id, lookup.target);
                }
                assert(before.entries.dom().contains(d));
                assert(after.entries[d] == before.entries[d]);
            }
        }
    }
}

/// A round asks each picked peer that is established and dials each other one, in
/// the order of their distance: one datagram for each, to its address. A question
/// is the request for the target.
pub proof fn rounds_turn_to_every_picked_peer(
    host: HostView,
    prefix: Seq<u8>,
    target: NodeId,
    picks: Peers,
    seeds: Seq<[u8; 32]>,
    n: nat,
)
    requires
        n <= picks.len(),
    ensures
        ({
            let actions = planned(host, picks, seeds);
            &&& actions.len() == picks.len()
            &&& forall|i: int|
                0 <= i < picks.len() ==> {
                    &&& (#[trigger] actions[i]).0 == picks[i].0
                    &&& host.established.dom().contains(picks[i].1) ==> actions[i].1
                        == RoundAction::Query { addr: picks[i].1 }
                    &&& !host.established.dom().contains(picks[i].1) ==> (actions[i].1 matches
                        RoundAction::Dial { addr, .. } && addr == picks[i].1)
                }
            &&& performed(host, prefix, target, actions, n) matches Ok((after, out)) ==> {
                &&& out.len() == n
                &&& forall|i: int|
                    0 <= i < n ==> {
                        let o = #[trigger] out[i];
                        let mid = performed(host, prefix, target, actions, i as nat)->Ok_0.0;
                        &&& performed(host, prefix, target, actions, i as nat) is Ok
                        &&& o.addr == picks[i].1
                        &&& host.established.dom().contains(picks[i].1) ==> o.datagram
                            == mid.established[picks[i].1].transport.datagram(
                            prefix + (seq![0x02u8] + target@),
                        )
                    }
                &&& after.established.dom() == host.established.dom()
            }
        }),
    decreases n,
{
    let actions = planned(host, picks, seeds);
    assert forall|i: int| 0 <= i < picks.len() implies {
        &&& (#[trigger] actions[i]).0 == picks[i].0
        &&& host.established.dom().contains(picks[i].1) ==> actions[i].1 == RoundAction::Query {
            addr: picks[i].1,
        }
        &&& !host.established.dom().contains(picks[i].1) ==> (actions[i].1 matches
            RoundAction::Dial { addr, .. } && addr == picks[i].1)
    } by {}
    if n > 0 {
        let m = (n - 1) as nat;
        rounds_turn_to_every_picked_peer(host, prefix, target, picks, seeds, m);
        if let Ok((after, out)) = performed(host, prefix, target, actions, n) {
            let (mid, before) = performed(host, prefix, target, actions, m)->Ok_0;
            assert(actions[m as int].0 == picks[m as int].0);
            assert(mid.established.dom() == host.established.dom());
            assert(out.drop_last() =~= before);
            assert forall|i: int| 0 <= i < n implies {
                let o = #[trigger] out[i];
                let then = performed(host, prefix, target, actions, i as nat)->Ok_0.0;
                &&& performed(host, prefix, target, actions, i as nat) is Ok
                &&& o.addr == picks[i].1
                &&& host.established.dom().contains(picks[i].1) ==> o.datagram
                    == then.established[picks[i].1].transport.datagram(
                    prefix + (seq![0x02u8] + target@),
                )
            } by {
                if i < m {
                    assert(before[i] == out[i]);
                }
            }
            assert(after.established.dom() =~= host.established.dom());
        }
    }
}

/// Where the host can send to each picked peer that it is established with, and knows
/// none of the others, all of different addresses, a round succeeds.
pub proof fn rounds_succeed_where_nothing_hinders(
    host: HostView,
    prefix: Seq<u8>,
    target: NodeId,
    picks: Peers,
    seeds: Seq<[u8; 32]>,
    n: nat,
)
    requires
        n <= picks.len(),
        forall|i: int, j: int|
            0 <= i < j < picks.len() ==> (#[trigger] picks[i]).1 != (#[trigger] picks[j]).1,
        forall|i: int|
            0 <= i < picks.len() ==> if host.established.dom().contains((#[trigger] picks[i]).1) {
                host.established[picks[i].1].transport.send_error(
                    prefix + (seq![0x02u8] + target@),
                ) is None
            } else {
                !host.handshakes.dom().contains(picks[i].1)
            },
    ensures
        ({
            let done = performed(host, prefix, target, planned(host, picks, seeds), n);
            &&& done is Ok
            &&& done->Ok_0.0.established.dom() == host.established.dom()
            &&& forall|a: UdpAddr|
                (forall|i: int| 0 <= i < n ==> (#[trigger] picks[i]).1 != a)
                    && host.established.dom().contains(a) ==> #[trigger]
                done->Ok_0.0.established[a] == host.established[a]
            &&& forall|a: UdpAddr|
                (forall|i: int| 0 <= i < n ==> (#[trigger] picks[i]).1 != a) && #[trigger]
                done->Ok_0.0.handshakes.dom().contains(a) ==> host.handshakes.dom().contains(a)
        }),
    decreases n,
{
    let actions = planned(host, picks, seeds);
    if n > 0 {
        let m = (n - 1) as nat;
        rounds_succeed_where_nothing_hinders(host, prefix, target, picks, seeds, m);
        let (mid, _) = performed(host, prefix, target, actions, m)->Ok_0;
        let a = picks[m as int].1;
        assert(actions[m as int].0 == picks[m as int].0);
        assert(forall|i: int| 0 <= i < m ==> (#[trigger] picks[i]).1 != a);
        if host.established.dom().contains(a) {
            assert(mid.established[a] == host.established[a]);
        } else {
            assert(!mid.handshakes.dom().contains(a));
        }
        let done = performed(host, prefix, target, actions, n);
        assert(done is Ok);
        let after = done->Ok_0.0;
        assert(after.established.dom() =~= host.established.dom());
        assert forall|x: UdpAddr|
            (forall|i: int| 0 <= i < n ==> (#[trigger] picks[i]).1 != x)
                && host.established.dom().contains(x) implies #[trigger] after.established[x]
            == host.established[x] by {
            assert(picks[m as int].1 != x);
            assert(forall|i: int| 0 <= i < m ==> (#[trigger] picks[i]).1 != x);
            assert(mid.established[x] == host.established[x]);
        }
        assert forall|x: UdpAddr|
            (forall|i: int| 0 <= i < n ==> (#[trigger] picks[i]).1 != x) && #[trigger]
            after.handshakes.dom().contains(x) implies host.handshakes.dom().contains(x) by {
            assert(picks[m as int].1 != x);
            assert(forall|i: int| 0 <= i < m ==> (#[trigger] picks[i]).1 != x);
            assert(mid.handshakes.dom().contains(x));
        }
    }
}

/// A round that has begun awaits every picked peer: whoever is established was asked,
/// whoever is not was dialed. Nobody else is touched, there is one round less to
/// come, and the round takes as many datagrams as the configuration says.
pub proof fn begun_rounds_await_the_picked(host: HostView, search: SearchView, seeds: Seq<[u8; 32]>)
    requires
        search.lookup.valid(),
        search.lookup.entries.dom().finite(),
        search.rounds_left > 0,
    ensures
        ({
            let before = search.lookup;
            let picks = before.picks();
            let begun = search.round_begun(planned(host, picks, seeds));
            let after = begun.lookup;
            &&& begun.rounds_left == search.rounds_left - 1
            &&& begun.budget == before.config.max_recv_per_round
            &&& after.target == before.target && after.self_id == before.self_id && after.config
                == before.config
            &&& after.entries.dom() == before.entries.dom()
            &&& forall|i: int|
                0 <= i < picks.len() ==> {
                    let (id, addr) = #[trigger] picks[i];
                    let status = after.entries[distance_of(id, before.target)].status;
                    if host.established.dom().contains(addr) {
                        status == LookupStatus::InFlight && after.pending_queries.dom().contains(
                            addr,
                        )
                    } else {
                        status == LookupStatus::Dialing && after.pending_dials.dom().contains(addr)
                    }
                }
            &&& forall|d: Seq<u8>| #[trigger]
                before.entries.dom().contains(d) && (forall|i: int|
                    0 <= i < picks.len() ==> distance_of((#[trigger] picks[i]).0, before.target)
                        != d) ==> after.entries[d] == before.entries[d]
        }),
{
    let before = search.lookup;
    let picks = before.picks();
    let actions = planned(host, picks, seeds);
    let after = search.round_begun(actions).lookup;
    picks_are_the_closest_waiting(before);
    rounds_turn_to_every_picked_peer(host, Seq::empty(), before.target, picks, seeds, 0);
    lemma_noted(before, actions, actions.len());
    assert forall|i: int, j: int| 0 <= i < j < actions.len() implies (#[trigger] actions[j]).0 != (
    #[trigger] actions[i]).0 by {
        assert(picks[i].0 == actions[i].0 && picks[j].0 == actions[j].0);
        crate::bytes::lemma_lex_irreflexive(distance_of(picks[i].0, before.target));
    }
    assert forall|i: int| 0 <= i < picks.len() implies {
        let (id, addr) = #[trigger] picks[i];
        let status = after.entries[distance_of(id, before.target)].status;
        if host.established.dom().contains(addr) {
            status == LookupStatus::InFlight && after.pending_queries.dom().contains(addr)
        } else {
            status == LookupStatus::Dialing && after.pending_dials.dom().contains(addr)
        }
    } by {
        assert(actions[i].0 == picks[i].0);
        assert(before.in_front(distance_of(picks[i].0, before.target)));
    }
    assert forall|d: Seq<u8>| #[trigger]
        before.entries.dom().contains(d) && (forall|i: int|
            0 <= i < picks.len() ==> distance_of((#[trigger] picks[i]).0, before.target) != d) implies after.entries[d]
        == before.entries[d] by {
        assert forall|i: int| 0 <= i < actions.len() implies distance_of(
            (#[trigger] actions[i]).0,
            before.target,
        ) != d by {
            assert(picks[i].0 == actions[i].0);
        }
    }
}

/// A search comes to its end exactly if its rounds are used up, or none of the `k`
/// closest peers waits, or no peer may be picked at all.
pub proof fn searches_end_when_nobody_waits(search: SearchView)
    requires
        search.lookup.valid(),
        search.lookup.entries.dom().finite(),
        search.lookup.config.alpha > 0,
        search.lookup.pending_queries.len() == 0,
        search.lookup.pending_dials.len() == 0,
    ensures
        search.finished() <==> search.rounds_left == 0 || forall|d: Seq<u8>| #[trigger]
            search.lookup.in_front(d) ==> search.lookup.entries[d].status
                != LookupStatus::Unqueried,
{
    let lookup = search.lookup;
    picks_are_the_closest_waiting(lookup);
    crate::kad::laws::lookups_are_done_when_nobody_waits(lookup);
    if lookup.picks().len() > 0 {
        let p = lookup.picks()[0];
        assert(lookup.in_front(distance_of(p.0, lookup.target)));
    }
    if exists|d: Seq<u8>| #[trigger]
        lookup.in_front(d) && lookup.entries[d].status == LookupStatus::Unqueried {
        let d = choose|d: Seq<u8>| #[trigger]
            lookup.in_front(d) && lookup.entries[d].status == LookupStatus::Unqueried;
        let e = (lookup.entries[d].node_id, lookup.entries[d].addr);
        if lookup.picks().contains(e) {
            assert(lookup.picks().len() > 0);
        }
    }
}

/// A search starts from those of the table's peers that are closest to the target.
pub proof fn searches_start_from_the_nearest(table: TableView, target: NodeId, config: LookupConfig)
    requires
        table.valid(),
    ensures
        nearest(table, target, config.k as nat, started(table, target, config).results()),
        started(table, target, config).pending_queries.dom() == Set::<UdpAddr>::empty(),
        started(table, target, config).pending_dials.dom() == Set::<UdpAddr>::empty(),
        started(table, target, config).target == target,
        started(table, target, config).self_id == table.self_id,
        started(table, target, config).config == config,
        SearchView::fresh(started(table, target, config)).rounds_left == config.max_rounds,
        SearchView::fresh(started(table, target, config)).lookup == started(table, target, config),
{
    closest_peers_are_nearest(table, target, config.k as nat);
    crate::kad::laws::lemma_ranked(table, target);
    fresh_searches_know_the_table(table, target, config);
    let lookup = started(table, target, config);
    assert(lookup.pending_queries.dom() =~= Set::<UdpAddr>::empty());
    assert(lookup.pending_dials.dom() =~= Set::<UdpAddr>::empty());
}

/// How many of the first peers of a list are not established.
proof fn lemma_dials_count(host: HostView, picks: Peers, n: nat)
    requires
        n <= picks.len(),
    ensures
        crate::kad::rounds::dials(host, picks, n) == picks.take(n as int).filter(
            |p: (NodeId, UdpAddr)| !host.established.dom().contains(p.1),
        ).len(),
    decreases n,
{
    reveal(Seq::filter);
    if n > 0 {
        lemma_dials_count(host, picks, (n - 1) as nat);
        assert(picks.take(n as int).drop_last() =~= picks.take(n - 1));
        assert(picks.take(n as int).last() == picks[n - 1]);
    }
}

/// A round takes one seed for each peer that it dials and no more, and no two
/// handshakes share one: each dial takes the seed behind those of the dials before
/// it, and opens with the public key of that seed.
pub proof fn rounds_use_each_seed_once(
    host: HostView,
    search: SearchView,
    prefix: Seq<u8>,
    seeds: Seq<[u8; 32]>,
    i: int,
)
    requires
        0 <= i < search.lookup.picks().len(),
    ensures
        ({
            let picks = search.lookup.picks();
            let strange = |p: (NodeId, UdpAddr)| !host.established.dom().contains(p.1);
            let actions = planned(host, picks, seeds);
            let seed = seeds[picks.take(i).filter(strange).len() as int];
            let target = search.lookup.target;
            &&& !search.finished() ==> search.seeds_wanted(host) == picks.filter(strange).len()
            &&& search.finished() ==> search.seeds_wanted(host) == 0
            &&& strange(picks[i]) ==> actions[i].1 == (RoundAction::Dial {
                addr: picks[i].1,
                seed,
            })
            &&& strange(picks[i]) ==> (performed(
                host,
                prefix,
                target,
                actions,
                (i + 1) as nat,
            ) matches Ok((after, out)) ==> out.last().addr == picks[i].1 && out.last().datagram
                == crate::crypto::x25519_public(seed@) && after.handshakes.dom().contains(
                picks[i].1,
            ))
        }),
{
    let picks = search.lookup.picks();
    lemma_dials_count(host, picks, picks.len());
    lemma_dials_count(host, picks, i as nat);
    assert(picks.take(picks.len() as int) =~= picks);
}

/// A round that fails hands out the datagrams of the actions before the one that
/// could not be performed.
pub proof fn failed_rounds_hand_out_what_came_before(
    host: HostView,
    prefix: Seq<u8>,
    target: NodeId,
    actions: Seq<(NodeId, RoundAction)>,
    n: nat,
) -> (i: nat)
    requires
        performed(host, prefix, target, actions, n) is Err,
    ensures
        i < n,
        performed(host, prefix, target, actions, i) matches Ok((mid, out)) && performed(
            host,
            prefix,
            target,
            actions,
            n,
        ) matches Err(e) && e.outbound == out && match actions[i as int].1 {
            RoundAction::Query { addr } => mid.send_error(
                addr,
                prefix + (seq![0x02u8] + target@),
            ) == Some(e.error),
            RoundAction::Dial { addr, .. } => mid.dial_error(addr) == Some(e.error),
        },
    decreases n,
{
    let m = (n - 1) as nat;
    if performed(host, prefix, target, actions, m) is Err {
        failed_rounds_hand_out_what_came_before(host, prefix, target, actions, m)
    } else {
        m
    }
}

/// Of the addresses under which an answer names an unknown peer the first one counts.
pub proof fn answers_give_the_first_address(
    entries: Entries,
    peers: Peers,
    n: nat,
    self_id: NodeId,
    target: NodeId,
    i: int,
)
    requires
        0 <= i < n <= peers.len(),
        peers[i].0 != self_id,
        !entries.dom().contains(distance_of(peers[i].0, target)),
        forall|j: int| 0 <= j < i ==> (#[trigger] peers[j]).0 != peers[i].0,
    ensures
        absorbed(entries, peers, n, self_id, target)[distance_of(peers[i].0, target)] == (
        LookupEntry { node_id: peers[i].0, addr: peers[i].1, status: LookupStatus::Unqueried }),
    decreases n,
{
    let m = (n - 1) as nat;
    let d = distance_of(peers[i].0, target);
    if i < m {
        answers_give_the_first_address(entries, peers, m, self_id, target, i);
        absorbing_learns_every_peer(entries, peers, m, self_id, target, i);
    } else {
        lemma_absorbed_is_new(entries, peers.take(i), m, self_id, target);
        lemma_absorbed_front(entries, peers, m, self_id, target);
        let before = absorbed(entries, peers, m, self_id, target);
        if before.dom().contains(d) {
            let e = before[d];
            crate::kad::node_id::distance_is_injective(e.node_id, peers[i].0, target);
            let j = peers.take(i).index_of((e.node_id, e.addr));
            assert(peers[j].0 == peers[i].0);
        }
    }
}

/// What is added of the front of a list depends on the front alone.
proof fn lemma_absorbed_front(
    entries: Entries,
    peers: Peers,
    n: nat,
    self_id: NodeId,
    target: NodeId,
)
    requires
        n <= peers.len(),
    ensures
        forall|m: nat|
            m <= n ==> #[trigger] absorbed(entries, peers, m, self_id, target) == absorbed(
                entries,
                peers.take(n as int),
                m,
                self_id,
                target,
            ),
{
    assert forall|m: nat| m <= n implies #[trigger] absorbed(entries, peers, m, self_id, target)
        == absorbed(entries, peers.take(n as int), m, self_id, target) by {
        lemma_absorbed_same(entries, peers, peers.take(n as int), m, self_id, target);
    }
}

/// Lists with a common front add the same of it.
proof fn lemma_absorbed_same(
    entries: Entries,
    a: Peers,
    b: Peers,
    m: nat,
    self_id: NodeId,
    target: NodeId,
)
    requires
        m <= a.len(),
        m <= b.len(),
        forall|i: int| 0 <= i < m ==> a[i] == b[i],
    ensures
        absorbed(entries, a, m, self_id, target) == absorbed(entries, b, m, self_id, target),
    decreases m,
{
    if m > 0 {
        lemma_absorbed_same(entries, a, b, (m - 1) as nat, self_id, target);
    }
}

} // verus!
