//! What lookups, routing tables and answers promise, told without the order of
//! their steps.
use vstd::prelude::*;
use crate::addr::UdpAddr;
use crate::bytes::{lemma_lex_irreflexive, lemma_lex_transitive, lex_before};
use crate::kad::bucket::{no_peer_twice, Peers};
use crate::kad::distance::Distance;
use crate::kad::lookup::{LookupEntry, LookupStatus, LookupView};
use crate::kad::node_id::{distance_is_injective, distance_of, NodeId};
use crate::kad::routing_table::{lemma_gathered, lemma_ranking, ranking, ranks, TableView};
use crate::ordered_map::{finite_sets_are_listed, listing, lists, OrderedKey};

verus! {

// ------------------------------------------------------------ preparations

/// Filtering keeps the elements that satisfy the predicate, in their order.
pub proof fn lemma_filter_keeps_order<A>(
    s: Seq<A>,
    p: spec_fn(A) -> bool,
    r: spec_fn(A, A) -> bool,
)
    requires
        forall|i: int, j: int| 0 <= i < j < s.len() ==> r(#[trigger] s[i], #[trigger] s[j]),
    ensures
        forall|i: int, j: int|
            0 <= i < j < s.filter(p).len() ==> r(
                #[trigger] s.filter(p)[i],
                #[trigger] s.filter(p)[j],
            ),
        forall|x: A| #[trigger] s.filter(p).contains(x) <==> s.contains(x) && p(x),
    decreases s.len(),
{
    reveal(Seq::filter);
    if s.len() > 0 {
        let head = s.drop_last();
        assert forall|i: int, j: int| 0 <= i < j < head.len() implies r(
            #[trigger] head[i],
            #[trigger] head[j],
        ) by {
            assert(r(s[i], s[j]));
        }
        lemma_filter_keeps_order(head, p, r);
        let before = head.filter(p);
        let all = s.filter(p);
        let last = s.last();
        assert forall|x: A| #[trigger] all.contains(x) <==> s.contains(x) && p(x) by {
            if all.contains(x) {
                let i = all.index_of(x);
                if i < before.len() {
                    assert(before[i] == x);
                    assert(before.contains(x));
                    let q = head.index_of(x);
                    assert(s[q] == x);
                } else {
                    assert(s[s.len() - 1] == x);
                }
            }
            if s.contains(x) && p(x) {
                let q = s.index_of(x);
                if q < head.len() {
                    assert(head[q] == x);
                    assert(before.contains(x));
                    let i = before.index_of(x);
                    assert(all[i] == x);
                } else {
                    assert(all[all.len() - 1] == x);
                }
            }
        }
        if p(last) {
            assert forall|i: int, j: int| 0 <= i < j < all.len() implies r(
                #[trigger] all[i],
                #[trigger] all[j],
            ) by {
                if j < before.len() {
                    assert(before[i] == all[i] && before[j] == all[j]);
                } else {
                    assert(before[i] == all[i]);
                    assert(before.contains(before[i]));
                    let q = head.index_of(before[i]);
                    assert(r(s[q], s[s.len() - 1]));
                }
            }
        }
    } else {
        assert(s.filter(p) =~= s);
    }
}

/// In an ascending list as many keys come before the key at `i` as its index says.
proof fn lemma_keys_before(keys: Seq<Seq<u8>>, dom: Set<Seq<u8>>, i: int)
    requires
        lists::<Distance>(keys, dom),
        0 <= i < keys.len(),
    ensures
        dom.filter(|x: Seq<u8>| lex_before(x, keys[i])).finite(),
        dom.filter(|x: Seq<u8>| lex_before(x, keys[i])).len() == i,
{
    let closer = dom.filter(|x: Seq<u8>| lex_before(x, keys[i]));
    let front = keys.take(i);
    assert forall|p: int, q: int| 0 <= p < front.len() && 0 <= q < front.len() && p != q implies front[p]
        != front[q] by {
        lemma_lex_irreflexive(keys[p]);
        if p < q {
            assert(Distance::precedes(keys[p], keys[q]));
        } else {
            assert(Distance::precedes(keys[q], keys[p]));
        }
    }
    assert(front.no_duplicates());
    front.unique_seq_to_set();
    assert forall|x: Seq<u8>| front.to_set().contains(x) <==> closer.contains(x) by {
        if front.contains(x) {
            let p = front.index_of(x);
            assert(keys[p] == x);
            assert(keys.contains(x));
            assert(dom.contains(x));
            assert(Distance::precedes(keys[p], keys[i]));
        }
        if closer.contains(x) {
            assert(keys.contains(x));
            let p = keys.index_of(x);
            if p > i {
                assert(Distance::precedes(keys[i], keys[p]));
                lemma_lex_transitive(keys[i], x, keys[i]);
            }
            lemma_lex_irreflexive(keys[i]);
            assert(front[p] == x);
        }
    }
    assert(front.to_set() =~= closer);
}

// ----------------------------------------------------------------- lookups

impl LookupView {
    /// Whether a distance is among the `k` smallest that the lookup knows: fewer
    /// than `k` known peers are closer to the target.
    pub open spec fn in_front(self, d: Seq<u8>) -> bool {
        self.entries.dom().contains(d) && self.entries.dom().filter(
            |x: Seq<u8>| lex_before(x, d),
        ).len() < self.config.k
    }
}

/// The closest peers that a lookup knows, by their keys.
proof fn lemma_front(lookup: LookupView)
    requires
        lookup.valid(),
        lookup.entries.dom().finite(),
    ensures
        lists::<Distance>(listing::<Distance>(lookup.entries.dom()), lookup.entries.dom()),
        lookup.front().len() == if lookup.entries.dom().len() <= lookup.config.k {
            lookup.entries.dom().len()
        } else {
            lookup.config.k as nat
        },
        forall|i: int|
            0 <= i < lookup.front().len() ==> {
                let e = #[trigger] lookup.front()[i];
                let d = distance_of(e.node_id, lookup.target);
                lookup.in_front(d) && lookup.entries[d] == e
            },
        forall|i: int, j: int|
            0 <= i < j < lookup.front().len() ==> lex_before(
                distance_of((#[trigger] lookup.front()[i]).node_id, lookup.target),
                distance_of((#[trigger] lookup.front()[j]).node_id, lookup.target),
            ),
        forall|d: Seq<u8>| #[trigger]
            lookup.in_front(d) ==> lookup.front().contains(lookup.entries[d]),
{
    let dom = lookup.entries.dom();
    finite_sets_are_listed::<Distance>(dom);
    let keys = listing::<Distance>(dom);
    let front = lookup.front();
    assert forall|i: int| 0 <= i < front.len() implies {
        let e = #[trigger] front[i];
        let d = distance_of(e.node_id, lookup.target);
        d == keys[i] && lookup.in_front(d) && lookup.entries[d] == e
    } by {
        assert(front[i] == lookup.entries[keys[i]]);
        assert(keys.contains(keys[i]));
        assert(dom.contains(keys[i]));
        lemma_keys_before(keys, dom, i);
    }
    assert forall|i: int, j: int| 0 <= i < j < front.len() implies lex_before(
        distance_of((#[trigger] front[i]).node_id, lookup.target),
        distance_of((#[trigger] front[j]).node_id, lookup.target),
    ) by {
        assert(Distance::precedes(keys[i], keys[j]));
    }
    assert forall|d: Seq<u8>| #[trigger] lookup.in_front(d) implies front.contains(
        lookup.entries[d],
    ) by {
        assert(keys.contains(d));
        let i = keys.index_of(d);
        lemma_keys_before(keys, dom, i);
        assert(front[i] == lookup.entries[d]);
    }
}

/// A round turns to the closest peers that wait: among the `k` closest that the
/// lookup knows it picks those that were not asked, by ascending distance, at most
/// `alpha`; and whoever waits there in vain is farther away than every picked peer,
/// of whom there are `alpha`.
pub proof fn picks_are_the_closest_waiting(lookup: LookupView)
    requires
        lookup.valid(),
        lookup.entries.dom().finite(),
    ensures
        lookup.picks().len() <= lookup.config.alpha,
        forall|i: int|
            0 <= i < lookup.picks().len() ==> {
                let (id, addr) = #[trigger] lookup.picks()[i];
                let d = distance_of(id, lookup.target);
                &&& lookup.in_front(d)
                &&& lookup.entries[d].node_id == id
                &&& lookup.entries[d].addr == addr
                &&& lookup.entries[d].status == LookupStatus::Unqueried
            },
        forall|i: int, j: int|
            0 <= i < j < lookup.picks().len() ==> lex_before(
                distance_of((#[trigger] lookup.picks()[i]).0, lookup.target),
                distance_of((#[trigger] lookup.picks()[j]).0, lookup.target),
            ),
        forall|d: Seq<u8>| #[trigger]
            lookup.in_front(d) && lookup.entries[d].status == LookupStatus::Unqueried
                && !lookup.picks().contains((lookup.entries[d].node_id, lookup.entries[d].addr))
                ==> {
                &&& lookup.picks().len() == lookup.config.alpha
                &&& forall|i: int|
                    0 <= i < lookup.picks().len() ==> lex_before(
                        distance_of((#[trigger] lookup.picks()[i]).0, lookup.target),
                        d,
                    )
            },
{
    lemma_front(lookup);
    let target = lookup.target;
    let front = lookup.front();
    let waits = |e: LookupEntry| e.status == LookupStatus::Unqueried;
    let closer = |a: LookupEntry, b: LookupEntry|
        lex_before(distance_of(a.node_id, target), distance_of(b.node_id, target));
    lemma_filter_keeps_order(front, waits, closer);
    let waiting = front.filter(waits);
    let picks = lookup.picks();
    assert forall|i: int| 0 <= i < picks.len() implies {
        let (id, addr) = #[trigger] picks[i];
        let d = distance_of(id, target);
        &&& lookup.in_front(d)
        &&& lookup.entries[d].node_id == id
        &&& lookup.entries[d].addr == addr
        &&& lookup.entries[d].status == LookupStatus::Unqueried
        &&& waiting[i].node_id == id
    } by {
        assert(waiting.contains(waiting[i]));
        let q = front.index_of(waiting[i]);
        assert(front[q] == waiting[i]);
    }
    assert forall|i: int, j: int| 0 <= i < j < picks.len() implies lex_before(
        distance_of((#[trigger] picks[i]).0, target),
        distance_of((#[trigger] picks[j]).0, target),
    ) by {
        assert(closer(waiting[i], waiting[j]));
    }
    assert forall|d: Seq<u8>| #[trigger]
        lookup.in_front(d) && lookup.entries[d].status == LookupStatus::Unqueried
            && !picks.contains((lookup.entries[d].node_id, lookup.entries[d].addr)) implies {
        &&& picks.len() == lookup.config.alpha
        &&& forall|i: int|
            0 <= i < picks.len() ==> lex_before(distance_of((#[trigger] picks[i]).0, target), d)
    } by {
        let e = lookup.entries[d];
        assert(front.contains(e));
        assert(waiting.contains(e));
        let q = waiting.index_of(e);
        if q < picks.len() {
            assert(picks[q] == (e.node_id, e.addr));
            assert(false);
        }
        assert forall|i: int| 0 <= i < picks.len() implies lex_before(
            distance_of((#[trigger] picks[i]).0, target),
            d,
        ) by {
            assert(closer(waiting[i], waiting[q]));
        }
    }
}

/// A lookup ends with the closest peers that it knows: they ascend, none is missing
/// while there is room for `k`, and whoever is left out is farther away than every
/// one of them.
pub proof fn results_are_the_closest_known(lookup: LookupView)
    requires
        lookup.valid(),
        lookup.entries.dom().finite(),
    ensures
        lookup.results().len() <= lookup.config.k,
        forall|i: int|
            0 <= i < lookup.results().len() ==> {
                let (id, addr) = #[trigger] lookup.results()[i];
                let d = distance_of(id, lookup.target);
                &&& id != lookup.self_id
                &&& lookup.entries.dom().contains(d)
                &&& lookup.entries[d].node_id == id
                &&& lookup.entries[d].addr == addr
            },
        forall|i: int, j: int|
            0 <= i < j < lookup.results().len() ==> lex_before(
                distance_of((#[trigger] lookup.results()[i]).0, lookup.target),
                distance_of((#[trigger] lookup.results()[j]).0, lookup.target),
            ),
        forall|d: Seq<u8>| #[trigger]
            lookup.entries.dom().contains(d) && !lookup.results().contains(
                (lookup.entries[d].node_id, lookup.entries[d].addr),
            ) ==> {
                &&& lookup.results().len() == lookup.config.k
                &&& forall|i: int|
                    0 <= i < lookup.results().len() ==> lex_before(
                        distance_of((#[trigger] lookup.results()[i]).0, lookup.target),
                        d,
                    )
            },
{
    lemma_front(lookup);
    let dom = lookup.entries.dom();
    let keys = listing::<Distance>(dom);
    let results = lookup.results();
    assert forall|i: int| 0 <= i < results.len() implies {
        let (id, addr) = #[trigger] results[i];
        let d = distance_of(id, lookup.target);
        &&& d == keys[i]
        &&& id != lookup.self_id
        &&& lookup.entries.dom().contains(d)
        &&& lookup.entries[d].node_id == id
        &&& lookup.entries[d].addr == addr
    } by {
        assert(lookup.front()[i] == lookup.entries[keys[i]]);
        assert(keys.contains(keys[i]));
        assert(dom.contains(keys[i]));
        assert(results[i].0 == lookup.entries[keys[i]].node_id);
    }
    assert forall|i: int, j: int| 0 <= i < j < results.len() implies lex_before(
        distance_of((#[trigger] results[i]).0, lookup.target),
        distance_of((#[trigger] results[j]).0, lookup.target),
    ) by {
        assert(Distance::precedes(keys[i], keys[j]));
    }
    assert forall|d: Seq<u8>| #[trigger]
        dom.contains(d) && !results.contains(
            (lookup.entries[d].node_id, lookup.entries[d].addr),
        ) implies {
        &&& results.len() == lookup.config.k
        &&& forall|i: int|
            0 <= i < results.len() ==> lex_before(
                distance_of((#[trigger] results[i]).0, lookup.target),
                d,
            )
    } by {
        assert(keys.contains(d));
        let q = keys.index_of(d);
        if q < results.len() {
            assert(lookup.front()[q] == lookup.entries[d]);
            assert(results[q] == (lookup.entries[d].node_id, lookup.entries[d].addr));
            assert(false);
        }
        assert forall|i: int| 0 <= i < results.len() implies lex_before(
            distance_of((#[trigger] results[i]).0, lookup.target),
            d,
        ) by {
            assert(Distance::precedes(keys[i], keys[q]));
        }
    }
}

/// A lookup is done exactly if nothing is awaited and each of the `k` closest peers
/// that it knows was turned to.
pub proof fn lookups_are_done_when_nobody_waits(lookup: LookupView)
    requires
        lookup.valid(),
        lookup.entries.dom().finite(),
    ensures
        lookup.is_done() <==> lookup.pending_queries.len() == 0 && lookup.pending_dials.len() == 0
            && forall|d: Seq<u8>| #[trigger]
            lookup.in_front(d) ==> lookup.entries[d].status != LookupStatus::Unqueried,
{
    lemma_front(lookup);
    let front = lookup.front();
    if lookup.is_done() {
        assert forall|d: Seq<u8>| #[trigger] lookup.in_front(d) implies lookup.entries[d].status
            != LookupStatus::Unqueried by {
            let q = front.index_of(lookup.entries[d]);
            assert(front[q] == lookup.entries[d]);
        }
    }
}

// ----------------------------------------------------------- routing tables

impl TableView {
    /// Whether a peer stands in some bucket with an address.
    pub open spec fn holds(self, id: NodeId, addr: UdpAddr) -> bool {
        exists|b: int| 0 <= b < self.buckets.len() && (#[trigger] self.buckets[b]).contains((id, addr))
    }
}

/// Whether `peers` are closest to the target among those of a table: they ascend by
/// distance, all are in the table, and whoever is left out is farther away than each
/// of the `n` that are not.
pub open spec fn nearest(table: TableView, target: NodeId, n: nat, peers: Peers) -> bool {
    &&& peers.len() <= n
    &&& forall|i: int|
        0 <= i < peers.len() ==> table.holds((#[trigger] peers[i]).0, peers[i].1)
    &&& forall|i: int, j: int|
        0 <= i < j < peers.len() ==> lex_before(
            distance_of((#[trigger] peers[i]).0, target),
            distance_of((#[trigger] peers[j]).0, target),
        )
    &&& forall|id: NodeId, addr: UdpAddr| #[trigger]
        table.holds(id, addr) && !peers.contains((id, addr)) ==> {
            &&& peers.len() == n
            &&& forall|i: int|
                0 <= i < peers.len() ==> lex_before(
                    distance_of((#[trigger] peers[i]).0, target),
                    distance_of(id, target),
                )
        }
}

/// The peers of a valid table can be ranked.
pub proof fn lemma_ranked(table: TableView, target: NodeId)
    requires
        table.valid(),
    ensures
        ranks(ranking(table.all(), target), table.all(), target),
        no_peer_twice(table.all()),
        forall|id: NodeId, addr: UdpAddr|
            table.all().contains((id, addr)) <==> #[trigger] table.holds(id, addr),
{
    let all = table.all();
    lemma_gathered(table, 256);
    assert forall|id: NodeId, addr: UdpAddr|
        all.contains((id, addr)) <==> #[trigger] table.holds(id, addr) by {}
    let distances = all.map_values(|e: (NodeId, UdpAddr)| distance_of(e.0, target));
    let dom = distances.to_set();
    distances.lemma_cardinality_of_set();
    finite_sets_are_listed::<Distance>(dom);
    let keys = listing::<Distance>(dom);
    let ranked = keys.map_values(|d: Seq<u8>| all[distances.index_of(d)]);
    assert forall|i: int| 0 <= i < keys.len() implies {
        &&& all.contains(#[trigger] ranked[i])
        &&& distance_of(ranked[i].0, target) == keys[i]
    } by {
        assert(keys.contains(keys[i]));
        assert(dom.contains(keys[i]));
        assert(distances.contains(keys[i]));
        let q = distances.index_of(keys[i]);
        assert(distances[q] == keys[i]);
    }
    assert forall|i: int, j: int| 0 <= i < j < ranked.len() implies lex_before(
        distance_of((#[trigger] ranked[i]).0, target),
        distance_of((#[trigger] ranked[j]).0, target),
    ) by {
        assert(Distance::precedes(keys[i], keys[j]));
    }
    assert forall|e: (NodeId, UdpAddr)| #[trigger] ranked.contains(e) <==> all.contains(e) by {
        if ranked.contains(e) {
            let i = ranked.index_of(e);
            assert(all.contains(ranked[i]));
        }
        if all.contains(e) {
            let p = all.index_of(e);
            let d = distance_of(e.0, target);
            assert(distances[p] == d);
            assert(dom.contains(d));
            assert(keys.contains(d));
            let i = keys.index_of(d);
            assert(all.contains(ranked[i]));
            distance_is_injective(ranked[i].0, e.0, target);
            let q = all.index_of(ranked[i]);
            if p < q {
                assert(all[p].0 != all[q].0);
            } else if q < p {
                assert(all[q].0 != all[p].0);
            }
            assert(ranked[i] == e);
        }
    }
    assert(ranks(ranked, all, target));
    lemma_ranking(ranked, all, target);
}

/// A table names those of its peers that are closest to a target, and names as many
/// as it is asked for while it has them.
pub proof fn closest_peers_are_nearest(table: TableView, target: NodeId, n: nat)
    requires
        table.valid(),
    ensures
        nearest(table, target, n, table.closest(target, n)),
        forall|i: int|
            0 <= i < table.closest(target, n).len() ==> (
            #[trigger] table.closest(target, n)[i]).0 != table.self_id,
{
    lemma_ranked(table, target);
    crate::kad::routing_table::closest_peers_ascend(table, target, n);
    let ranked = ranking(table.all(), target);
    let peers = table.closest(target, n);
    assert forall|i: int| 0 <= i < peers.len() implies table.holds(
        (#[trigger] peers[i]).0,
        peers[i].1,
    ) by {
        assert(ranked[i] == peers[i]);
        assert(ranked.contains(ranked[i]));
        assert(table.all().contains((peers[i].0, peers[i].1)));
    }
    assert forall|id: NodeId, addr: UdpAddr| #[trigger]
        table.holds(id, addr) && !peers.contains((id, addr)) implies {
        &&& peers.len() == n
        &&& forall|i: int|
            0 <= i < peers.len() ==> lex_before(
                distance_of((#[trigger] peers[i]).0, target),
                distance_of(id, target),
            )
    } by {
        assert(table.all().contains((id, addr)));
        assert(ranked.contains((id, addr)));
        let q = ranked.index_of((id, addr));
        if q < peers.len() {
            assert(peers[q] == (id, addr));
            assert(false);
        }
        assert forall|i: int| 0 <= i < peers.len() implies lex_before(
            distance_of((#[trigger] peers[i]).0, target),
            distance_of(id, target),
        ) by {
            assert(ranked[i] == peers[i]);
            assert(lex_before(distance_of(ranked[i].0, target), distance_of(ranked[q].0, target)));
        }
    }
}

} // verus!
