//! The routing table: one bucket for each position of the highest bit of the
//! distance.
use vstd::prelude::*;
use crate::addr::UdpAddr;
use crate::bytes::lex_before;
use crate::kad::bucket::{
    lemma_offered, lemma_without, lists_peer, no_peer_twice, offer_reported, offered, without,
    Bucket, InsertOutcome, Peers,
};
use crate::kad::distance::{bucket_of, lemma_no_bucket_iff_zero, Distance};
use crate::kad::laws::{closest_peers_are_nearest, nearest};
use crate::kad::node_id::{
    distance_is_injective, distance_is_zero_iff_equal, distance_of, node_id_len, NodeId,
    NODE_ID_BITS,
};
use crate::ordered_map::{at, lemma_index, lemma_lists_unique, OrderedKey, OrderedMap};

verus! {

/// The peers of the first `n` buckets, one bucket after the other.
pub open spec fn gathered(buckets: Seq<Peers>, n: nat) -> Peers
    decreases n,
{
    if n == 0 {
        Seq::empty()
    } else {
        gathered(buckets, (n - 1) as nat) + buckets[n - 1]
    }
}

/// `ranked` holds exactly the peers of `all`, by ascending distance to `target`.
pub open spec fn ranks(ranked: Peers, all: Peers, target: NodeId) -> bool {
    &&& forall|i: int, j: int|
        0 <= i < j < ranked.len() ==> lex_before(
            distance_of((#[trigger] ranked[i]).0, target),
            distance_of((#[trigger] ranked[j]).0, target),
        )
    &&& forall|e: (NodeId, UdpAddr)| #[trigger] ranked.contains(e) <==> all.contains(e)
}

/// The peers of `all` by ascending distance to `target`.
pub open spec fn ranking(all: Peers, target: NodeId) -> Peers {
    choose|ranked: Peers| ranks(ranked, all, target)
}

/// At most `n` elements from the front.
pub open spec fn at_most<A>(s: Seq<A>, n: nat) -> Seq<A> {
    if s.len() <= n {
        s
    } else {
        s.take(n as int)
    }
}

/// Distinct peers are ranked in one way only.
pub proof fn lemma_ranking(ranked: Peers, all: Peers, target: NodeId)
    requires
        no_peer_twice(all),
        ranks(ranked, all, target),
    ensures
        ranking(all, target) == ranked,
{
    let other = ranking(all, target);
    let d = |e: (NodeId, UdpAddr)| distance_of(e.0, target);
    let a = ranked.map_values(d);
    let b = other.map_values(d);
    let dom = Set::new(|x: Seq<u8>| exists|e: (NodeId, UdpAddr)| all.contains(e) && d(e) == x);
    assert forall|i: int, j: int| 0 <= i < j < a.len() implies Distance::precedes(
        #[trigger] a[i],
        #[trigger] a[j],
    ) by {
        assert(lex_before(distance_of(ranked[i].0, target), distance_of(ranked[j].0, target)));
    }
    assert forall|i: int, j: int| 0 <= i < j < b.len() implies Distance::precedes(
        #[trigger] b[i],
        #[trigger] b[j],
    ) by {
        assert(lex_before(distance_of(other[i].0, target), distance_of(other[j].0, target)));
    }
    assert forall|x: Seq<u8>| a.contains(x) <==> #[trigger] dom.contains(x) by {
        if a.contains(x) {
            let i = a.index_of(x);
            assert(ranked.contains(ranked[i]));
        }
        if dom.contains(x) {
            let e = choose|e: (NodeId, UdpAddr)| all.contains(e) && d(e) == x;
            assert(ranked.contains(e));
            let i = ranked.index_of(e);
            assert(a[i] == x);
        }
    }
    assert forall|x: Seq<u8>| b.contains(x) <==> #[trigger] dom.contains(x) by {
        if b.contains(x) {
            let i = b.index_of(x);
            assert(other.contains(other[i]));
        }
        if dom.contains(x) {
            let e = choose|e: (NodeId, UdpAddr)| all.contains(e) && d(e) == x;
            assert(other.contains(e));
            let i = other.index_of(e);
            assert(b[i] == x);
        }
    }
    lemma_lists_unique::<Distance>(a, b, dom);
    assert(ranked.len() == a.len() && other.len() == b.len());
    assert forall|i: int| 0 <= i < ranked.len() implies ranked[i] == other[i] by {
        assert(a[i] == b[i]);
        distance_is_injective(ranked[i].0, other[i].0, target);
        assert(ranked.contains(ranked[i]));
        assert(other.contains(other[i]));
        assert(all.contains(ranked[i]));
        assert(all.contains(other[i]));
        let p = all.index_of(ranked[i]);
        let q = all.index_of(other[i]);
        if p < q {
            assert(all[p].0 != all[q].0);
        } else if q < p {
            assert(all[q].0 != all[p].0);
        }
    }
    assert(ranked =~= other);
}

/// The meaning of a routing table.
pub struct TableView {
    pub self_id: NodeId,
    pub k: nat,
    pub buckets: Seq<Peers>,
}

impl TableView {
    /// An empty table.
    pub open spec fn empty(self_id: NodeId, k: nat) -> TableView {
        TableView { self_id, k, buckets: Seq::new(256, |i: int| Peers::empty()) }
    }

    /// There are 256 buckets within their bound, no peer is listed twice, and
    /// each peer stands in the bucket of its distance.
    pub open spec fn valid(self) -> bool {
        &&& self.buckets.len() == 256
        &&& forall|i: int|
            0 <= i < 256 ==> (#[trigger] self.buckets[i]).len() <= self.k && no_peer_twice(
                self.buckets[i],
            )
        &&& forall|i: int, j: int|
            0 <= i < 256 && 0 <= j < self.buckets[i].len() ==> bucket_of(
                distance_of(self.self_id, (#[trigger] self.buckets[i][j]).0),
            ) == Some(i)
    }

    /// All peers, bucket by bucket.
    pub open spec fn all(self) -> Peers {
        gathered(self.buckets, 256)
    }

    /// Whether a peer is in the table.
    pub open spec fn contains(self, peer: NodeId) -> bool {
        exists|i: int| 0 <= i < self.buckets.len() && lists_peer(#[trigger] self.buckets[i], peer)
    }

    /// The bucket for a peer, none for the table's owner.
    pub open spec fn bucket_for(self, peer: NodeId) -> Option<int> {
        bucket_of(distance_of(self.self_id, peer))
    }

    /// The table after a peer was offered.
    pub open spec fn inserted(self, peer: NodeId, addr: UdpAddr) -> TableView {
        match self.bucket_for(peer) {
            None => self,
            Some(i) => TableView {
                buckets: self.buckets.update(i, offered(self.buckets[i], self.k, peer, addr)),
                ..self
            },
        }
    }

    /// The table without a peer.
    pub open spec fn removed(self, peer: NodeId) -> TableView {
        match self.bucket_for(peer) {
            None => self,
            Some(i) => TableView {
                buckets: self.buckets.update(i, without(self.buckets[i], peer)),
                ..self
            },
        }
    }

    /// The at most `n` peers that are closest to `target`, by ascending
    /// distance.
    pub open spec fn closest(self, target: NodeId, n: nat) -> Peers {
        at_most(ranking(self.all(), target), n)
    }

    /// The table after each of the first `n` peers was offered, but for the
    /// owner.
    pub open spec fn merged(self, peers: Peers, n: nat) -> TableView
        decreases n,
    {
        if n == 0 {
            self
        } else {
            let before = self.merged(peers, (n - 1) as nat);
            let (id, addr) = peers[n - 1];
            before.inserted(id, addr)
        }
    }
}

/// A peer that is listed stands in the bucket of its distance.
pub proof fn lemma_contains(table: TableView, peer: NodeId)
    requires
        table.valid(),
    ensures
        table.contains(peer) <==> (table.bucket_for(peer) matches Some(i) && lists_peer(
            table.buckets[i],
            peer,
        )),
{
    broadcast use node_id_len;

    lemma_no_bucket_iff_zero(distance_of(table.self_id, peer));
    if table.contains(peer) {
        let i = choose|i: int|
            0 <= i < table.buckets.len() && lists_peer(#[trigger] table.buckets[i], peer);
        let j = choose|j: int|
            0 <= j < table.buckets[i].len() && (#[trigger] table.buckets[i][j]).0 == peer;
        assert(table.buckets[i][j].0 == peer);
    }
}

/// The owner is never in its own table.
pub proof fn owner_is_never_listed(table: TableView)
    requires
        table.valid(),
    ensures
        !table.contains(table.self_id),
{
    lemma_contains(table, table.self_id);
    distance_is_zero_iff_equal(table.self_id, table.self_id);
}

/// Offering a peer keeps the table valid.
pub proof fn insert_keeps_the_table_valid(table: TableView, peer: NodeId, addr: UdpAddr)
    requires
        table.valid(),
    ensures
        table.inserted(peer, addr).valid(),
{
    broadcast use node_id_len;

    lemma_no_bucket_iff_zero(distance_of(table.self_id, peer));
    if let Some(b) = table.bucket_for(peer) {
        let next = table.inserted(peer, addr);
        lemma_offered(table.buckets[b], table.k, peer, addr);
        assert forall|i: int, j: int| 0 <= i < 256 && 0 <= j < next.buckets[i].len() implies bucket_of(
            distance_of(next.self_id, (#[trigger] next.buckets[i][j]).0),
        ) == Some(i) by {
            if i == b {
                let e = next.buckets[i][j];
                assert(next.buckets[i].contains(e));
                if table.buckets[b].contains(e) {
                    let p = table.buckets[b].index_of(e);
                    assert(table.buckets[b][p] == e);
                }
            } else {
                assert(next.buckets[i] == table.buckets[i]);
                assert(table.buckets[i][j] == next.buckets[i][j]);
            }
        }
    }
}

/// Taking a peer out keeps the table valid, and the peer is gone.
pub proof fn remove_takes_the_peer_out(table: TableView, peer: NodeId)
    requires
        table.valid(),
    ensures
        table.removed(peer).valid(),
        !table.removed(peer).contains(peer),
{
    broadcast use node_id_len;

    lemma_no_bucket_iff_zero(distance_of(table.self_id, peer));
    let next = table.removed(peer);
    if let Some(b) = table.bucket_for(peer) {
        lemma_without(table.buckets[b], peer);
        assert forall|i: int, j: int| 0 <= i < 256 && 0 <= j < next.buckets[i].len() implies bucket_of(
            distance_of(next.self_id, (#[trigger] next.buckets[i][j]).0),
        ) == Some(i) by {
            if i == b {
                let e = next.buckets[i][j];
                assert(next.buckets[i].contains(e));
                let p = table.buckets[b].index_of(e);
                assert(table.buckets[b][p] == e);
            } else {
                assert(table.buckets[i][j] == next.buckets[i][j]);
            }
        }
    }
    lemma_contains(next, peer);
}

/// A peer that fits, or is known, is in the table once it was offered; every
/// other peer is in the table afterwards exactly if it was before.
pub proof fn insert_touches_one_peer(table: TableView, peer: NodeId, addr: UdpAddr, other: NodeId)
    requires
        table.valid(),
        other != peer,
    ensures
        table.inserted(peer, addr).contains(other) <==> table.contains(other),
        peer != table.self_id && (table.contains(peer) || table.buckets[table.bucket_for(
            peer,
        )->Some_0].len() < table.k) ==> table.inserted(peer, addr).contains(peer),
{
    broadcast use node_id_len;

    let next = table.inserted(peer, addr);
    insert_keeps_the_table_valid(table, peer, addr);
    lemma_contains(table, other);
    lemma_contains(next, other);
    lemma_contains(table, peer);
    lemma_contains(next, peer);
    lemma_no_bucket_iff_zero(distance_of(table.self_id, peer));
    lemma_no_bucket_iff_zero(distance_of(table.self_id, other));
    distance_is_zero_iff_equal(table.self_id, peer);
    if let Some(b) = table.bucket_for(peer) {
        let old_list = table.buckets[b];
        let new_list = offered(old_list, table.k, peer, addr);
        lemma_offered(old_list, table.k, peer, addr);
        lemma_without(old_list, peer);
        if table.bucket_for(other) == Some(b) {
            if lists_peer(new_list, other) {
                let j = choose|j: int| 0 <= j < new_list.len() && (#[trigger] new_list[j]).0
                    == other;
                assert(new_list.contains(new_list[j]));
                let p = old_list.index_of(new_list[j]);
                assert(old_list[p].0 == other);
            }
            if lists_peer(old_list, other) {
                let j = choose|j: int| 0 <= j < old_list.len() && (#[trigger] old_list[j]).0
                    == other;
                let e = old_list[j];
                assert(old_list.contains(e));
                let rest = if lists_peer(old_list, peer) {
                    without(old_list, peer)
                } else {
                    old_list
                };
                assert(rest.contains(e));
                let q = rest.index_of(e);
                if lists_peer(old_list, peer) || old_list.len() < table.k {
                    assert(new_list[q + 1] == e);
                } else {
                    assert(new_list[q] == e);
                }
            }
        }
        if new_list.contains((peer, addr)) {
            let q = new_list.index_of((peer, addr));
            assert(new_list[q].0 == peer);
        }
    }
}

/// Replacing one bucket changes the number of peers by what the bucket gains.
proof fn lemma_gathered_update(buckets: Seq<Peers>, n: nat, b: int, list: Peers)
    requires
        0 <= b < buckets.len(),
        n <= buckets.len(),
    ensures
        gathered(buckets.update(b, list), n).len() == gathered(buckets, n).len() + if b < n {
            list.len() - buckets[b].len()
        } else {
            0
        },
    decreases n,
{
    if n > 0 {
        lemma_gathered_update(buckets, (n - 1) as nat, b, list);
    }
}

/// Offering a peer adds one peer where it is new and its bucket has room, and
/// none where it is known, is the owner, or its bucket is full.
pub proof fn insert_adds_at_most_one(table: TableView, peer: NodeId, addr: UdpAddr)
    requires
        table.valid(),
    ensures
        table.inserted(peer, addr).all().len() == table.all().len() + if peer != table.self_id
            && !table.contains(peer) && table.buckets[table.bucket_for(peer)->Some_0].len()
            < table.k {
            1int
        } else {
            0
        },
{
    broadcast use node_id_len;

    lemma_contains(table, peer);
    lemma_no_bucket_iff_zero(distance_of(table.self_id, peer));
    distance_is_zero_iff_equal(table.self_id, peer);
    if let Some(b) = table.bucket_for(peer) {
        let list = table.buckets[b];
        lemma_without(list, peer);
        lemma_gathered_update(table.buckets, 256, b, offered(list, table.k, peer, addr));
    }
}

/// Taking a peer out removes one peer where it is known, and none otherwise.
pub proof fn remove_drops_at_most_one(table: TableView, peer: NodeId)
    requires
        table.valid(),
    ensures
        table.removed(peer).all().len() == table.all().len() - if table.contains(peer) {
            1int
        } else {
            0
        },
{
    broadcast use node_id_len;

    lemma_contains(table, peer);
    lemma_no_bucket_iff_zero(distance_of(table.self_id, peer));
    if let Some(b) = table.bucket_for(peer) {
        let list = table.buckets[b];
        lemma_without(list, peer);
        lemma_gathered_update(table.buckets, 256, b, without(list, peer));
    }
}

/// Gathering keeps exactly the peers of the buckets, none twice.
pub proof fn lemma_gathered(table: TableView, n: nat)
    requires
        table.valid(),
        n <= 256,
    ensures
        no_peer_twice(gathered(table.buckets, n)),
        forall|e: (NodeId, UdpAddr)| #[trigger]
            gathered(table.buckets, n).contains(e) <==> exists|i: int|
                0 <= i < n && (#[trigger] table.buckets[i]).contains(e),
    decreases n,
{
    if n > 0 {
        let m = (n - 1) as nat;
        lemma_gathered(table, m);
        let head = gathered(table.buckets, m);
        let last = table.buckets[m as int];
        let all = gathered(table.buckets, n);
        assert(all == head + last);
        assert(no_peer_twice(last));
        assert forall|p: int, q: int| 0 <= p < q < all.len() implies (#[trigger] all[p]).0 != (
        #[trigger] all[q]).0 by {
            if q < head.len() {
                assert(head[p].0 != head[q].0);
            } else if p >= head.len() {
                assert(last[p - head.len()].0 != last[q - head.len()].0);
            } else {
                assert(head.contains(head[p]));
                let i = choose|i: int| 0 <= i < m && (#[trigger] table.buckets[i]).contains(head[p]);
                let j = table.buckets[i].index_of(head[p]);
                assert(table.buckets[i][j] == head[p]);
                assert(table.buckets[m as int][q - head.len()] == all[q]);
            }
        }
        assert forall|e: (NodeId, UdpAddr)| #[trigger] all.contains(e) <==> exists|i: int|
            0 <= i < n && (#[trigger] table.buckets[i]).contains(e) by {
            if all.contains(e) {
                let p = all.index_of(e);
                if p < head.len() {
                    assert(head[p] == e);
                    assert(head.contains(e));
                    let i = choose|i: int| 0 <= i < m && (#[trigger] table.buckets[i]).contains(e);
                    assert(table.buckets[i].contains(e));
                } else {
                    assert(last[p - head.len()] == e);
                    assert(table.buckets[m as int].contains(e));
                }
            }
            if exists|i: int| 0 <= i < n && (#[trigger] table.buckets[i]).contains(e) {
                let i = choose|i: int| 0 <= i < n && (#[trigger] table.buckets[i]).contains(e);
                if i < m {
                    assert(head.contains(e));
                    let p = head.index_of(e);
                    assert(all[p] == e);
                } else {
                    let p = last.index_of(e);
                    assert(all[head.len() + p] == e);
                }
            }
        }
    }
}

/// The closest peers are in ascending order of distance, and the owner is not
/// among them.
pub proof fn closest_peers_ascend(table: TableView, target: NodeId, n: nat)
    requires
        table.valid(),
        ranks(ranking(table.all(), target), table.all(), target),
    ensures
        table.closest(target, n).len() <= n,
        forall|i: int, j: int|
            0 <= i < j < table.closest(target, n).len() ==> lex_before(
                distance_of((#[trigger] table.closest(target, n)[i]).0, target),
                distance_of((#[trigger] table.closest(target, n)[j]).0, target),
            ),
        forall|i: int|
            0 <= i < table.closest(target, n).len() ==> (
            #[trigger] table.closest(target, n)[i]).0 != table.self_id,
{
    broadcast use node_id_len;

    let ranked = ranking(table.all(), target);
    let closest = table.closest(target, n);
    lemma_gathered(table, 256);
    lemma_no_bucket_iff_zero(distance_of(table.self_id, table.self_id));
    distance_is_zero_iff_equal(table.self_id, table.self_id);
    assert forall|i: int| 0 <= i < closest.len() implies (#[trigger] closest[i]).0
        != table.self_id by {
        let e = closest[i];
        assert(e == ranked[i]);
        assert(ranked.contains(e));
        assert(table.all().contains(e));
        let b = choose|b: int| 0 <= b < 256 && (#[trigger] table.buckets[b]).contains(e);
        let j = table.buckets[b].index_of(e);
        assert(table.buckets[b][j] == e);
    }
    assert forall|i: int, j: int| 0 <= i < j < closest.len() implies lex_before(
        distance_of((#[trigger] closest[i]).0, target),
        distance_of((#[trigger] closest[j]).0, target),
    ) by {
        assert(closest[i] == ranked[i] && closest[j] == ranked[j]);
    }
}

/// A Kademlia routing table.
#[derive(Debug)]
pub struct RoutingTable {
    self_id: NodeId,
    k: usize,
    buckets: Vec<Bucket>,
}

impl View for RoutingTable {
    type V = TableView;

    closed spec fn view(&self) -> TableView {
        TableView {
            self_id: self.self_id,
            k: self.k as nat,
            buckets: self.buckets@.map_values(|b: Bucket| b@),
        }
    }
}

impl Clone for RoutingTable {
    fn clone(&self) -> (copy: Self)
        ensures
            copy@ == self@,
    {
        proof {
            use_type_invariant(self);
        }
        let mut buckets: Vec<Bucket> = Vec::new();
        let mut i: usize = 0;
        while i < self.buckets.len()
            invariant
                i <= self.buckets@.len(),
                buckets@.len() == i,
                forall|j: int|
                    0 <= j < i ==> (#[trigger] buckets@[j])@ == self.buckets@[j]@
                        && buckets@[j].size() == self.buckets@[j].size(),
            decreases self.buckets@.len() - i,
        {
            let bucket = self.buckets[i].clone();
            buckets.push(bucket);
            i = i + 1;
        }
        proof {
            assert(buckets@.map_values(|b: Bucket| b@) =~= self.buckets@.map_values(
                |b: Bucket| b@,
            ));
        }
        RoutingTable { self_id: self.self_id, k: self.k, buckets }
    }
}

impl RoutingTable {
    #[verifier::type_invariant]
    spec fn well_formed(&self) -> bool {
        self@.valid() && forall|i: int|
            0 <= i < self.buckets@.len() ==> (#[trigger] self.buckets@[i]).size() == self.k
    }

    /// An empty table for `self_id` with buckets of size `k`.
    pub fn new(self_id: NodeId, k: usize) -> (table: Self)
        ensures
            table@ == TableView::empty(self_id, k as nat),
            table@.valid(),
    {
        let mut buckets: Vec<Bucket> = Vec::new();
        let mut i: usize = 0;
        while i < NODE_ID_BITS
            invariant
                i <= 256,
                buckets@.len() == i,
                forall|j: int|
                    0 <= j < i ==> (#[trigger] buckets@[j])@ == Peers::empty() && buckets@[j].size()
                        == k,
            decreases 256 - i,
        {
            buckets.push(Bucket::new(k));
            i = i + 1;
        }
        assert(buckets@.map_values(|b: Bucket| b@) =~= Seq::new(256, |i: int| Peers::empty()));
        RoutingTable { self_id, k, buckets }
    }

    /// The owner's identifier.
    pub fn self_id(&self) -> (id: &NodeId)
        ensures
            *id == self@.self_id,
    {
        &self.self_id
    }

    /// The size of every bucket.
    pub fn k(&self) -> (k: usize)
        ensures
            k == self@.k,
    {
        self.k
    }

    /// The number of peers; it stops counting at `usize::MAX`.
    pub fn len(&self) -> (n: usize)
        ensures
            n == if self@.all().len() <= usize::MAX {
                self@.all().len() as int
            } else {
                usize::MAX as int
            },
            self@.valid(),
    {
        proof {
            use_type_invariant(self);
        }
        let mut total: usize = 0;
        let mut i: usize = 0;
        while i < self.buckets.len()
            invariant
                i <= self.buckets@.len() == 256,
                self@.buckets == self.buckets@.map_values(|b: Bucket| b@),
                total == if gathered(self@.buckets, i as nat).len() <= usize::MAX {
                    gathered(self@.buckets, i as nat).len() as int
                } else {
                    usize::MAX as int
                },
            decreases 256 - i,
        {
            let n: usize = self.buckets[i].len();
            assert(gathered(self@.buckets, (i + 1) as nat) == gathered(self@.buckets, i as nat)
                + self@.buckets[i as int]);
            assert(self@.buckets[i as int] == self.buckets@[i as int]@);
            total = if n <= usize::MAX - total { total + n } else { usize::MAX };
            i = i + 1;
        }
        total
    }

    /// Whether there is no peer.
    pub fn is_empty(&self) -> (r: bool)
        ensures
            r == forall|i: int| 0 <= i < 256 ==> (#[trigger] self@.buckets[i]).len() == 0,
    {
        proof {
            use_type_invariant(self);
        }
        let mut i: usize = 0;
        while i < self.buckets.len()
            invariant
                i <= self.buckets@.len() == 256,
                self@.buckets == self.buckets@.map_values(|b: Bucket| b@),
                forall|j: int| 0 <= j < i ==> (#[trigger] self@.buckets[j]).len() == 0,
            decreases 256 - i,
        {
            assert(self@.buckets[i as int] == self.buckets@[i as int]@);
            if !self.buckets[i].is_empty() {
                return false;
            }
            i = i + 1;
        }
        true
    }

    /// Whether `peer` is in the table.
    pub fn contains(&self, peer: &NodeId) -> (r: bool)
        ensures
            r == self@.contains(*peer),
    {
        proof {
            use_type_invariant(self);
        }
        let mut i: usize = 0;
        while i < self.buckets.len()
            invariant
                i <= self.buckets@.len() == 256,
                self@.buckets == self.buckets@.map_values(|b: Bucket| b@),
                forall|j: int| 0 <= j < i ==> !lists_peer(#[trigger] self@.buckets[j], *peer),
            decreases 256 - i,
        {
            assert(self@.buckets[i as int] == self.buckets@[i as int]@);
            if self.buckets[i].contains(peer) {
                return true;
            }
            i = i + 1;
        }
        false
    }

    /// Offers a peer to the bucket of its distance. The owner itself changes
    /// nothing and is reported as updated.
    pub fn insert(self, peer: NodeId, addr: UdpAddr) -> (r: (Self, InsertOutcome))
        ensures
            r.0@ == self@.inserted(peer, addr),
            r.0@.valid(),
            match self@.bucket_for(peer) {
                None => r.1 == InsertOutcome::Updated,
                Some(i) => offer_reported(self@.buckets[i], self@.k, peer, r.1),
            },
            self@.bucket_for(peer) is None <==> peer == self@.self_id,
    {
        proof {
            use_type_invariant(&self);
            insert_keeps_the_table_valid(self@, peer, addr);
            distance_is_zero_iff_equal(self@.self_id, peer);
        }
        let ghost before = self@;
        let RoutingTable { self_id, k, buckets } = self;
        match self_id.distance(&peer).bucket_index() {
            None => (RoutingTable { self_id, k, buckets }, InsertOutcome::Updated),
            Some(idx) => {
                let mut buckets = buckets;
                let ghost old_buckets = buckets@;
                let bucket = buckets.remove(idx);
                let (bucket, outcome) = bucket.insert(peer, addr);
                buckets.insert(idx, bucket);
                proof {
                    assert(buckets@ =~= old_buckets.update(idx as int, bucket));
                    assert(before.buckets[idx as int] == old_buckets[idx as int]@);
                    assert(buckets@.map_values(|b: Bucket| b@) =~= before.inserted(
                        peer,
                        addr,
                    ).buckets);
                }
                (RoutingTable { self_id, k, buckets }, outcome)
            },
        }
    }

    /// Takes a peer out of the table, if it is there.
    pub fn remove(self, peer: &NodeId) -> (r: Self)
        ensures
            r@ == self@.removed(*peer),
            r@.valid(),
    {
        proof {
            use_type_invariant(&self);
            remove_takes_the_peer_out(self@, *peer);
        }
        let ghost before = self@;
        let RoutingTable { self_id, k, buckets } = self;
        match self_id.distance(peer).bucket_index() {
            None => RoutingTable { self_id, k, buckets },
            Some(idx) => {
                let mut buckets = buckets;
                let ghost old_buckets = buckets@;
                let bucket = buckets.remove(idx);
                let bucket = bucket.remove(peer);
                buckets.insert(idx, bucket);
                proof {
                    assert(buckets@ =~= old_buckets.update(idx as int, bucket));
                    assert(before.buckets[idx as int] == old_buckets[idx as int]@);
                    assert(buckets@.map_values(|b: Bucket| b@) =~= before.removed(*peer).buckets);
                }
                RoutingTable { self_id, k, buckets }
            },
        }
    }

    /// All peers, bucket by bucket.
    fn all(&self) -> (peers: Vec<(NodeId, UdpAddr)>)
        ensures
            peers@ == self@.all(),
            no_peer_twice(peers@),
    {
        proof {
            use_type_invariant(self);
            lemma_gathered(self@, 256);
        }
        let mut peers: Vec<(NodeId, UdpAddr)> = Vec::new();
        let mut i: usize = 0;
        while i < self.buckets.len()
            invariant
                i <= self.buckets@.len() == 256,
                self@.buckets == self.buckets@.map_values(|b: Bucket| b@),
                peers@ == gathered(self@.buckets, i as nat),
            decreases 256 - i,
        {
            let bucket = self.buckets[i].iter();
            let ghost before = peers@;
            assert(self@.buckets[i as int] == self.buckets@[i as int]@);
            let mut j: usize = 0;
            assert(peers@ =~= before + bucket@.take(0));
            while j < bucket.len()
                invariant
                    j <= bucket@.len(),
                    peers@ == before + bucket@.take(j as int),
                decreases bucket@.len() - j,
            {
                peers.push(bucket[j]);
                assert(peers@ =~= before + bucket@.take(j + 1));
                j = j + 1;
            }
            assert(bucket@.take(j as int) =~= bucket@);
            assert(gathered(self@.buckets, (i + 1) as nat) == before + self@.buckets[i as int]);
            i = i + 1;
        }
        peers
    }

    /// The at most `max_count` peers that are closest to `target`, by ascending
    /// distance.
    pub fn closest_to(&self, target: &NodeId, max_count: usize) -> (peers: Vec<(NodeId, UdpAddr)>)
        ensures
            peers@ == self@.closest(*target, max_count as nat),
            peers@.len() <= max_count,
            peers@.len() == max_count || peers@.len() == self@.all().len(),
            ranks(ranking(self@.all(), *target), self@.all(), *target),
            self@.valid(),
            nearest(self@, *target, max_count as nat, peers@),
    {
        proof {
            use_type_invariant(self);
        }
        let all = self.all();
        let mut sorted: OrderedMap<Distance, (NodeId, UdpAddr)> = OrderedMap::new();
        let mut i: usize = 0;
        while i < all.len()
            invariant
                i <= all@.len(),
                no_peer_twice(all@),
                forall|j: int|
                    0 <= j < i ==> sorted.map().dom().contains(
                        distance_of((#[trigger] all@[j]).0, *target),
                    ) && sorted.map()[distance_of(all@[j].0, *target)] == all@[j],
                forall|d: Seq<u8>| #[trigger]
                    sorted.map().dom().contains(d) ==> exists|j: int|
                        0 <= j < i && d == distance_of((#[trigger] all@[j]).0, *target),
                sorted.map().dom().finite(),
                sorted.map().dom().len() == i,
            decreases all@.len() - i,
        {
            let (id, addr) = all[i];
            let ghost before = sorted.map();
            let ghost d = distance_of(id, *target);
            proof {
                if before.dom().contains(d) {
                    let j = choose|j: int|
                        0 <= j < i && d == distance_of((#[trigger] all@[j]).0, *target);
                    distance_is_injective(all@[j].0, id, *target);
                    assert(all@[j].0 != all@[i as int].0);
                }
            }
            sorted = sorted.insert(id.distance(target), (id, addr));
            proof {
                assert forall|x: Seq<u8>| #[trigger]
                    sorted.map().dom().contains(x) implies exists|j: int|
                    0 <= j < i + 1 && x == distance_of((#[trigger] all@[j]).0, *target) by {
                    if x == d {
                        assert(x == distance_of(all@[i as int].0, *target));
                    } else {
                        assert(before.dom().contains(x));
                    }
                }
                assert forall|j: int| 0 <= j < i + 1 implies sorted.map().dom().contains(
                    distance_of((#[trigger] all@[j]).0, *target),
                ) && sorted.map()[distance_of(all@[j].0, *target)] == all@[j] by {
                    if j < i {
                        assert(all@[j].0 != all@[i as int].0);
                        if distance_of(all@[j].0, *target) == d {
                            distance_is_injective(all@[j].0, id, *target);
                        }
                    }
                }
            }
            i = i + 1;
        }
        let n: usize = sorted.len();
        let ghost entries = sorted.entries();
        let ghost full = entries.map_values(|e: (Distance, (NodeId, UdpAddr))| e.1);
        proof {
            assert forall|p: int| 0 <= p < entries.len() implies (#[trigger] entries[p]).0@
                == distance_of(entries[p].1.0, *target) && all@.contains(entries[p].1) by {
                lemma_index(entries, p);
                let d = entries[p].0@;
                assert(sorted.map().dom().contains(d));
                let j = choose|j: int|
                    0 <= j < all@.len() && d == distance_of((#[trigger] all@[j]).0, *target);
                assert(sorted.map()[d] == all@[j]);
            }
            assert forall|p: int, q: int| 0 <= p < q < full.len() implies lex_before(
                distance_of((#[trigger] full[p]).0, *target),
                distance_of((#[trigger] full[q]).0, *target),
            ) by {
                assert(Distance::precedes(entries[p].0@, entries[q].0@));
            }
            assert forall|e: (NodeId, UdpAddr)| #[trigger] full.contains(e) <==> all@.contains(
                e,
            ) by {
                if full.contains(e) {
                    let p = full.index_of(e);
                    assert(entries[p].1 == e);
                }
                if all@.contains(e) {
                    let j = all@.index_of(e);
                    let d = distance_of(all@[j].0, *target);
                    assert(sorted.map().dom().contains(d));
                    let p = choose|p: int| at(entries, p, d);
                    lemma_index(entries, p);
                    assert(full[p] == e);
                }
            }
            lemma_ranking(full, all@, *target);
        }
        let count: usize = if n <= max_count { n } else { max_count };
        let mut peers: Vec<(NodeId, UdpAddr)> = Vec::new();
        let mut p: usize = 0;
        assert(peers@ =~= full.take(0));
        while p < count
            invariant
                p <= count <= n,
                n == sorted.map().len(),
                n == entries.len(),
                entries == sorted.entries(),
                full == entries.map_values(|e: (Distance, (NodeId, UdpAddr))| e.1),
                peers@ == full.take(p as int),
            decreases count - p,
        {
            peers.push(*sorted.entry(p).1);
            assert(peers@ =~= full.take(p + 1));
            p = p + 1;
        }
        assert(full.take(full.len() as int) =~= full);
        proof {
            closest_peers_are_nearest(self@, *target, max_count as nat);
        }
        peers
    }
}

} // verus!
