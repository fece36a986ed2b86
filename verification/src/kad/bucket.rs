//! One k-bucket.
use vstd::prelude::*;
use crate::addr::UdpAddr;
use crate::kad::node_id::NodeId;

verus! {

/// The bucket size that the Kademlia paper recommends.
pub const DEFAULT_K: usize = 20;

/// What became of a peer that was offered to a bucket.
#[derive(Clone, Copy, Debug, PartialEq, Eq)]
pub enum InsertOutcome {
    /// The peer was new and there was room.
    Added,
    /// The peer was there already; it counts as seen most recently.
    Updated,
    /// The bucket was full and the peer was not added.
    BucketFull {
        /// The peer that was seen longest ago.
        lru_candidate: NodeId,
    },
}

/// Peers and their addresses, the most recently seen first.
pub type Peers = Seq<(NodeId, UdpAddr)>;

/// Whether a peer is listed.
pub open spec fn lists_peer(entries: Peers, node: NodeId) -> bool {
    exists|i: int| 0 <= i < entries.len() && (#[trigger] entries[i]).0 == node
}

/// The list without a peer.
pub open spec fn without(entries: Peers, node: NodeId) -> Peers {
    entries.filter(|e: (NodeId, UdpAddr)| e.0 != node)
}

/// No peer is listed twice.
pub open spec fn no_peer_twice(entries: Peers) -> bool {
    forall|i: int, j: int|
        0 <= i < j < entries.len() ==> (#[trigger] entries[i]).0 != (#[trigger] entries[j]).0
}

/// The list after a peer was offered to a bucket of size `capacity`.
pub open spec fn offered(entries: Peers, capacity: nat, node: NodeId, addr: UdpAddr) -> Peers {
    if lists_peer(entries, node) {
        seq![(node, addr)] + without(entries, node)
    } else if entries.len() < capacity {
        seq![(node, addr)] + entries
    } else {
        entries
    }
}

/// What became of the peer: `outcome` reports it.
pub open spec fn offer_reported(
    entries: Peers,
    capacity: nat,
    node: NodeId,
    outcome: InsertOutcome,
) -> bool {
    if lists_peer(entries, node) {
        outcome == InsertOutcome::Updated
    } else if entries.len() < capacity {
        outcome == InsertOutcome::Added
    } else {
        outcome matches InsertOutcome::BucketFull { lru_candidate } && if entries.len() > 0 {
            lru_candidate == entries.last().0
        } else {
            lru_candidate@ == Seq::new(32, |i: int| 0u8)
        }
    }
}

/// Filtering out a peer keeps the order, the others, and uniqueness.
pub proof fn lemma_without(entries: Peers, node: NodeId)
    requires
        no_peer_twice(entries),
    ensures
        no_peer_twice(without(entries, node)),
        !lists_peer(without(entries, node), node),
        without(entries, node).len() <= entries.len(),
        lists_peer(entries, node) ==> without(entries, node).len() == entries.len() - 1,
        !lists_peer(entries, node) ==> without(entries, node) == entries,
        forall|e: (NodeId, UdpAddr)|
            #[trigger] without(entries, node).contains(e) <==> entries.contains(e) && e.0 != node,
    decreases entries.len(),
{
    reveal(Seq::filter);
    if entries.len() > 0 {
        let head = entries.drop_last();
        let last = entries.last();
        assert forall|i: int, j: int| 0 <= i < j < head.len() implies (#[trigger] head[i]).0 != (
        #[trigger] head[j]).0 by {
            assert(entries[i].0 != entries[j].0);
        }
        lemma_without(head, node);
        let w = without(head, node);
        let all = without(entries, node);
        assert(entries =~= head.push(last));
        if last.0 == node {
            assert(all == w);
            assert(!lists_peer(head, node)) by {
                if lists_peer(head, node) {
                    let i = choose|i: int| 0 <= i < head.len() && (#[trigger] head[i]).0 == node;
                    assert(entries[i].0 != entries[entries.len() - 1].0);
                }
            }
            assert(entries[entries.len() - 1].0 == node);
        } else {
            assert(all == w.push(last));
            assert forall|i: int, j: int| 0 <= i < j < all.len() implies (#[trigger] all[i]).0 != (
            #[trigger] all[j]).0 by {
                if j == all.len() - 1 {
                    assert(w.contains(w[i]));
                    assert(head.contains(w[i]));
                    let p = head.index_of(w[i]);
                    assert(entries[p].0 != entries[entries.len() - 1].0);
                } else {
                    assert(w[i].0 != w[j].0);
                }
            }
            if lists_peer(entries, node) {
                let i = choose|i: int| 0 <= i < entries.len() && (#[trigger] entries[i]).0 == node;
                assert(head[i].0 == node);
            }
            if lists_peer(head, node) {
                let i = choose|i: int| 0 <= i < head.len() && (#[trigger] head[i]).0 == node;
                assert(entries[i].0 == node);
            }
            if lists_peer(all, node) {
                let i = choose|i: int| 0 <= i < all.len() && (#[trigger] all[i]).0 == node;
                assert(w[i].0 == node);
            }
        }
        assert forall|e: (NodeId, UdpAddr)| #[trigger] all.contains(e) <==> entries.contains(e)
            && e.0 != node by {
            if all.contains(e) {
                let i = all.index_of(e);
                if last.0 == node || i < w.len() {
                    assert(w[i] == e);
                    assert(w.contains(e));
                    assert(head.contains(e));
                    let p = head.index_of(e);
                    assert(entries[p] == e);
                } else {
                    assert(entries[entries.len() - 1] == e);
                }
            }
            if entries.contains(e) && e.0 != node {
                let p = entries.index_of(e);
                if p < head.len() {
                    assert(head[p] == e);
                    assert(w.contains(e));
                    let i = w.index_of(e);
                    assert(all[i] == e);
                } else {
                    assert(all[all.len() - 1] == e);
                }
            }
        }
        if !lists_peer(entries, node) {
            assert(entries[entries.len() - 1].0 != node);
            assert(!lists_peer(head, node)) by {
                if lists_peer(head, node) {
                    let i = choose|i: int| 0 <= i < head.len() && (#[trigger] head[i]).0 == node;
                    assert(entries[i].0 == node);
                }
            }
            assert(all =~= entries);
        }
    } else {
        assert(without(entries, node) =~= entries);
    }
}

/// Offering a peer keeps uniqueness and the bound.
pub proof fn lemma_offered(entries: Peers, capacity: nat, node: NodeId, addr: UdpAddr)
    requires
        no_peer_twice(entries),
        entries.len() <= capacity,
    ensures
        no_peer_twice(offered(entries, capacity, node, addr)),
        offered(entries, capacity, node, addr).len() <= capacity,
        forall|e: (NodeId, UdpAddr)|
            #[trigger] offered(entries, capacity, node, addr).contains(e) ==> entries.contains(e)
                || e == (node, addr),
        lists_peer(entries, node) || entries.len() < capacity ==> offered(
            entries,
            capacity,
            node,
            addr,
        ).contains((node, addr)),
{
    lemma_without(entries, node);
    let next = offered(entries, capacity, node, addr);
    let rest = if lists_peer(entries, node) { without(entries, node) } else { entries };
    if next != entries {
        assert(next == seq![(node, addr)] + rest);
        assert forall|i: int, j: int| 0 <= i < j < next.len() implies (#[trigger] next[i]).0 != (
        #[trigger] next[j]).0 by {
            assert(next[j] == rest[j - 1]);
            if i == 0 {
                if rest[j - 1].0 == node {
                    assert(lists_peer(rest, node));
                }
            } else {
                assert(next[i] == rest[i - 1]);
            }
        }
        assert(next[0] == (node, addr));
        assert forall|e: (NodeId, UdpAddr)| #[trigger] next.contains(e) implies entries.contains(e)
            || e == (node, addr) by {
            let i = next.index_of(e);
            if i > 0 {
                assert(rest[i - 1] == e);
                assert(rest.contains(e));
            }
        }
    } else {
        assert forall|e: (NodeId, UdpAddr)| #[trigger] next.contains(e) implies entries.contains(e)
            || e == (node, addr) by {}
        if lists_peer(entries, node) || entries.len() < capacity {
            assert((seq![(node, addr)] + rest)[0] == (node, addr));
        }
    }
}

/// A bucket: a bounded list of distinct peers, the most recently seen first.
#[derive(Debug)]
pub struct Bucket {
    capacity: usize,
    entries: Vec<(NodeId, UdpAddr)>,
}

impl View for Bucket {
    type V = Peers;

    closed spec fn view(&self) -> Peers {
        self.entries@
    }
}

/// A copy of a list of peers.
pub(crate) fn copy_peers(peers: &Vec<(NodeId, UdpAddr)>) -> (copy: Vec<(NodeId, UdpAddr)>)
    ensures
        copy@ == peers@,
{
    let mut copy: Vec<(NodeId, UdpAddr)> = Vec::new();
    let mut i: usize = 0;
    while i < peers.len()
        invariant
            i <= peers@.len(),
            copy@ == peers@.take(i as int),
        decreases peers@.len() - i,
    {
        let entry = peers[i];
        copy.push(entry);
        assert(copy@ =~= peers@.take(i + 1));
        i = i + 1;
    }
    assert(copy@ =~= peers@);
    copy
}

impl Clone for Bucket {
    fn clone(&self) -> (copy: Self)
        ensures
            copy@ == self@,
            copy.size() == self.size(),
    {
        proof {
            use_type_invariant(self);
        }
        Bucket { capacity: self.capacity, entries: copy_peers(&self.entries) }
    }
}

impl Bucket {
    #[verifier::type_invariant]
    spec fn valid(&self) -> bool {
        self.entries@.len() <= self.capacity && no_peer_twice(self.entries@)
    }

    /// The bound on the number of peers.
    pub closed spec fn size(&self) -> nat {
        self.capacity as nat
    }

    /// An empty bucket for at most `capacity` peers.
    pub fn new(capacity: usize) -> (b: Self)
        ensures
            b@ == Peers::empty(),
            b.size() == capacity,
    {
        Bucket { capacity, entries: Vec::new() }
    }

    /// The bound on the number of peers.
    pub fn capacity(&self) -> (n: usize)
        ensures
            n == self.size(),
    {
        self.capacity
    }

    /// The number of peers, which never exceeds the bound.
    pub fn len(&self) -> (n: usize)
        ensures
            n == self@.len(),
            n <= self.size(),
            no_peer_twice(self@),
    {
        proof {
            use_type_invariant(self);
        }
        self.entries.len()
    }

    /// Whether there is no peer.
    pub fn is_empty(&self) -> (r: bool)
        ensures
            r == (self@.len() == 0),
    {
        self.entries.len() == 0
    }

    /// Whether the bound is reached.
    pub fn is_full(&self) -> (r: bool)
        ensures
            r == (self@.len() == self.size()),
    {
        self.entries.len() == self.capacity
    }

    /// The peers, the most recently seen first.
    pub fn iter(&self) -> (peers: &Vec<(NodeId, UdpAddr)>)
        ensures
            peers@ == self@,
    {
        &self.entries
    }

    /// Whether `node` is in the bucket.
    pub fn contains(&self, node: &NodeId) -> (r: bool)
        ensures
            r == lists_peer(self@, *node),
    {
        let mut i: usize = 0;
        while i < self.entries.len()
            invariant
                i <= self@.len(),
                forall|j: int| 0 <= j < i ==> (#[trigger] self@[j]).0 != *node,
            decreases self@.len() - i,
        {
            if self.entries[i].0.same(node) {
                assert(self@[i as int].0 == *node);
                return true;
            }
            i = i + 1;
        }
        false
    }

    /// Offers a peer to the bucket.
    pub fn insert(self, node: NodeId, addr: UdpAddr) -> (r: (Self, InsertOutcome))
        ensures
            r.0@ == offered(self@, self.size(), node, addr),
            r.0.size() == self.size(),
            offer_reported(self@, self.size(), node, r.1),
    {
        proof {
            use_type_invariant(&self);
            lemma_offered(self@, self.size(), node, addr);
        }
        let present = self.contains(&node);
        let Bucket { capacity, entries } = self;
        if present {
            let mut next: Vec<(NodeId, UdpAddr)> = Vec::new();
            next.push((node, addr));
            let mut rest = entries_without(&entries, &node);
            next.append(&mut rest);
            assert(next@ =~= offered(self@, self.size(), node, addr));
            (Bucket { capacity, entries: next }, InsertOutcome::Updated)
        } else if entries.len() < capacity {
            let mut next: Vec<(NodeId, UdpAddr)> = Vec::new();
            let mut rest = entries;
            next.push((node, addr));
            next.append(&mut rest);
            assert(next@ =~= offered(self@, self.size(), node, addr));
            (Bucket { capacity, entries: next }, InsertOutcome::Added)
        } else {
            let lru_candidate = if entries.len() > 0 {
                entries[entries.len() - 1].0
            } else {
                let zero = NodeId::from_bytes([0u8; 32]);
                assert(zero@ =~= Seq::new(32, |i: int| 0u8));
                zero
            };
            (Bucket { capacity, entries }, InsertOutcome::BucketFull { lru_candidate })
        }
    }

    /// Takes a peer out of the bucket, if it is there.
    pub fn remove(self, node: &NodeId) -> (r: Self)
        ensures
            r@ == without(self@, *node),
            r.size() == self.size(),
    {
        proof {
            use_type_invariant(&self);
            lemma_without(self@, *node);
        }
        let Bucket { capacity, entries } = self;
        let entries = entries_without(&entries, node);
        Bucket { capacity, entries }
    }
}

/// The entries of all other peers.
fn entries_without(entries: &Vec<(NodeId, UdpAddr)>, node: &NodeId) -> (out: Vec<
    (NodeId, UdpAddr),
>)
    ensures
        out@ == without(entries@, *node),
{
    let mut out: Vec<(NodeId, UdpAddr)> = Vec::new();
    let mut i: usize = 0;
    proof {
        reveal(Seq::filter);
        assert(entries@.take(0) =~= Peers::empty());
    }
    while i < entries.len()
        invariant
            i <= entries@.len(),
            out@ == without(entries@.take(i as int), *node),
        decreases entries@.len() - i,
    {
        proof {
            reveal(Seq::filter);
            assert(entries@.take(i + 1).drop_last() =~= entries@.take(i as int));
            assert(entries@.take(i + 1).last() == entries@[i as int]);
        }
        if !entries[i].0.same(node) {
            out.push(entries[i]);
        }
        i = i + 1;
    }
    assert(entries@.take(i as int) =~= entries@);
    out
}

} // verus!
