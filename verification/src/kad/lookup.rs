//! Iterative lookups: which peers to ask next, and when to stop.
use vstd::prelude::*;
use crate::addr::UdpAddr;
use crate::bytes::lex_before;
use crate::kad::bucket::{Peers, DEFAULT_K};
use crate::kad::distance::Distance;
use crate::kad::event::{KadEvent, KadEventView};
use crate::kad::laws::{picks_are_the_closest_waiting, results_are_the_closest_known};
use crate::kad::node_id::{distance_of, NodeId};
use crate::kad::routing_table::at_most;
use crate::ordered_map::{at, keys_of, lemma_index, listing, lists, OrderedKey, OrderedMap};

verus! {

/// How a lookup proceeds.
#[derive(Clone, Copy, Debug)]
pub struct LookupConfig {
    /// Peers asked in one round.
    pub alpha: usize,
    /// Peers wanted in the end.
    pub k: usize,
    /// Rounds before the lookup gives up.
    pub max_rounds: usize,
    /// Datagrams taken in one round.
    pub max_recv_per_round: usize,
}

impl Default for LookupConfig {
    fn default() -> (c: Self)
        ensures
            c == (LookupConfig {
                alpha: 3,
                k: DEFAULT_K,
                max_rounds: 32,
                max_recv_per_round: 24,
            }),
    {
        LookupConfig { alpha: 3, k: DEFAULT_K, max_rounds: 32, max_recv_per_round: 24 }
    }
}

/// What is known of a peer.
#[derive(Clone, Copy, Debug, PartialEq, Eq, Structural)]
pub enum LookupStatus {
    /// Not asked yet.
    Unqueried,
    /// A handshake is under way.
    Dialing,
    /// Asked, no answer yet.
    InFlight,
    /// It answered.
    Done,
    /// It did not answer in time.
    Skipped,
}

/// A peer that the lookup knows.
#[derive(Clone, Copy, Debug)]
pub struct LookupEntry {
    pub node_id: NodeId,
    pub addr: UdpAddr,
    pub status: LookupStatus,
}

/// The peers by their distance to the target.
pub type Entries = Map<Seq<u8>, LookupEntry>;

/// A peer that has not been asked yet.
pub open spec fn unqueried(node_id: NodeId, addr: UdpAddr) -> LookupEntry {
    LookupEntry { node_id, addr, status: LookupStatus::Unqueried }
}

/// The peers once the first `n` of a list are put in, in place of what stood at
/// their distances; the owner is left out.
pub open spec fn seeded(peers: Peers, n: nat, self_id: NodeId, target: NodeId) -> Entries
    decreases n,
{
    if n == 0 {
        Map::empty()
    } else {
        let before = seeded(peers, (n - 1) as nat, self_id, target);
        let (id, addr) = peers[n - 1];
        if id == self_id {
            before
        } else {
            before.insert(distance_of(id, target), unqueried(id, addr))
        }
    }
}

/// The peers once the first `n` of a list are added where they are new; the
/// owner is left out.
pub open spec fn absorbed(
    entries: Entries,
    peers: Peers,
    n: nat,
    self_id: NodeId,
    target: NodeId,
) -> Entries
    decreases n,
{
    if n == 0 {
        entries
    } else {
        let before = absorbed(entries, peers, (n - 1) as nat, self_id, target);
        let (id, addr) = peers[n - 1];
        if id == self_id || before.dom().contains(distance_of(id, target)) {
            before
        } else {
            before.insert(distance_of(id, target), unqueried(id, addr))
        }
    }
}

/// The peers with the status of one of them set, if it is known.
pub open spec fn with_status(
    entries: Entries,
    node: NodeId,
    target: NodeId,
    status: LookupStatus,
) -> Entries {
    let d = distance_of(node, target);
    if entries.dom().contains(d) {
        entries.insert(d, LookupEntry { status, ..entries[d] })
    } else {
        entries
    }
}

/// Whether a distance is that of a pending peer.
pub open spec fn is_pending(pending: Map<UdpAddr, NodeId>, target: NodeId, d: Seq<u8>) -> bool {
    exists|a: UdpAddr| #[trigger]
        pending.dom().contains(a) && distance_of(pending[a], target) == d
}

/// The peers with every pending one given up.
pub open spec fn given_up(
    entries: Entries,
    pending: Map<UdpAddr, NodeId>,
    target: NodeId,
) -> Entries {
    entries.map_entries(
        |d: Seq<u8>, e: LookupEntry|
            if is_pending(pending, target, d) {
                LookupEntry { status: LookupStatus::Skipped, ..e }
            } else {
                e
            },
    )
}

/// The meaning of a lookup.
pub struct LookupView {
    pub self_id: NodeId,
    pub target: NodeId,
    pub config: LookupConfig,
    pub entries: Entries,
    pub pending_queries: Map<UdpAddr, NodeId>,
    pub pending_dials: Map<UdpAddr, NodeId>,
}

/// A peer and its address.
pub open spec fn peer_of(e: LookupEntry) -> (NodeId, UdpAddr) {
    (e.node_id, e.addr)
}

impl LookupView {
    /// Every peer stands at its distance to the target, and the owner is not
    /// among them.
    pub open spec fn valid(self) -> bool {
        forall|d: Seq<u8>| #[trigger]
            self.entries.dom().contains(d) ==> distance_of(self.entries[d].node_id, self.target)
                == d && self.entries[d].node_id != self.self_id
    }

    /// The peers by ascending distance.
    pub open spec fn ranked(self) -> Seq<LookupEntry> {
        listing::<Distance>(self.entries.dom()).map_values(|d: Seq<u8>| self.entries[d])
    }

    /// The at most `k` closest peers.
    pub open spec fn front(self) -> Seq<LookupEntry> {
        at_most(self.ranked(), self.config.k as nat)
    }

    /// The at most `k` closest peers with their addresses.
    pub open spec fn results(self) -> Peers {
        self.front().map_values(|e: LookupEntry| peer_of(e))
    }

    /// Whether an answer or a handshake is awaited.
    pub open spec fn has_pending(self) -> bool {
        self.pending_queries.len() > 0 || self.pending_dials.len() > 0
    }

    /// Whether nothing is awaited and all of the closest peers have been asked.
    pub open spec fn is_done(self) -> bool {
        !self.has_pending() && forall|i: int|
            0 <= i < self.front().len() ==> (#[trigger] self.front()[i]).status
                != LookupStatus::Unqueried
    }

    /// The at most `alpha` closest peers that have not been asked.
    pub open spec fn picks(self) -> Peers {
        at_most(
            self.front().filter(|e: LookupEntry| e.status == LookupStatus::Unqueried),
            self.config.alpha as nat,
        ).map_values(|e: LookupEntry| peer_of(e))
    }

    /// The lookup once a peer has been asked.
    pub open spec fn queried(self, peer: NodeId, addr: UdpAddr) -> LookupView {
        LookupView {
            entries: with_status(self.entries, peer, self.target, LookupStatus::InFlight),
            pending_queries: self.pending_queries.insert(addr, peer),
            ..self
        }
    }

    /// The lookup once a peer has been dialed.
    pub open spec fn dialing(self, peer: NodeId, addr: UdpAddr) -> LookupView {
        LookupView {
            entries: with_status(self.entries, peer, self.target, LookupStatus::Dialing),
            pending_dials: self.pending_dials.insert(addr, peer),
            ..self
        }
    }

    /// The lookup once a handshake has completed: a dialed peer can be asked.
    pub open spec fn dial_completed(self, addr: UdpAddr) -> LookupView {
        LookupView {
            entries: if self.pending_dials.dom().contains(addr) {
                with_status(
                    self.entries,
                    self.pending_dials[addr],
                    self.target,
                    LookupStatus::Unqueried,
                )
            } else {
                self.entries
            },
            pending_dials: self.pending_dials.remove(addr),
            ..self
        }
    }

    /// The lookup once a peer has answered: the peer is done, and the peers that
    /// it names are added. An answer that nobody awaits changes nothing.
    pub open spec fn answered(self, from: UdpAddr, peers: Peers) -> LookupView {
        if self.pending_queries.dom().contains(from) {
            LookupView {
                entries: with_status(
                    absorbed(self.entries, peers, peers.len(), self.self_id, self.target),
                    self.pending_queries[from],
                    self.target,
                    LookupStatus::Done,
                ),
                pending_queries: self.pending_queries.remove(from),
                ..self
            }
        } else {
            self
        }
    }

    /// The lookup once the pending questions are given up.
    pub open spec fn queries_skipped(self) -> LookupView {
        LookupView {
            entries: given_up(self.entries, self.pending_queries, self.target),
            pending_queries: Map::empty(),
            ..self
        }
    }

    /// The lookup once the pending handshakes are given up.
    pub open spec fn dials_skipped(self) -> LookupView {
        LookupView {
            entries: given_up(self.entries, self.pending_dials, self.target),
            pending_dials: Map::empty(),
            ..self
        }
    }

    /// The lookup after an event of the node: answers and completed handshakes
    /// count, everything else is passed over.
    pub open spec fn on_event(self, event: KadEventView) -> LookupView {
        match event {
            KadEventView::FindNodeResponseReceived { from, peers } => self.answered(from, peers),
            KadEventView::HandshakeComplete { addr, .. } => if self.pending_dials.dom().contains(
                addr,
            ) {
                self.dial_completed(addr)
            } else {
                self
            },
            _ => self,
        }
    }
}

// --------------------------------------------------------------- the laws

/// Adding the peers of an answer forgets no peer and changes none.
pub proof fn absorbing_forgets_nothing(
    entries: Entries,
    peers: Peers,
    n: nat,
    self_id: NodeId,
    target: NodeId,
)
    requires
        n <= peers.len(),
    ensures
        entries.submap_of(absorbed(entries, peers, n, self_id, target)),
    decreases n,
{
    if n > 0 {
        absorbing_forgets_nothing(entries, peers, (n - 1) as nat, self_id, target);
        let before = absorbed(entries, peers, (n - 1) as nat, self_id, target);
        let after = absorbed(entries, peers, n, self_id, target);
        assert forall|d: Seq<u8>| #[trigger] entries.dom().contains(d) implies #[trigger]
            after.dom().contains(d) && entries[d] == after[d] by {
            assert(entries.submap_of(before));
            assert(before.dom().contains(d));
            assert(entries[d] == before[d]);
        }
        assert(entries.submap_of(after));
    }
}

/// Every peer of an answer is known afterwards, but for the owner.
pub proof fn absorbing_learns_every_peer(
    entries: Entries,
    peers: Peers,
    n: nat,
    self_id: NodeId,
    target: NodeId,
    i: int,
)
    requires
        0 <= i < n <= peers.len(),
        peers[i].0 != self_id,
    ensures
        absorbed(entries, peers, n, self_id, target).dom().contains(
            distance_of(peers[i].0, target),
        ),
    decreases n,
{
    if i < n - 1 {
        absorbing_learns_every_peer(entries, peers, (n - 1) as nat, self_id, target, i);
    }
}

/// Adding peers keeps every peer at its distance.
proof fn lemma_absorbed_valid(
    entries: Entries,
    peers: Peers,
    n: nat,
    self_id: NodeId,
    target: NodeId,
)
    requires
        n <= peers.len(),
        forall|d: Seq<u8>| #[trigger]
            entries.dom().contains(d) ==> distance_of(entries[d].node_id, target) == d
                && entries[d].node_id != self_id,
    ensures
        forall|d: Seq<u8>| #[trigger]
            absorbed(entries, peers, n, self_id, target).dom().contains(d) ==> distance_of(
                absorbed(entries, peers, n, self_id, target)[d].node_id,
                target,
            ) == d && absorbed(entries, peers, n, self_id, target)[d].node_id != self_id,
    decreases n,
{
    if n > 0 {
        lemma_absorbed_valid(entries, peers, (n - 1) as nat, self_id, target);
    }
}

/// An answer forgets no peer: what was known stays known, with its address.
pub proof fn answers_forget_no_peer(lookup: LookupView, from: UdpAddr, peers: Peers, d: Seq<u8>)
    requires
        lookup.entries.dom().contains(d),
    ensures
        lookup.answered(from, peers).entries.dom().contains(d),
        lookup.answered(from, peers).entries[d].node_id == lookup.entries[d].node_id,
        lookup.answered(from, peers).entries[d].addr == lookup.entries[d].addr,
{
    absorbing_forgets_nothing(lookup.entries, peers, peers.len(), lookup.self_id, lookup.target);
    let grown = absorbed(lookup.entries, peers, peers.len(), lookup.self_id, lookup.target);
    assert(lookup.entries.dom().contains(d) && grown.dom().contains(d));
    assert(grown[d] == lookup.entries[d]);
}

/// An answer that nobody awaits changes nothing: only a peer that was asked can
/// lead a lookup on.
pub proof fn unasked_answers_change_nothing(lookup: LookupView, from: UdpAddr, peers: Peers)
    requires
        !lookup.pending_queries.dom().contains(from),
    ensures
        lookup.answered(from, peers) == lookup,
{
}

/// The results are in ascending order of distance, name no peer twice, and never
/// the owner.
pub proof fn results_ascend(lookup: LookupView, keys: Seq<Seq<u8>>)
    requires
        lookup.valid(),
        lists::<Distance>(keys, lookup.entries.dom()),
    ensures
        lookup.results().len() <= lookup.config.k,
        forall|i: int, j: int|
            0 <= i < j < lookup.results().len() ==> lex_before(
                distance_of((#[trigger] lookup.results()[i]).0, lookup.target),
                distance_of((#[trigger] lookup.results()[j]).0, lookup.target),
            ),
        forall|i: int|
            0 <= i < lookup.results().len() ==> (#[trigger] lookup.results()[i]).0
                != lookup.self_id,
{
    crate::ordered_map::lemma_listing::<Distance>(keys, lookup.entries.dom());
    let results = lookup.results();
    let ranked = lookup.ranked();
    assert forall|i: int| 0 <= i < results.len() implies {
        &&& #[trigger] results[i] == peer_of(ranked[i])
        &&& lookup.entries.dom().contains(keys[i])
        &&& distance_of(results[i].0, lookup.target) == keys[i]
        &&& results[i].0 != lookup.self_id
    } by {
        assert(keys.contains(keys[i]));
        assert(lookup.entries.dom().contains(keys[i]));
    }
    assert forall|i: int, j: int| 0 <= i < j < results.len() implies lex_before(
        distance_of((#[trigger] results[i]).0, lookup.target),
        distance_of((#[trigger] results[j]).0, lookup.target),
    ) by {
        assert(Distance::precedes(keys[i], keys[j]));
    }
}

// ------------------------------------------------------------- the lookup

/// A lookup in progress.
#[derive(Debug)]
pub struct Lookup {
    self_id: NodeId,
    target: NodeId,
    config: LookupConfig,
    entries: OrderedMap<Distance, LookupEntry>,
    pending_queries: OrderedMap<UdpAddr, NodeId>,
    pending_dials: OrderedMap<UdpAddr, NodeId>,
}

impl View for Lookup {
    type V = LookupView;

    closed spec fn view(&self) -> LookupView {
        LookupView {
            self_id: self.self_id,
            target: self.target,
            config: self.config,
            entries: self.entries.map(),
            pending_queries: self.pending_queries.map(),
            pending_dials: self.pending_dials.map(),
        }
    }
}

impl Clone for Lookup {
    fn clone(&self) -> (copy: Self)
        ensures
            copy@ == self@,
    {
        proof {
            use_type_invariant(self);
        }
        Lookup {
            self_id: self.self_id,
            target: self.target,
            config: self.config,
            entries: self.entries.clone(),
            pending_queries: self.pending_queries.clone(),
            pending_dials: self.pending_dials.clone(),
        }
    }
}

/// Sets the status of one peer, if it is known.
fn set_status(
    entries: OrderedMap<Distance, LookupEntry>,
    node: &NodeId,
    target: &NodeId,
    status: LookupStatus,
) -> (r: OrderedMap<Distance, LookupEntry>)
    ensures
        r.map() == with_status(entries.map(), *node, *target, status),
{
    let d = node.distance(target);
    let found = match entries.get(&d) {
        Some(e) => Some(LookupEntry { node_id: e.node_id, addr: e.addr, status }),
        None => None,
    };
    match found {
        Some(e) => entries.insert(d, e),
        None => entries,
    }
}

/// Gives up every pending peer.
fn give_up(
    entries: OrderedMap<Distance, LookupEntry>,
    pending: &OrderedMap<UdpAddr, NodeId>,
    target: &NodeId,
) -> (r: OrderedMap<Distance, LookupEntry>)
    ensures
        r.map() == given_up(entries.map(), pending.map(), *target),
{
    let ghost start = entries.map();
    let n: usize = pending.len();
    let ghost queue = pending.entries();
    let mut next = entries;
    let mut i: usize = 0;
    while i < n
        invariant
            n == pending.map().len(),
            n == queue.len(),
            queue == pending.entries(),
            i <= n,
            next.map().dom() == start.dom(),
            forall|d: Seq<u8>| #[trigger]
                start.dom().contains(d) ==> next.map()[d] == if exists|j: int|
                    0 <= j < i && distance_of((#[trigger] queue[j]).1, *target) == d {
                    LookupEntry { status: LookupStatus::Skipped, ..start[d] }
                } else {
                    start[d]
                },
        decreases n - i,
    {
        let (_, node) = pending.entry(i);
        let ghost before = next.map();
        let ghost at_d = distance_of(*node, *target);
        next = set_status(next, node, target, LookupStatus::Skipped);
        proof {
            assert(next.map().dom() =~= start.dom());
            assert forall|d: Seq<u8>| #[trigger] start.dom().contains(d) implies next.map()[d]
                == if exists|j: int|
                0 <= j < i + 1 && distance_of((#[trigger] queue[j]).1, *target) == d {
                LookupEntry { status: LookupStatus::Skipped, ..start[d] }
            } else {
                start[d]
            } by {
                if d == at_d {
                    assert(distance_of(queue[i as int].1, *target) == d);
                } else if exists|j: int|
                    0 <= j < i + 1 && distance_of((#[trigger] queue[j]).1, *target) == d {
                    let j = choose|j: int|
                        0 <= j < i + 1 && distance_of((#[trigger] queue[j]).1, *target) == d;
                    assert(j < i);
                    assert(distance_of(queue[j].1, *target) == d);
                }
            }
        }
        i = i + 1;
    }
    proof {
        let goal = given_up(start, pending.map(), *target);
        assert forall|d: Seq<u8>| goal.dom().contains(d) implies next.map()[d] == goal[d] by {
            assert(start.dom().contains(d));
            if is_pending(pending.map(), *target, d) {
                let a = choose|a: UdpAddr| #[trigger]
                    pending.map().dom().contains(a) && distance_of(pending.map()[a], *target) == d;
                let j = choose|j: int| at(queue, j, a);
                lemma_index(queue, j);
                assert(distance_of(queue[j].1, *target) == d);
            } else if exists|j: int|
                0 <= j < n && distance_of((#[trigger] queue[j]).1, *target) == d {
                let j = choose|j: int|
                    0 <= j < n && distance_of((#[trigger] queue[j]).1, *target) == d;
                lemma_index(queue, j);
                assert(pending.map().dom().contains(queue[j].0@));
            }
        }
        assert(next.map() =~= goal);
    }
    next
}

impl Lookup {
    #[verifier::type_invariant]
    spec fn well_formed(&self) -> bool {
        self@.valid()
    }

    /// A lookup for `target` that starts from known peers. A peer that is listed
    /// twice counts with its last address; the owner is left out.
    pub fn new(
        self_id: NodeId,
        target: NodeId,
        config: LookupConfig,
        initial_peers: &Vec<(NodeId, UdpAddr)>,
    ) -> (lookup: Self)
        ensures
            lookup@ == (LookupView {
                self_id,
                target,
                config,
                entries: seeded(initial_peers@, initial_peers@.len(), self_id, target),
                pending_queries: Map::empty(),
                pending_dials: Map::empty(),
            }),
            lookup@.valid(),
    {
        let mut entries: OrderedMap<Distance, LookupEntry> = OrderedMap::new();
        let mut i: usize = 0;
        while i < initial_peers.len()
            invariant
                i <= initial_peers@.len(),
                entries.map() == seeded(initial_peers@, i as nat, self_id, target),
                forall|d: Seq<u8>| #[trigger]
                    entries.map().dom().contains(d) ==> distance_of(
                        entries.map()[d].node_id,
                        target,
                    ) == d && entries.map()[d].node_id != self_id,
            decreases initial_peers@.len() - i,
        {
            let (id, addr) = initial_peers[i];
            if !id.same(&self_id) {
                entries = entries.insert(
                    id.distance(&target),
                    LookupEntry { node_id: id, addr, status: LookupStatus::Unqueried },
                );
            }
            i = i + 1;
        }
        Lookup {
            self_id,
            target,
            config,
            entries,
            pending_queries: OrderedMap::new(),
            pending_dials: OrderedMap::new(),
        }
    }

    /// The identifier that is looked for.
    pub fn target(&self) -> (target: &NodeId)
        ensures
            *target == self@.target,
    {
        &self.target
    }

    /// How the lookup proceeds.
    pub fn config(&self) -> (config: &LookupConfig)
        ensures
            *config == self@.config,
    {
        &self.config
    }

    /// The known peers by ascending distance.
    pub fn entries(&self) -> (entries: Vec<LookupEntry>)
        ensures
            entries@ == self@.ranked(),
            lists::<Distance>(listing::<Distance>(self@.entries.dom()), self@.entries.dom()),
            self@.valid(),
            self@.entries.dom().finite(),
    {
        proof {
            use_type_invariant(self);
        }
        let n: usize = self.entries.len();
        let ghost stored = self.entries.entries();
        let ghost keys = keys_of(stored);
        let mut out: Vec<LookupEntry> = Vec::new();
        let mut i: usize = 0;
        while i < n
            invariant
                n == self.entries.map().len(),
                n == stored.len(),
                stored == self.entries.entries(),
                i <= n,
                out@.len() == i,
                forall|j: int| 0 <= j < i ==> #[trigger] out@[j] == stored[j].1,
            decreases n - i,
        {
            out.push(*self.entries.entry(i).1);
            i = i + 1;
        }
        proof {
            assert forall|j: int| 0 <= j < n implies out@[j] == self@.ranked()[j] by {
                lemma_index(stored, j);
                assert(keys[j] == stored[j].0@);
            }
            assert(out@ =~= self@.ranked());
        }
        out
    }

    /// The number of known peers.
    pub fn len(&self) -> (n: usize)
        ensures
            n == self@.entries.len(),
    {
        self.entries.len()
    }

    /// Whether no peer is known.
    pub fn is_empty(&self) -> (r: bool)
        ensures
            r == (self@.entries.len() == 0),
    {
        self.entries.len() == 0
    }

    /// Whether an answer or a handshake is awaited.
    pub fn has_pending(&self) -> (r: bool)
        ensures
            r == self@.has_pending(),
    {
        self.pending_queries.len() > 0 || self.pending_dials.len() > 0
    }

    /// The at most `k` closest peers.
    fn front(&self) -> (front: Vec<LookupEntry>)
        ensures
            front@ == self@.front(),
            self@.valid(),
            self@.entries.dom().finite(),
    {
        let mut front = self.entries();
        let k: usize = self.config.k;
        if front.len() > k {
            front.truncate(k);
            assert(front@ =~= self@.front());
        }
        front
    }

    /// The at most `k` closest peers with their addresses, by ascending distance.
    pub fn top_k_results(&self) -> (peers: Vec<(NodeId, UdpAddr)>)
        ensures
            peers@ == self@.results(),
            forall|i: int, j: int|
                0 <= i < j < peers@.len() ==> lex_before(
                    distance_of((#[trigger] peers@[i]).0, self@.target),
                    distance_of((#[trigger] peers@[j]).0, self@.target),
                ),
            forall|d: Seq<u8>| #[trigger]
                self@.entries.dom().contains(d) && !peers@.contains(
                    (self@.entries[d].node_id, self@.entries[d].addr),
                ) ==> {
                    &&& peers@.len() == self@.config.k
                    &&& forall|i: int|
                        0 <= i < peers@.len() ==> lex_before(
                            distance_of((#[trigger] peers@[i]).0, self@.target),
                            d,
                        )
                },
            self@.valid(),
            self@.entries.dom().finite(),
    {
        let front = self.front();
        let mut peers: Vec<(NodeId, UdpAddr)> = Vec::new();
        let mut i: usize = 0;
        while i < front.len()
            invariant
                i <= front@.len(),
                peers@.len() == i,
                forall|j: int| 0 <= j < i ==> #[trigger] peers@[j] == peer_of(front@[j]),
            decreases front@.len() - i,
        {
            peers.push((front[i].node_id, front[i].addr));
            i = i + 1;
        }
        assert(peers@ =~= self@.results());
        proof {
            results_are_the_closest_known(self@);
        }
        peers
    }

    /// Whether nothing is awaited and all of the closest peers have been asked.
    pub fn is_done(&self) -> (r: bool)
        ensures
            r == self@.is_done(),
    {
        if self.has_pending() {
            return false;
        }
        let front = self.front();
        let mut i: usize = 0;
        while i < front.len()
            invariant
                i <= front@.len(),
                front@ == self@.front(),
                forall|j: int|
                    0 <= j < i ==> (#[trigger] front@[j]).status != LookupStatus::Unqueried,
            decreases front@.len() - i,
        {
            if front[i].status == LookupStatus::Unqueried {
                assert(self@.front()[i as int].status == LookupStatus::Unqueried);
                return false;
            }
            i = i + 1;
        }
        true
    }

    /// The at most `alpha` closest peers that have not been asked.
    pub fn pick_next_alpha(&self) -> (peers: Vec<(NodeId, UdpAddr)>)
        ensures
            peers@ == self@.picks(),
            peers@.len() <= self@.config.alpha,
            forall|i: int, j: int|
                0 <= i < j < peers@.len() ==> lex_before(
                    distance_of((#[trigger] peers@[i]).0, self@.target),
                    distance_of((#[trigger] peers@[j]).0, self@.target),
                ),
            forall|d: Seq<u8>| #[trigger]
                self@.in_front(d) && self@.entries[d].status == LookupStatus::Unqueried
                    && !peers@.contains((self@.entries[d].node_id, self@.entries[d].addr)) ==> {
                    &&& peers@.len() == self@.config.alpha
                    &&& forall|i: int|
                        0 <= i < peers@.len() ==> lex_before(
                            distance_of((#[trigger] peers@[i]).0, self@.target),
                            d,
                        )
                },
            self@.valid(),
            self@.entries.dom().finite(),
    {
        let front = self.front();
        let alpha: usize = self.config.alpha;
        let ghost wanted = |e: LookupEntry| e.status == LookupStatus::Unqueried;
        let mut open: Vec<LookupEntry> = Vec::new();
        let mut i: usize = 0;
        proof {
            reveal(Seq::filter);
            assert(front@.take(0) =~= Seq::<LookupEntry>::empty());
        }
        while i < front.len()
            invariant
                i <= front@.len(),
                wanted == (|e: LookupEntry| e.status == LookupStatus::Unqueried),
                open@ == front@.take(i as int).filter(wanted),
            decreases front@.len() - i,
        {
            proof {
                reveal(Seq::filter);
                assert(front@.take(i + 1).drop_last() =~= front@.take(i as int));
                assert(front@.take(i + 1).last() == front@[i as int]);
            }
            if front[i].status == LookupStatus::Unqueried {
                open.push(front[i]);
            }
            i = i + 1;
        }
        assert(front@.take(i as int) =~= front@);
        let count: usize = if open.len() <= alpha { open.len() } else { alpha };
        let mut peers: Vec<(NodeId, UdpAddr)> = Vec::new();
        let mut j: usize = 0;
        while j < count
            invariant
                j <= count <= open@.len(),
                peers@.len() == j,
                forall|p: int| 0 <= p < j ==> #[trigger] peers@[p] == peer_of(open@[p]),
            decreases count - j,
        {
            peers.push((open[j].node_id, open[j].addr));
            j = j + 1;
        }
        assert(peers@ =~= self@.picks());
        proof {
            picks_are_the_closest_waiting(self@);
        }
        peers
    }

    /// Notes that a peer has been asked.
    pub fn mark_in_flight(self, peer: NodeId, addr: UdpAddr) -> (r: Self)
        ensures
            r@ == self@.queried(peer, addr),
    {
        proof {
            use_type_invariant(&self);
        }
        let Lookup { self_id, target, config, entries, pending_queries, pending_dials } = self;
        let entries = set_status(entries, &peer, &target, LookupStatus::InFlight);
        let pending_queries = pending_queries.insert(addr, peer);
        Lookup { self_id, target, config, entries, pending_queries, pending_dials }
    }

    /// Notes that a peer has been dialed.
    pub fn mark_dialing(self, peer: NodeId, addr: UdpAddr) -> (r: Self)
        ensures
            r@ == self@.dialing(peer, addr),
    {
        proof {
            use_type_invariant(&self);
        }
        let Lookup { self_id, target, config, entries, pending_queries, pending_dials } = self;
        let entries = set_status(entries, &peer, &target, LookupStatus::Dialing);
        let pending_dials = pending_dials.insert(addr, peer);
        Lookup { self_id, target, config, entries, pending_queries, pending_dials }
    }

    /// Whether a handshake with `addr` is awaited.
    pub fn is_pending_dial(&self, addr: UdpAddr) -> (r: bool)
        ensures
            r == self@.pending_dials.dom().contains(addr),
    {
        self.pending_dials.contains_key(&addr)
    }

    /// Notes that the handshake with `addr` has completed: the peer can be asked.
    pub fn complete_dial(self, addr: UdpAddr) -> (r: Self)
        ensures
            r@ == self@.dial_completed(addr),
    {
        proof {
            use_type_invariant(&self);
        }
        let Lookup { self_id, target, config, entries, pending_queries, pending_dials } = self;
        let (pending_dials, removed) = pending_dials.remove(&addr);
        let entries = match removed {
            Some(node_id) => set_status(entries, &node_id, &target, LookupStatus::Unqueried),
            None => entries,
        };
        Lookup { self_id, target, config, entries, pending_queries, pending_dials }
    }

    /// Takes in an answer that was awaited: new peers are added, and the peer that
    /// was asked is done. Any other answer is passed over. Says whether the answer
    /// was awaited.
    pub fn record_response(self, from: UdpAddr, peers: &Vec<(NodeId, UdpAddr)>) -> (r: (
        Self,
        bool,
    ))
        ensures
            r.0@ == self@.answered(from, peers@),
            r.1 == self@.pending_queries.dom().contains(from),
    {
        proof {
            use_type_invariant(&self);
            lemma_absorbed_valid(
                self@.entries,
                peers@,
                peers@.len(),
                self@.self_id,
                self@.target,
            );
        }
        let Lookup { self_id, target, config, entries, pending_queries, pending_dials } = self;
        let ghost start = entries.map();
        let ghost awaited = pending_queries.map();
        let (pending_queries, matched) = pending_queries.remove(&from);
        let node_id = match matched {
            Some(node_id) => node_id,
            None => {
                assert(pending_queries.map() =~= awaited);
                return (
                    Lookup { self_id, target, config, entries, pending_queries, pending_dials },
                    false,
                );
            },
        };
        let mut entries = entries;
        let mut i: usize = 0;
        while i < peers.len()
            invariant
                i <= peers@.len(),
                entries.map() == absorbed(start, peers@, i as nat, self_id, target),
            decreases peers@.len() - i,
        {
            let (id, addr) = peers[i];
            if !id.same(&self_id) {
                let d = id.distance(&target);
                if !entries.contains_key(&d) {
                    entries = entries.insert(
                        d,
                        LookupEntry { node_id: id, addr, status: LookupStatus::Unqueried },
                    );
                }
            }
            i = i + 1;
        }
        let entries = set_status(entries, &node_id, &target, LookupStatus::Done);
        (Lookup { self_id, target, config, entries, pending_queries, pending_dials }, true)
    }

    /// Gives up every question without an answer.
    pub fn skip_pending_queries(self) -> (r: Self)
        ensures
            r@ == self@.queries_skipped(),
    {
        proof {
            use_type_invariant(&self);
        }
        let Lookup { self_id, target, config, entries, pending_queries, pending_dials } = self;
        let entries = give_up(entries, &pending_queries, &target);
        Lookup {
            self_id,
            target,
            config,
            entries,
            pending_queries: OrderedMap::new(),
            pending_dials,
        }
    }

    /// Gives up every handshake that has not completed.
    pub fn skip_pending_dials(self) -> (r: Self)
        ensures
            r@ == self@.dials_skipped(),
    {
        proof {
            use_type_invariant(&self);
        }
        let Lookup { self_id, target, config, entries, pending_queries, pending_dials } = self;
        let entries = give_up(entries, &pending_dials, &target);
        Lookup {
            self_id,
            target,
            config,
            entries,
            pending_queries,
            pending_dials: OrderedMap::new(),
        }
    }

    /// Takes in an event of the node.
    pub fn absorb_event(self, event: &KadEvent) -> (r: Self)
        ensures
            r@ == self@.on_event(event@),
    {
        match event {
            KadEvent::FindNodeResponseReceived { from, peers } => self.record_response(
                *from,
                peers,
            ).0,
            KadEvent::HandshakeComplete { addr, .. } => {
                if self.is_pending_dial(*addr) {
                    self.complete_dial(*addr)
                } else {
                    self
                }
            },
            _ => self,
        }
    }
}

} // verus!
