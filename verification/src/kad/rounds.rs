//! The rounds of a lookup: what to send, what to wait for, when to stop. The
//! caller sends the datagrams and hands back what arrives.
use vstd::prelude::*;
use crate::addr::{Outbound, OutboundView, UdpAddr};
use crate::bytes::{concat, lemma_lex_irreflexive, lex_before};
use crate::failure::{outbounds_view, Failure, FailureView};
use crate::host::host::Host;
use crate::host::model::HostView;
use crate::kad::bucket::Peers;
use crate::kad::codec::{encode, Frame, FrameView};
use crate::kad::distance::Distance;
use crate::kad::event::KadEvent;
use crate::kad::lookup::{seeded, unqueried, Lookup, LookupConfig, LookupView};
use crate::kad::node::{KadNodeView, KademliaNode};
use crate::kad::node_id::{distance_of, NodeId};
use crate::kad::routing_table::{closest_peers_ascend, ranking, ranks, TableView};
use crate::ordered_map::{lemma_listing, OrderedKey};

verus! {

/// What a round does about one peer.
#[derive(Clone, Copy, Debug)]
pub enum RoundAction {
    /// Asks an established peer.
    Query { addr: UdpAddr },
    /// Dials a peer that is not established.
    Dial { addr: UdpAddr, seed: [u8; 32] },
}

/// What a round does about a peer: an established one is asked, another dialed.
pub open spec fn action_for(host: HostView, addr: UdpAddr, seed: [u8; 32]) -> RoundAction {
    if host.established.dom().contains(addr) {
        RoundAction::Query { addr }
    } else {
        RoundAction::Dial { addr, seed }
    }
}

/// How many of the first `n` peers are not established.
pub open spec fn dials(host: HostView, picks: Peers, n: nat) -> nat
    decreases n,
{
    if n == 0 {
        0
    } else {
        let before = dials(host, picks, (n - 1) as nat);
        if host.established.dom().contains(picks[n - 1].1) {
            before
        } else {
            before + 1
        }
    }
}

/// What a round does about each peer; the seeds go to the handshakes in turn.
pub open spec fn planned(host: HostView, picks: Peers, seeds: Seq<[u8; 32]>) -> Seq<
    (NodeId, RoundAction),
> {
    Seq::new(
        picks.len(),
        |i: int|
            (
                picks[i].0,
                action_for(host, picks[i].1, seeds[dials(host, picks, i as nat) as int]),
            ),
    )
}

/// More peers mean no fewer handshakes.
proof fn lemma_dials_grow(host: HostView, picks: Peers, i: nat, n: nat)
    requires
        i <= n,
    ensures
        dials(host, picks, i) <= dials(host, picks, n),
        dials(host, picks, n) <= n,
    decreases n,
{
    if i < n {
        lemma_dials_grow(host, picks, i, (n - 1) as nat);
    } else if n > 0 {
        lemma_dials_grow(host, picks, (n - 1) as nat, (n - 1) as nat);
    }
}

/// The lookup with the first `n` actions noted.
pub open spec fn noted(lookup: LookupView, actions: Seq<(NodeId, RoundAction)>, n: nat) -> LookupView
    decreases n,
{
    if n == 0 {
        lookup
    } else {
        let before = noted(lookup, actions, (n - 1) as nat);
        match actions[n - 1].1 {
            RoundAction::Query { addr } => before.queried(actions[n - 1].0, addr),
            RoundAction::Dial { addr, .. } => before.dialing(actions[n - 1].0, addr),
        }
    }
}

/// The plaintext of a question; `prefix` stands in front of the frame.
pub open spec fn question(prefix: Seq<u8>, target: NodeId) -> Seq<u8> {
    prefix + FrameView::FindNodeReq { target }.wire()->Ok_0
}

/// The host after the first `n` actions and the datagrams to send, or the first
/// failure and the datagrams before it.
pub open spec fn performed(
    host: HostView,
    prefix: Seq<u8>,
    target: NodeId,
    actions: Seq<(NodeId, RoundAction)>,
    n: nat,
) -> Result<(HostView, Seq<OutboundView>), FailureView>
    decreases n,
{
    if n == 0 {
        Ok((host, Seq::empty()))
    } else {
        match performed(host, prefix, target, actions, (n - 1) as nat) {
            Err(e) => Err(e),
            Ok((h, out)) => match actions[n - 1].1 {
                RoundAction::Query { addr } => match h.send_error(addr, question(prefix, target)) {
                    Some(error) => Err(FailureView { error, outbound: out }),
                    None => Ok(
                        (h.sent(addr), out.push(h.send_datagram(addr, question(prefix, target)))),
                    ),
                },
                RoundAction::Dial { addr, seed } => match h.dial_error(addr) {
                    Some(error) => Err(FailureView { error, outbound: out }),
                    None => Ok(
                        (
                            h.dialed(addr, seed@),
                            out.push(OutboundView { addr, datagram: h.dial_message(seed@) }),
                        ),
                    ),
                },
            },
        }
    }
}

/// Once an action has failed the round fails.
proof fn lemma_performed_fails(
    host: HostView,
    prefix: Seq<u8>,
    target: NodeId,
    actions: Seq<(NodeId, RoundAction)>,
    i: nat,
    n: nat,
)
    requires
        i <= n,
        performed(host, prefix, target, actions, i) is Err,
    ensures
        performed(host, prefix, target, actions, n) == performed(host, prefix, target, actions, i),
    decreases n,
{
    if i < n {
        lemma_performed_fails(host, prefix, target, actions, i, (n - 1) as nat);
    }
}

/// A lookup at its start: it knows the closest peers of the routing table.
pub open spec fn started(table: TableView, target: NodeId, config: LookupConfig) -> LookupView {
    let initial = table.closest(target, config.k as nat);
    LookupView {
        self_id: table.self_id,
        target,
        config,
        entries: seeded(initial, initial.len(), table.self_id, target),
        pending_queries: Map::empty(),
        pending_dials: Map::empty(),
    }
}

/// A lookup under way.
pub struct Search {
    pub lookup: Lookup,
    /// How many rounds may still begin.
    pub rounds_left: usize,
    /// How many datagrams the round may still take.
    pub budget: usize,
}

/// The meaning of a [`Search`].
pub struct SearchView {
    pub lookup: LookupView,
    pub rounds_left: nat,
    pub budget: nat,
}

impl View for Search {
    type V = SearchView;

    open spec fn view(&self) -> SearchView {
        SearchView {
            lookup: self.lookup@,
            rounds_left: self.rounds_left as nat,
            budget: self.budget as nat,
        }
    }
}

impl SearchView {
    /// A lookup before its first round.
    pub open spec fn fresh(lookup: LookupView) -> SearchView {
        SearchView { lookup, rounds_left: lookup.config.max_rounds as nat, budget: 0 }
    }

    /// Whether the round still takes datagrams: its budget is not used up and
    /// something is awaited.
    pub open spec fn awaiting(self) -> bool {
        self.budget > 0 && self.lookup.has_pending()
    }

    /// The search after a datagram that led to the given lookup. One that comes
    /// when the round takes no more is passed over.
    pub open spec fn after_datagram(self, lookup: LookupView) -> SearchView {
        if self.awaiting() {
            SearchView { lookup, budget: (self.budget - 1) as nat, ..self }
        } else {
            self
        }
    }

    /// The search once its round has ended: what is still awaited is given up.
    pub open spec fn round_ended(self) -> SearchView {
        SearchView {
            lookup: self.lookup.queries_skipped().dials_skipped(),
            budget: 0,
            ..self
        }
    }

    /// Whether the search has come to its end.
    pub open spec fn finished(self) -> bool {
        self.rounds_left == 0 || self.lookup.is_done() || self.lookup.picks().len() == 0
    }

    /// How many seeds the next round takes: one for each handshake that it
    /// begins, none where no round begins.
    pub open spec fn seeds_wanted(self, host: HostView) -> nat {
        if self.finished() {
            0
        } else {
            dials(host, self.lookup.picks(), self.lookup.picks().len())
        }
    }

    /// The search once a round has begun with the given actions.
    pub open spec fn round_begun(self, actions: Seq<(NodeId, RoundAction)>) -> SearchView {
        SearchView {
            lookup: noted(self.lookup, actions, actions.len()),
            rounds_left: (self.rounds_left - 1) as nat,
            budget: self.lookup.config.max_recv_per_round as nat,
        }
    }
}

/// The start of a round.
pub struct Round {
    pub host: Host,
    pub search: Search,
    /// The datagrams to send.
    pub outbound: Vec<Outbound>,
    /// Whether the search has come to its end; then nothing is sent.
    pub finished: bool,
}

/// How many of the peers are not established.
fn count_dials(host: &Host, picks: &Vec<(NodeId, UdpAddr)>) -> (n: usize)
    ensures
        n == dials(host@, picks@, picks@.len()),
{
    let mut n: usize = 0;
    let mut i: usize = 0;
    while i < picks.len()
        invariant
            i <= picks@.len(),
            n == dials(host@, picks@, i as nat),
            n <= i,
        decreases picks@.len() - i,
    {
        if !host.is_established(picks[i].1) {
            n = n + 1;
        }
        i = i + 1;
    }
    n
}

/// Decides what to do about each picked peer.
pub fn plan_actions(host: &Host, picks: &Vec<(NodeId, UdpAddr)>, seeds: &Vec<[u8; 32]>) -> (actions:
    Vec<(NodeId, RoundAction)>)
    requires
        seeds@.len() >= dials(host@, picks@, picks@.len()),
    ensures
        actions@ == planned(host@, picks@, seeds@),
{
    let mut actions: Vec<(NodeId, RoundAction)> = Vec::new();
    let mut used: usize = 0;
    let mut i: usize = 0;
    while i < picks.len()
        invariant
            i <= picks@.len(),
            used == dials(host@, picks@, i as nat),
            seeds@.len() >= dials(host@, picks@, picks@.len()),
            actions@.len() == i,
            forall|j: int|
                0 <= j < i ==> #[trigger] actions@[j] == planned(host@, picks@, seeds@)[j],
        decreases picks@.len() - i,
    {
        let (id, addr) = picks[i];
        proof {
            lemma_dials_grow(host@, picks@, (i + 1) as nat, picks@.len());
        }
        let action = if host.is_established(addr) {
            RoundAction::Query { addr }
        } else {
            let seed = seeds[used];
            used = used + 1;
            RoundAction::Dial { addr, seed }
        };
        actions.push((id, action));
        i = i + 1;
    }
    assert(actions@ =~= planned(host@, picks@, seeds@));
    actions
}

/// Notes the actions of a round in the lookup.
pub fn mark_actions(lookup: Lookup, actions: &Vec<(NodeId, RoundAction)>) -> (r: Lookup)
    ensures
        r@ == noted(lookup@, actions@, actions@.len()),
{
    let ghost start = lookup@;
    let mut next = lookup;
    let mut i: usize = 0;
    while i < actions.len()
        invariant
            i <= actions@.len(),
            next@ == noted(start, actions@, i as nat),
        decreases actions@.len() - i,
    {
        let (id, action) = actions[i];
        next = match action {
            RoundAction::Query { addr } => next.mark_in_flight(id, addr),
            RoundAction::Dial { addr, .. } => next.mark_dialing(id, addr),
        };
        i = i + 1;
    }
    next
}

/// Performs the actions of a round: questions are encrypted, handshakes begun.
pub fn perform_actions(
    host: Host,
    prefix: &[u8],
    target: NodeId,
    actions: &Vec<(NodeId, RoundAction)>,
) -> (r: Result<(Host, Vec<Outbound>), Failure>)
    ensures
        match r {
            Ok((next, outbound)) => performed(
                host@,
                prefix@,
                target,
                actions@,
                actions@.len(),
            ) == Ok::<(HostView, Seq<OutboundView>), FailureView>(
                (next@, outbounds_view(outbound@)),
            ),
            Err(e) => performed(host@, prefix@, target, actions@, actions@.len()) == Err::<
                (HostView, Seq<OutboundView>),
                FailureView,
            >(e@),
        },
{
    let ghost start = host@;
    let frame = match encode(&Frame::FindNodeReq { target }) {
        Ok(bytes) => bytes,
        Err(e) => {
            return Err(Failure::early(e));
        },
    };
    let plaintext = concat(prefix, frame.as_slice());
    let mut next = host;
    let mut outbound: Vec<Outbound> = Vec::new();
    let mut i: usize = 0;
    assert(outbounds_view(outbound@) =~= Seq::<OutboundView>::empty());
    while i < actions.len()
        invariant
            i <= actions@.len(),
            start == host@,
            plaintext@ == question(prefix@, target),
            performed(start, prefix@, target, actions@, i as nat) == Ok::<
                (HostView, Seq<OutboundView>),
                FailureView,
            >((next@, outbounds_view(outbound@))),
        decreases actions@.len() - i,
    {
        let (_, action) = actions[i];
        let ghost before = outbound@;
        let ghost h = next@;
        let sent = match action {
            RoundAction::Query { addr } => next.send(addr, plaintext.as_slice()),
            RoundAction::Dial { addr, seed } => next.dial(addr, seed),
        };
        match sent {
            Err(error) => {
                let failure = Failure { error, outbound };
                proof {
                    assert(performed(start, prefix@, target, actions@, (i + 1) as nat) == Err::<
                        (HostView, Seq<OutboundView>),
                        FailureView,
                    >(failure@)) by {
                        assert(actions@[i as int].1 == action);
                        assert(performed(start, prefix@, target, actions@, i as nat) == Ok::<
                            (HostView, Seq<OutboundView>),
                            FailureView,
                        >((h, outbounds_view(before))));
                    }
                    lemma_performed_fails(
                        start,
                        prefix@,
                        target,
                        actions@,
                        (i + 1) as nat,
                        actions@.len(),
                    );
                }
                return Err(failure);
            },
            Ok((stepped, o)) => {
                outbound.push(o);
                assert(outbounds_view(outbound@) =~= outbounds_view(before).push(o@));
                next = stepped;
            },
        }
        i = i + 1;
    }
    Ok((next, outbound))
}

/// The peers of an ascending list without the owner are put in one by one.
proof fn lemma_seeded(peers: Peers, n: nat, self_id: NodeId, target: NodeId)
    requires
        n <= peers.len(),
        forall|i: int, j: int|
            0 <= i < j < peers.len() ==> lex_before(
                distance_of((#[trigger] peers[i]).0, target),
                distance_of((#[trigger] peers[j]).0, target),
            ),
        forall|i: int| 0 <= i < peers.len() ==> (#[trigger] peers[i]).0 != self_id,
    ensures
        forall|d: Seq<u8>| #[trigger]
            seeded(peers, n, self_id, target).dom().contains(d) <==> exists|i: int|
                0 <= i < n && distance_of((#[trigger] peers[i]).0, target) == d,
        forall|i: int|
            0 <= i < n ==> seeded(peers, n, self_id, target)[distance_of(
                (#[trigger] peers[i]).0,
                target,
            )] == unqueried(peers[i].0, peers[i].1),
    decreases n,
{
    if n > 0 {
        let m = (n - 1) as nat;
        lemma_seeded(peers, m, self_id, target);
        let before = seeded(peers, m, self_id, target);
        let after = seeded(peers, n, self_id, target);
        let last = distance_of(peers[m as int].0, target);
        assert(after == before.insert(last, unqueried(peers[m as int].0, peers[m as int].1)));
        assert forall|i: int| 0 <= i < n implies after[distance_of(
            (#[trigger] peers[i]).0,
            target,
        )] == unqueried(peers[i].0, peers[i].1) by {
            if i < m {
                lemma_lex_irreflexive(last);
                assert(distance_of(peers[i].0, target) != last);
            }
        }
        assert forall|d: Seq<u8>| #[trigger] after.dom().contains(d) <==> exists|i: int|
            0 <= i < n && distance_of((#[trigger] peers[i]).0, target) == d by {
            if after.dom().contains(d) {
                if d == last {
                    assert(distance_of(peers[m as int].0, target) == d);
                } else {
                    assert(before.dom().contains(d));
                    let i = choose|i: int|
                        0 <= i < m && distance_of((#[trigger] peers[i]).0, target) == d;
                    assert(distance_of(peers[i].0, target) == d);
                }
            }
        }
    }
}

/// Before its first round a search has found exactly the closest peers of the
/// table.
pub proof fn fresh_searches_know_the_table(table: TableView, target: NodeId, config: LookupConfig)
    requires
        table.valid(),
        ranks(ranking(table.all(), target), table.all(), target),
    ensures
        started(table, target, config).results() == table.closest(target, config.k as nat),
{
    let lookup = started(table, target, config);
    let initial = table.closest(target, config.k as nat);
    closest_peers_ascend(table, target, config.k as nat);
    lemma_seeded(initial, initial.len(), table.self_id, target);
    let keys = initial.map_values(|e: (NodeId, UdpAddr)| distance_of(e.0, target));
    let dom = lookup.entries.dom();
    assert forall|i: int, j: int| 0 <= i < j < keys.len() implies Distance::precedes(
        #[trigger] keys[i],
        #[trigger] keys[j],
    ) by {
        assert(lex_before(distance_of(initial[i].0, target), distance_of(initial[j].0, target)));
    }
    assert forall|d: Seq<u8>| keys.contains(d) <==> #[trigger] dom.contains(d) by {
        if keys.contains(d) {
            let i = keys.index_of(d);
            assert(distance_of(initial[i].0, target) == d);
        }
        if dom.contains(d) {
            let i = choose|i: int|
                0 <= i < initial.len() && distance_of((#[trigger] initial[i]).0, target) == d;
            assert(keys[i] == d);
        }
    }
    lemma_listing::<Distance>(keys, dom);
    assert forall|i: int| 0 <= i < initial.len() implies #[trigger] lookup.results()[i]
        == initial[i] by {
        assert(lookup.ranked()[i] == lookup.entries[keys[i]]);
        assert(lookup.entries[distance_of(initial[i].0, target)] == unqueried(
            initial[i].0,
            initial[i].1,
        ));
    }
    assert(lookup.results() =~= initial);
}

/// Where nothing is awaited, ending a round changes no peer.
pub proof fn ending_an_idle_round_changes_no_peer(search: SearchView)
    requires
        search.lookup.pending_queries == Map::<UdpAddr, NodeId>::empty(),
        search.lookup.pending_dials == Map::<UdpAddr, NodeId>::empty(),
    ensures
        search.round_ended().lookup == search.lookup,
{
    let after = search.lookup.queries_skipped();
    assert(after.entries =~= search.lookup.entries);
    assert(after.dials_skipped().entries =~= search.lookup.entries);
}

impl Search {
    /// A search that has begun no round yet.
    pub fn new(lookup: Lookup) -> (search: Self)
        ensures
            search@ == SearchView::fresh(lookup@),
    {
        let rounds_left: usize = lookup.config().max_rounds;
        Search { lookup, rounds_left, budget: 0 }
    }

    /// Whether the round still takes datagrams.
    pub fn awaiting(&self) -> (r: bool)
        ensures
            r == self@.awaiting(),
    {
        self.budget > 0 && self.lookup.has_pending()
    }

    /// Takes note of what a datagram amounted to.
    pub fn absorb_event(self, event: &KadEvent) -> (search: Self)
        ensures
            search@ == self@.after_datagram(self@.lookup.on_event(event@)),
    {
        if self.awaiting() {
            let Search { lookup, rounds_left, budget } = self;
            Search { lookup: lookup.absorb_event(event), rounds_left, budget: budget - 1 }
        } else {
            self
        }
    }

    /// Ends the round.
    pub fn end_round(self) -> (search: Self)
        ensures
            search@ == self@.round_ended(),
            !search@.lookup.has_pending(),
    {
        let Search { lookup, rounds_left, .. } = self;
        Search {
            lookup: lookup.skip_pending_queries().skip_pending_dials(),
            rounds_left,
            budget: 0,
        }
    }

    /// How many seeds the next round takes: one for each handshake that it
    /// begins, none where no round begins.
    pub fn seeds_wanted(&self, host: &Host) -> (n: usize)
        ensures
            n == self@.seeds_wanted(host@),
    {
        let picks = self.lookup.pick_next_alpha();
        if self.rounds_left == 0 || self.lookup.is_done() || picks.len() == 0 {
            0
        } else {
            count_dials(host, &picks)
        }
    }

    /// Begins a round: every picked peer is asked or dialed. Fails only where a
    /// datagram cannot be sent.
    pub fn begin_round(self, host: Host, prefix: &[u8], seeds: &Vec<[u8; 32]>) -> (r: Result<
        Round,
        Failure,
    >)
        requires
            seeds@.len() >= self@.seeds_wanted(host@),
        ensures
            ({
                let actions = planned(host@, self@.lookup.picks(), seeds@);
                let done = performed(host@, prefix@, self@.lookup.target, actions, actions.len());
                match r {
                    Ok(round) => {
                        &&& round.finished == self@.finished()
                        &&& round.finished ==> round.host@ == host@ && round.search@ == self@
                            && round.outbound@.len() == 0
                        &&& !round.finished ==> round.search@ == self@.round_begun(actions) && done
                            == Ok::<(HostView, Seq<OutboundView>), FailureView>(
                            (round.host@, outbounds_view(round.outbound@)),
                        )
                    },
                    Err(e) => !self@.finished() && done == Err::<
                        (HostView, Seq<OutboundView>),
                        FailureView,
                    >(e@),
                }
            }),
    {
        let Search { lookup, rounds_left, budget } = self;
        let picks = lookup.pick_next_alpha();
        if rounds_left == 0 || lookup.is_done() || picks.len() == 0 {
            let search = Search { lookup, rounds_left, budget };
            return Ok(Round { host, search, outbound: Vec::new(), finished: true });
        }
        let actions = plan_actions(&host, &picks, seeds);
        let target = *lookup.target();
        let budget: usize = lookup.config().max_recv_per_round;
        let lookup = mark_actions(lookup, &actions);
        match perform_actions(host, prefix, target, &actions) {
            Err(e) => Err(e),
            Ok((host, outbound)) => {
                let search = Search { lookup, rounds_left: rounds_left - 1, budget };
                Ok(Round { host, search, outbound, finished: false })
            },
        }
    }

    /// The closest peers found.
    pub fn results(&self) -> (peers: Vec<(NodeId, UdpAddr)>)
        ensures
            peers@ == self@.lookup.results(),
    {
        self.lookup.top_k_results()
    }
}

impl KademliaNode {
    /// A search for `target` that starts from the closest peers of the routing
    /// table.
    pub fn start_lookup(&self, target: NodeId, config: LookupConfig) -> (search: Search)
        ensures
            search@ == SearchView::fresh(started(self@.table, target, config)),
            search@.lookup.results() == self@.table.closest(target, config.k as nat),
            config.max_rounds == 0 ==> search@.finished(),
    {
        let initial = self.routing_table().closest_to(&target, config.k);
        proof {
            fresh_searches_know_the_table(self@.table, target, config);
        }
        Search::new(Lookup::new(*self.node_id(), target, config, &initial))
    }

    /// Begins a round of a search, as [`Search::begin_round`] does.
    pub fn begin_lookup_round(self, search: Search, seeds: &Vec<[u8; 32]>) -> (r: Result<
        (Self, Search, Vec<Outbound>, bool),
        Failure,
    >)
        requires
            seeds@.len() >= search@.seeds_wanted(self@.host),
        ensures
            ({
                let actions = planned(self@.host, search@.lookup.picks(), seeds@);
                let done = performed(
                    self@.host,
                    Seq::empty(),
                    search@.lookup.target,
                    actions,
                    actions.len(),
                );
                match r {
                    Ok((node, next, outbound, finished)) => {
                        &&& finished == search@.finished()
                        &&& finished ==> node@ == self@ && next@ == search@ && outbound@.len() == 0
                        &&& !finished ==> next@ == search@.round_begun(actions) && done == Ok::<
                            (HostView, Seq<OutboundView>),
                            FailureView,
                        >((node@.host, outbounds_view(outbound@))) && node@ == (KadNodeView {
                            host: node@.host,
                            ..self@
                        })
                    },
                    Err(e) => !search@.finished() && done == Err::<
                        (HostView, Seq<OutboundView>),
                        FailureView,
                    >(e@),
                }
            }),
    {
        let (host, table) = self.split();
        let empty: [u8; 0] = [];
        assert(empty@ =~= Seq::<u8>::empty());
        match search.begin_round(host, empty.as_slice(), seeds) {
            Err(e) => Err(e),
            Ok(round) => {
                let Round { host, search, outbound, finished } = round;
                Ok((KademliaNode::join(host, table), search, outbound, finished))
            },
        }
    }
}

} // verus!
