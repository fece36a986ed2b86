//! What a node remembers of its topics: a decoder or a recoder for each.
use vstd::prelude::*;
use std::sync::Arc;
use rlnc_cat_rs::coding::decode::DecoderState;
use rlnc_cat_rs::coding::piece::OriginalData;
use rlnc_cat_rs::coding::recode::Recoder;
use crate::activity::{
    activity_of, cutoff, idle_cutoff, kept, next_tick, sweep_idle, swept, tick_after, Touched,
};
use crate::ordered_map::{listing, lists, OrderedMap};
use crate::pubsub::auth::WireAuthenticator;
use crate::pubsub::topic::Topic;
use crate::rlnc::{
    codings, decoder_view, misfit, new_decoder, new_recoder, original_pieces, recoder_view,
    same_span, spanned, DecoderView, RecoderView,
};

verus! {

/// A decoder, the commitment that its pieces are checked against, and the tick
/// at which it was last touched.
pub struct DecoderEntry<A: WireAuthenticator> {
    pub state: DecoderState,
    pub commitment: A::Commitment,
    pub last_activity: u64,
}

/// The meaning of a [`DecoderEntry`].
pub struct DecoderEntryView {
    pub state: DecoderView,
    pub commitment: Seq<u8>,
    pub last_activity: u64,
}

impl<A: WireAuthenticator> View for DecoderEntry<A> {
    type V = DecoderEntryView;

    open spec fn view(&self) -> DecoderEntryView {
        DecoderEntryView {
            state: decoder_view(self.state),
            commitment: A::commitment_bytes(self.commitment),
            last_activity: self.last_activity,
        }
    }
}

impl<A: WireAuthenticator> Touched for DecoderEntry<A> {
    open spec fn touched(&self) -> u64 {
        self.last_activity
    }

    fn last_activity(&self) -> (tick: u64) {
        self.last_activity
    }
}

/// A recoder, a decoder that tracks the rank of what it holds, the commitment
/// that its pieces are checked against, and the tick at which it was last
/// touched.
pub struct RecoderEntry<A: WireAuthenticator> {
    pub recoder: Recoder,
    pub rank_tracker: DecoderState,
    pub commitment: A::Commitment,
    pub last_activity: u64,
}

/// The meaning of a [`RecoderEntry`].
pub struct RecoderEntryView {
    pub recoder: RecoderView,
    pub tracker: DecoderView,
    pub commitment: Seq<u8>,
    pub last_activity: u64,
}

impl RecoderEntryView {
    /// The recoder stores as many pieces as the tracker has rank, at most one
    /// for each original piece; and the tracker tells which pieces depend on
    /// the stored ones, as each of these does.
    pub open spec fn gated(self) -> bool {
        &&& self.recoder.k == self.tracker.k
        &&& self.recoder.b == self.tracker.b
        &&& self.recoder.pieces.len() == self.tracker.rank()
        &&& self.tracker.rank() <= self.tracker.k
        &&& self.tracker.discerning()
        &&& forall|i: int|
            0 <= i < self.recoder.pieces.len() ==> {
                let piece = #[trigger] self.recoder.pieces[i];
                &&& misfit(piece, self.recoder.k, self.recoder.b) is None
                &&& spanned(piece.coding, self.tracker.codings())
            }
        &&& same_span(codings(self.recoder.pieces), self.tracker.codings(), self.tracker.k)
    }
}

impl<A: WireAuthenticator> View for RecoderEntry<A> {
    type V = RecoderEntryView;

    open spec fn view(&self) -> RecoderEntryView {
        RecoderEntryView {
            recoder: recoder_view(self.recoder),
            tracker: decoder_view(self.rank_tracker),
            commitment: A::commitment_bytes(self.commitment),
            last_activity: self.last_activity,
        }
    }
}

impl<A: WireAuthenticator> Touched for RecoderEntry<A> {
    open spec fn touched(&self) -> u64 {
        self.last_activity
    }

    fn last_activity(&self) -> (tick: u64) {
        self.last_activity
    }
}

/// The meaning of a table of decoders.
pub open spec fn decoders_view<A: WireAuthenticator>(map: Map<Seq<u8>, DecoderEntry<A>>) -> Map<
    Seq<u8>,
    DecoderEntryView,
> {
    map.map_values(|e: DecoderEntry<A>| e@)
}

/// The meaning of a table of recoders.
pub open spec fn recoders_view<A: WireAuthenticator>(map: Map<Seq<u8>, RecoderEntry<A>>) -> Map<
    Seq<u8>,
    RecoderEntryView,
> {
    map.map_values(|e: RecoderEntry<A>| e@)
}

/// When each decoder was last touched.
pub open spec fn decoder_activity(decoders: Map<Seq<u8>, DecoderEntryView>) -> Map<Seq<u8>, u64> {
    decoders.map_values(|e: DecoderEntryView| e.last_activity)
}

/// When each recoder was last touched.
pub open spec fn recoder_activity(recoders: Map<Seq<u8>, RecoderEntryView>) -> Map<Seq<u8>, u64> {
    recoders.map_values(|e: RecoderEntryView| e.last_activity)
}

/// The meaning of a [`PubsubState`]. Topics are the bytes of their names.
pub struct PubsubView<A> {
    pub auth: A,
    pub decoders: Map<Seq<u8>, DecoderEntryView>,
    pub recoders: Map<Seq<u8>, RecoderEntryView>,
    pub tick: u64,
}

impl<A: WireAuthenticator> PubsubView<A> {
    /// No recoder stores more pieces than its generation has.
    pub open spec fn gated(self) -> bool {
        forall|t: Seq<u8>| #[trigger] self.recoders.dom().contains(t) ==> self.recoders[t].gated()
    }

    /// The state with its clock one tick on.
    pub open spec fn ticked(self) -> PubsubView<A> {
        PubsubView { tick: tick_after(self.tick), ..self }
    }

    /// The state with a decoder for a topic.
    pub open spec fn decoding(self, topic: Seq<u8>, k: nat, b: nat, commitment: Seq<u8>) -> PubsubView<
        A,
    > {
        PubsubView {
            decoders: self.decoders.insert(
                topic,
                DecoderEntryView {
                    state: DecoderView::empty(k, b),
                    commitment,
                    last_activity: tick_after(self.tick),
                },
            ),
            ..self
        }.ticked()
    }

    /// The state with a recoder for a topic.
    pub open spec fn relaying(self, topic: Seq<u8>, k: nat, b: nat, commitment: Seq<u8>) -> PubsubView<
        A,
    > {
        PubsubView {
            recoders: self.recoders.insert(
                topic,
                RecoderEntryView {
                    recoder: RecoderView::empty(k, b),
                    tracker: DecoderView::empty(k, b),
                    commitment,
                    last_activity: tick_after(self.tick),
                },
            ),
            ..self
        }.ticked()
    }

    /// The decoders that are idle for more than `max_idle_ticks`.
    pub open spec fn idle_decoders(self, max_idle_ticks: u64) -> Set<Seq<u8>> {
        swept(
            self.decoders,
            decoder_activity(self.decoders),
            idle_cutoff(self.tick, max_idle_ticks),
        )
    }

    /// The recoders that are idle for more than `max_idle_ticks`.
    pub open spec fn idle_recoders(self, max_idle_ticks: u64) -> Set<Seq<u8>> {
        swept(
            self.recoders,
            recoder_activity(self.recoders),
            idle_cutoff(self.tick, max_idle_ticks),
        )
    }
}

/// The authenticator and the topics of a node.
pub struct PubsubState<A: WireAuthenticator> {
    pub(crate) auth: Arc<A>,
    pub(crate) decoders: OrderedMap<Topic, DecoderEntry<A>>,
    pub(crate) recoders: OrderedMap<Topic, RecoderEntry<A>>,
    pub(crate) tick: u64,
}

impl<A: WireAuthenticator> View for PubsubState<A> {
    type V = PubsubView<A>;

    closed spec fn view(&self) -> PubsubView<A> {
        PubsubView {
            auth: *self.auth,
            decoders: decoders_view(self.decoders.map()),
            recoders: recoders_view(self.recoders.map()),
            tick: self.tick,
        }
    }
}

impl<A: WireAuthenticator> PubsubState<A> {
    #[verifier::type_invariant]
    pub(crate) closed spec fn well_formed(&self) -> bool {
        self@.gated()
    }

    /// A state without topics.
    pub fn new(auth: Arc<A>) -> (state: Self)
        ensures
            state@ == (PubsubView {
                auth: *auth,
                decoders: Map::empty(),
                recoders: Map::empty(),
                tick: 0,
            }),
    {
        let decoders: OrderedMap<Topic, DecoderEntry<A>> = OrderedMap::new();
        let recoders: OrderedMap<Topic, RecoderEntry<A>> = OrderedMap::new();
        assert(decoders_view(decoders.map()) =~= Map::<Seq<u8>, DecoderEntryView>::empty());
        assert(recoders_view(recoders.map()) =~= Map::<Seq<u8>, RecoderEntryView>::empty());
        PubsubState { auth, decoders, recoders, tick: 0 }
    }

    /// The authenticator.
    pub fn auth(&self) -> (auth: &A)
        ensures
            *auth == self@.auth,
    {
        &self.auth
    }

    /// The clock: it counts the operations that touched the state.
    pub fn tick(&self) -> (tick: u64)
        ensures
            tick == self@.tick,
    {
        self.tick
    }

    /// The commitment to a generation.
    pub fn commit(&self, original: &OriginalData) -> (commitment: A::Commitment)
        ensures
            A::commitment_bytes(commitment) == self@.auth.commits(original_pieces(*original)),
    {
        self.auth.commit(original)
    }

    /// Registers a topic for decoding, in place of an earlier decoder.
    pub fn register_topic(
        self,
        topic: Topic,
        piece_count: usize,
        piece_byte_len: usize,
        commitment: A::Commitment,
    ) -> (state: Self)
        requires
            piece_count + piece_byte_len <= usize::MAX,
        ensures
            state@ == self@.decoding(
                topic@,
                piece_count as nat,
                piece_byte_len as nat,
                A::commitment_bytes(commitment),
            ),
    {
        proof {
            use_type_invariant(&self);
        }
        let ghost before = self@;
        let PubsubState { auth, decoders, recoders, tick } = self;
        let tick = next_tick(tick);
        let entry = DecoderEntry {
            state: new_decoder(piece_count, piece_byte_len),
            commitment,
            last_activity: tick,
        };
        let ghost t = topic@;
        let decoders = decoders.insert(topic, entry);
        proof {
            assert(decoders_view(decoders.map()) =~= before.decoders.insert(t, entry@));
            assert(before.gated());
            assert(recoders_view(recoders.map()) == before.recoders);
        }
        let state = PubsubState { auth, decoders, recoders, tick };
        state
    }

    /// Registers a topic for relaying, in place of an earlier recoder.
    pub fn register_relay(
        self,
        topic: Topic,
        piece_count: usize,
        piece_byte_len: usize,
        commitment: A::Commitment,
    ) -> (state: Self)
        requires
            piece_count + piece_byte_len <= usize::MAX,
        ensures
            state@ == self@.relaying(
                topic@,
                piece_count as nat,
                piece_byte_len as nat,
                A::commitment_bytes(commitment),
            ),
    {
        proof {
            use_type_invariant(&self);
        }
        let ghost before = self@;
        let PubsubState { auth, decoders, recoders, tick } = self;
        let tick = next_tick(tick);
        let entry = RecoderEntry {
            recoder: new_recoder(piece_count, piece_byte_len),
            rank_tracker: new_decoder(piece_count, piece_byte_len),
            commitment,
            last_activity: tick,
        };
        let ghost t = topic@;
        let recoders = recoders.insert(topic, entry);
        proof {
            assert(entry@.recoder.pieces =~= Seq::empty());
            assert(entry@.tracker.rank() == 0);
            assert(codings(entry@.recoder.pieces) =~= entry@.tracker.codings());
            assert(entry@.gated());
            assert(recoders_view(recoders.map()) =~= before.recoders.insert(t, entry@));
        }
        PubsubState { auth, decoders, recoders, tick }
    }

    /// Drops the decoder of a topic, if there is one; the clock moves either way.
    pub fn unregister_topic(self, topic: &Topic) -> (state: Self)
        ensures
            state@ == (PubsubView { decoders: self@.decoders.remove(topic@), ..self@ }).ticked(),
    {
        proof {
            use_type_invariant(&self);
        }
        let ghost before = self@;
        let PubsubState { auth, decoders, recoders, tick } = self;
        let (decoders, _) = decoders.remove(topic);
        proof {
            assert(decoders_view(decoders.map()) =~= before.decoders.remove(topic@));
        }
        PubsubState { auth, decoders, recoders, tick: next_tick(tick) }
    }

    /// Drops the recoder of a topic, if there is one; the clock moves either way.
    pub fn unregister_relay(self, topic: &Topic) -> (state: Self)
        ensures
            state@ == (PubsubView { recoders: self@.recoders.remove(topic@), ..self@ }).ticked(),
    {
        proof {
            use_type_invariant(&self);
        }
        let ghost before = self@;
        let PubsubState { auth, decoders, recoders, tick } = self;
        let (recoders, _) = recoders.remove(topic);
        proof {
            assert(recoders_view(recoders.map()) =~= before.recoders.remove(topic@));
        }
        PubsubState { auth, decoders, recoders, tick: next_tick(tick) }
    }

    /// Drops every decoder that was last touched more than `max_idle_ticks`
    /// ticks ago, and lists their topics in ascending order.
    pub fn evict_idle_topics(self, max_idle_ticks: u64) -> (r: (Self, Vec<Topic>))
        ensures
            r.0@ == (PubsubView {
                decoders: kept(
                    self@.decoders,
                    decoder_activity(self@.decoders),
                    idle_cutoff(self@.tick, max_idle_ticks),
                ),
                ..self@
            }).ticked(),
            r.1@.map_values(|t: Topic| t@) == listing::<Topic>(self@.idle_decoders(max_idle_ticks)),
            lists::<Topic>(
                listing::<Topic>(self@.idle_decoders(max_idle_ticks)),
                self@.idle_decoders(max_idle_ticks),
            ),
    {
        proof {
            use_type_invariant(&self);
        }
        let ghost before = self@;
        let PubsubState { auth, decoders, recoders, tick } = self;
        let limit: u64 = cutoff(tick, max_idle_ticks);
        let ghost d0 = decoders.map();
        let (decoders, evicted) = sweep_idle(decoders, limit);
        proof {
            assert(activity_of(d0) =~= decoder_activity(before.decoders));
            assert(before.decoders.dom() =~= d0.dom());
            assert(swept(d0, activity_of(d0), limit) =~= before.idle_decoders(max_idle_ticks));
            assert(decoders_view(decoders.map()) =~= kept(
                before.decoders,
                activity_of(d0),
                limit,
            ));
        }
        (PubsubState { auth, decoders, recoders, tick: next_tick(tick) }, evicted)
    }

    /// Drops every recoder that was last touched more than `max_idle_ticks`
    /// ticks ago, and lists their topics in ascending order.
    pub fn evict_idle_relays(self, max_idle_ticks: u64) -> (r: (Self, Vec<Topic>))
        ensures
            r.0@ == (PubsubView {
                recoders: kept(
                    self@.recoders,
                    recoder_activity(self@.recoders),
                    idle_cutoff(self@.tick, max_idle_ticks),
                ),
                ..self@
            }).ticked(),
            r.1@.map_values(|t: Topic| t@) == listing::<Topic>(self@.idle_recoders(max_idle_ticks)),
            lists::<Topic>(
                listing::<Topic>(self@.idle_recoders(max_idle_ticks)),
                self@.idle_recoders(max_idle_ticks),
            ),
    {
        proof {
            use_type_invariant(&self);
        }
        let ghost before = self@;
        let PubsubState { auth, decoders, recoders, tick } = self;
        let limit: u64 = cutoff(tick, max_idle_ticks);
        let ghost r0 = recoders.map();
        let (recoders, evicted) = sweep_idle(recoders, limit);
        proof {
            assert(activity_of(r0) =~= recoder_activity(before.recoders));
            assert(before.recoders.dom() =~= r0.dom());
            assert(swept(r0, activity_of(r0), limit) =~= before.idle_recoders(max_idle_ticks));
            assert(recoders_view(recoders.map()) =~= kept(
                before.recoders,
                activity_of(r0),
                limit,
            ));
        }
        (PubsubState { auth, decoders, recoders, tick: next_tick(tick) }, evicted)
    }

    /// The number of decoders.
    pub fn decoder_count(&self) -> (n: usize)
        ensures
            n == self@.decoders.len(),
    {
        assert(self@.decoders.dom() =~= self.decoders.map().dom());
        self.decoders.len()
    }

    /// The number of recoders. None of them stores more pieces than its
    /// generation has.
    pub fn relay_count(&self) -> (n: usize)
        ensures
            n == self@.recoders.len(),
            self@.gated(),
    {
        proof {
            use_type_invariant(self);
        }
        assert(self@.recoders.dom() =~= self.recoders.map().dom());
        self.recoders.len()
    }

    /// Whether a topic has a decoder.
    pub fn is_decoder_registered(&self, topic: &Topic) -> (r: bool)
        ensures
            r == self@.decoders.dom().contains(topic@),
    {
        self.decoders.contains_key(topic)
    }

    /// Whether a topic has a recoder.
    pub fn is_relay_registered(&self, topic: &Topic) -> (r: bool)
        ensures
            r == self@.recoders.dom().contains(topic@),
    {
        self.recoders.contains_key(topic)
    }
}

impl<A: WireAuthenticator> PubsubState<A> {
    /// The state with a decoder put back, its clock at `tick`.
    pub(crate) fn put_decoder(self, topic: Topic, entry: DecoderEntry<A>, tick: u64) -> (state: Self)
        ensures
            state@ == (PubsubView {
                decoders: self@.decoders.insert(topic@, entry@),
                tick,
                ..self@
            }),
    {
        proof {
            use_type_invariant(&self);
        }
        let ghost before = self@;
        let ghost t = topic@;
        let PubsubState { auth, decoders, recoders, .. } = self;
        let decoders = decoders.insert(topic, entry);
        proof {
            assert(decoders_view(decoders.map()) =~= before.decoders.insert(t, entry@));
            assert(before.gated());
            assert(recoders_view(recoders.map()) == before.recoders);
        }
        let state = PubsubState { auth, decoders, recoders, tick };
        state
    }

    /// The state with a recoder put back, its clock at `tick`.
    pub(crate) fn put_recoder(self, topic: Topic, entry: RecoderEntry<A>, tick: u64) -> (state: Self)
        requires
            entry@.gated(),
        ensures
            state@ == (PubsubView {
                recoders: self@.recoders.insert(topic@, entry@),
                tick,
                ..self@
            }),
    {
        proof {
            use_type_invariant(&self);
        }
        let ghost before = self@;
        let ghost t = topic@;
        let PubsubState { auth, decoders, recoders, .. } = self;
        let recoders = recoders.insert(topic, entry);
        proof {
            assert(recoders_view(recoders.map()) =~= before.recoders.insert(t, entry@));
            assert(before.gated());
        }
        let state = PubsubState { auth, decoders, recoders, tick };
        state
    }

    /// The state with its clock at `tick`.
    pub(crate) fn at_tick(self, tick: u64) -> (state: Self)
        ensures
            state@ == (PubsubView { tick, ..self@ }),
    {
        proof {
            use_type_invariant(&self);
        }
        let ghost before = self@;
        let PubsubState { auth, decoders, recoders, .. } = self;
        proof {
            assert(before.gated());
            assert(recoders_view(recoders.map()) == before.recoders);
        }
        let state = PubsubState { auth, decoders, recoders, tick };
        state
    }

    /// Takes out the decoder of a topic.
    pub(crate) fn take_decoder(self, topic: &Topic) -> (r: (Self, Option<DecoderEntry<A>>))
        ensures
            r.0@ == (PubsubView { decoders: self@.decoders.remove(topic@), ..self@ }),
            match r.1 {
                Some(entry) => self@.decoders.dom().contains(topic@) && self@.decoders[topic@]
                    == entry@,
                None => !self@.decoders.dom().contains(topic@),
            },
    {
        proof {
            use_type_invariant(&self);
        }
        let ghost before = self@;
        let PubsubState { auth, decoders, recoders, tick } = self;
        let (decoders, entry) = decoders.remove(topic);
        proof {
            assert(decoders_view(decoders.map()) =~= before.decoders.remove(topic@));
            assert(before.gated());
            assert(recoders_view(recoders.map()) == before.recoders);
        }
        let state = PubsubState { auth, decoders, recoders, tick };
        (state, entry)
    }

    /// Takes out the recoder of a topic.
    pub(crate) fn take_recoder(self, topic: &Topic) -> (r: (Self, Option<RecoderEntry<A>>))
        ensures
            r.0@ == (PubsubView { recoders: self@.recoders.remove(topic@), ..self@ }),
            self@.gated(),
            match r.1 {
                Some(entry) => self@.recoders.dom().contains(topic@) && self@.recoders[topic@]
                    == entry@ && entry@.gated(),
                None => !self@.recoders.dom().contains(topic@),
            },
    {
        proof {
            use_type_invariant(&self);
        }
        let ghost before = self@;
        let PubsubState { auth, decoders, recoders, tick } = self;
        let (recoders, entry) = recoders.remove(topic);
        proof {
            assert(recoders_view(recoders.map()) =~= before.recoders.remove(topic@));
            assert(before.gated());
            if entry is Some {
                assert(before.recoders.dom().contains(topic@));
                assert(before.recoders[topic@] == entry->Some_0@);
            }
        }
        let state = PubsubState { auth, decoders, recoders, tick };
        (state, entry)
    }
}

} // verus!
