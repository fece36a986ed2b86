//! The host itself.
use vstd::prelude::*;
use vstd::slice::slice_subrange;
use vstd::string::StringExecFns;
use crate::activity::{
    activity_of, bounded_insert, cutoff, insert_with_lru, kept, lemma_bounded_insert_map, next_tick,
    sweep_idle, swept, tick_after,
};
use crate::addr::{Outbound, OutboundView, UdpAddr};
use crate::bytes::concat;
use crate::crypto::x25519_public;
use crate::error::{Error, ErrorView};
use crate::host::capacity::{
    Capacity, DEFAULT_MAX_ESTABLISHED, DEFAULT_MAX_HANDSHAKES_IN_FLIGHT,
};
use crate::host::cookie;
use crate::host::event::{HostEvent, HostEventView};
use crate::host::model::{
    bound_peer, is_bound, connection_activity, handshake_activity, HostStepView, HostView,
};
use crate::host::state::{
    ConnectionView, EstablishedConnection, HandshakeState, HandshakeStateView, HandshakeView,
    InFlightHandshake,
};
use crate::identity::keypair::Ed25519Keypair;
use crate::identity::signed_static_key::{SignedStaticKey, SignedStaticKeyView};
use crate::noise::handshake::{
    Initiator, InitiatorAfterE, Responder, ResponderAfterResponse, MESSAGE_1_LEN,
};
use crate::noise::primitives::{StaticKeypair, StaticPublicKey};
use crate::noise::transport::{TransportState, TransportView, TRANSPORT_OVERHEAD};
use crate::ordered_map::{listing, lists, OrderedMap};
use crate::peer_id::{peer_id_bytes, PeerId};
use crate::text::{decimal_text, join3};

verus! {

/// The keys of a host: the static keypair, the identity binding that goes out
/// with every handshake, the peer identifier of that binding, and the secret
/// behind the cookies.
struct HostIdentity {
    static_keypair: StaticKeypair,
    signed_static_key: SignedStaticKey,
    peer_id: PeerId,
    cookie_secret: [u8; 32],
}

/// A host without its socket. Every operation consumes the host and returns the
/// next one.
pub struct Host {
    identity: HostIdentity,
    handshakes: OrderedMap<UdpAddr, InFlightHandshake>,
    established: OrderedMap<UdpAddr, EstablishedConnection>,
    capacity: Capacity,
    tick: u64,
}

/// The meaning of a table of handshakes.
pub open spec fn handshakes_view(map: Map<UdpAddr, InFlightHandshake>) -> Map<
    UdpAddr,
    HandshakeView,
> {
    map.map_values(|h: InFlightHandshake| h@)
}

/// The meaning of a table of connections.
pub open spec fn established_view(map: Map<UdpAddr, EstablishedConnection>) -> Map<
    UdpAddr,
    ConnectionView,
> {
    map.map_values(|c: EstablishedConnection| c@)
}

/// The meaning of an optional datagram.
pub open spec fn outbound_view(outbound: Option<Outbound>) -> Option<OutboundView> {
    match outbound {
        Some(o) => Some(o@),
        None => None,
    }
}

impl View for Host {
    type V = HostView;

    closed spec fn view(&self) -> HostView {
        HostView {
            static_private: self.identity.static_keypair@,
            binding: self.identity.signed_static_key@,
            cookie_secret: self.identity.cookie_secret@,
            handshakes: handshakes_view(self.handshakes.map()),
            established: established_view(self.established.map()),
            max_handshakes: self.capacity.handshakes(),
            max_established: self.capacity.established(),
            tick: self.tick,
        }
    }
}

/// Bounded insertion of a handshake, seen through the views.
proof fn lemma_insert_handshake(
    map: Map<UdpAddr, InFlightHandshake>,
    addr: UdpAddr,
    entry: InFlightHandshake,
    cap: nat,
)
    ensures
        handshakes_view(
            bounded_insert::<UdpAddr, InFlightHandshake>(map, activity_of(map), addr, entry, cap),
        ) == bounded_insert::<UdpAddr, HandshakeView>(
            handshakes_view(map),
            handshake_activity(handshakes_view(map)),
            addr,
            entry@,
            cap,
        ),
{
    assert(activity_of(map) =~= handshake_activity(handshakes_view(map)));
    lemma_bounded_insert_map::<UdpAddr, InFlightHandshake, HandshakeView>(
        map,
        activity_of(map),
        addr,
        entry,
        cap,
        |h: InFlightHandshake| h@,
    );
}

/// Bounded insertion of a connection, seen through the views.
proof fn lemma_insert_connection(
    map: Map<UdpAddr, EstablishedConnection>,
    addr: UdpAddr,
    conn: EstablishedConnection,
    cap: nat,
)
    ensures
        established_view(
            bounded_insert::<UdpAddr, EstablishedConnection>(
                map,
                activity_of(map),
                addr,
                conn,
                cap,
            ),
        ) == bounded_insert::<UdpAddr, ConnectionView>(
            established_view(map),
            connection_activity(established_view(map)),
            addr,
            conn@,
            cap,
        ),
{
    assert(activity_of(map) =~= connection_activity(established_view(map)));
    lemma_bounded_insert_map::<UdpAddr, EstablishedConnection, ConnectionView>(
        map,
        activity_of(map),
        addr,
        conn,
        cap,
        |c: EstablishedConnection| c@,
    );
}

impl Host {
    #[verifier::type_invariant]
    spec fn well_formed(&self) -> bool {
        self@.valid() && self.identity.peer_id@ == self@.peer_id()
    }

    /// A host with the default [`Capacity`].
    pub fn new(
        static_keypair: StaticKeypair,
        identity: &Ed25519Keypair,
        cookie_secret: [u8; 32],
    ) -> (r: Result<Self, Error>)
        ensures
            r matches Ok(host) && host@.valid() && host@ == (HostView {
                static_private: static_keypair@,
                binding: SignedStaticKeyView::of(identity@, x25519_public(static_keypair@)),
                cookie_secret: cookie_secret@,
                handshakes: Map::empty(),
                established: Map::empty(),
                max_handshakes: DEFAULT_MAX_HANDSHAKES_IN_FLIGHT as nat,
                max_established: DEFAULT_MAX_ESTABLISHED as nat,
                tick: 0,
            }),
    {
        Host::with_capacity(static_keypair, identity, cookie_secret, Capacity::default())
    }

    /// A host with explicit bounds. Its binding is signed once, and proves its
    /// identity to a peer unless the signature starts with the neutral element.
    pub fn with_capacity(
        static_keypair: StaticKeypair,
        identity: &Ed25519Keypair,
        cookie_secret: [u8; 32],
        capacity: Capacity,
    ) -> (r: Result<Self, Error>)
        ensures
            r matches Ok(host) && host@.valid() && host@ == (HostView {
                static_private: static_keypair@,
                binding: SignedStaticKeyView::of(identity@, x25519_public(static_keypair@)),
                cookie_secret: cookie_secret@,
                handshakes: Map::empty(),
                established: Map::empty(),
                max_handshakes: capacity.handshakes(),
                max_established: capacity.established(),
                tick: 0,
            }),
    {
        let public = *static_keypair.public();
        let signed_static_key = match SignedStaticKey::create(identity, &public) {
            Ok(signed) => signed,
            Err(e) => {
                return Err(e);
            },
        };
        let peer_id = identity.peer_id();
        let handshakes: OrderedMap<UdpAddr, InFlightHandshake> = OrderedMap::new();
        let established: OrderedMap<UdpAddr, EstablishedConnection> = OrderedMap::new();
        let _ = capacity.max_handshakes_in_flight();
        let _ = capacity.max_established();
        let _ = signed_static_key.public_key().as_bytes();
        let _ = signed_static_key.signature().as_bytes();
        assert(handshakes_view(handshakes.map()) =~= Map::<UdpAddr, HandshakeView>::empty());
        assert(established_view(established.map()) =~= Map::<UdpAddr, ConnectionView>::empty());
        proof {
            crate::identity::signed_static_key::wire_round_trip(signed_static_key@);
        }
        Ok(
            Host {
                identity: HostIdentity { static_keypair, signed_static_key, peer_id, cookie_secret },
                handshakes,
                established,
                capacity,
                tick: 0,
            },
        )
    }

    /// The static public key.
    pub fn static_public(&self) -> (key: &StaticPublicKey)
        ensures
            key@ == x25519_public(self@.static_private),
    {
        self.identity.static_keypair.public()
    }

    /// The peer identifier.
    pub fn peer_id(&self) -> (id: &PeerId)
        ensures
            id@ == self@.peer_id(),
    {
        proof {
            use_type_invariant(self);
        }
        &self.identity.peer_id
    }

    /// The identity binding that goes out with every handshake.
    pub fn signed_static_key(&self) -> (signed: &SignedStaticKey)
        ensures
            signed@ == self@.binding,
    {
        &self.identity.signed_static_key
    }

    /// The bounds of the two tables.
    pub fn capacity(&self) -> (capacity: &Capacity)
        ensures
            capacity.handshakes() == self@.max_handshakes,
            capacity.established() == self@.max_established,
    {
        &self.capacity
    }

    /// The clock: it counts the operations that touched the state.
    pub fn tick(&self) -> (tick: u64)
        ensures
            tick == self@.tick,
    {
        self.tick
    }

    /// The number of handshakes in flight, which never exceeds its bound.
    pub fn handshakes_in_flight(&self) -> (n: usize)
        ensures
            n == self@.handshakes.len(),
            n <= self@.max_handshakes,
            self@.valid(),
    {
        proof {
            use_type_invariant(self);
            assert(handshakes_view(self.handshakes.map()).dom() =~= self.handshakes.map().dom());
        }
        self.handshakes.len()
    }

    /// The number of established connections, which never exceeds its bound.
    pub fn established_connections(&self) -> (n: usize)
        ensures
            n == self@.established.len(),
            n <= self@.max_established,
            self@.valid(),
    {
        proof {
            use_type_invariant(self);
            assert(established_view(self.established.map()).dom() =~= self.established.map().dom());
        }
        self.established.len()
    }

    /// Whether `addr` has an established connection.
    pub fn is_established(&self, addr: UdpAddr) -> (r: bool)
        ensures
            r == self@.established.dom().contains(addr),
    {
        self.established.contains_key(&addr)
    }

    /// The static key of the peer at `addr`, if it is established.
    pub fn remote_static_of(&self, addr: UdpAddr) -> (r: Option<&StaticPublicKey>)
        ensures
            match r {
                Some(key) => self@.established.dom().contains(addr) && key@
                    == self@.established[addr].remote_static,
                None => !self@.established.dom().contains(addr),
            },
    {
        match self.established.get(&addr) {
            Some(conn) => Some(&conn.remote_static),
            None => None,
        }
    }

    /// The identifier of the peer at `addr`, if it is established.
    pub fn remote_peer_id_of(&self, addr: UdpAddr) -> (r: Option<&PeerId>)
        ensures
            match r {
                Some(id) => self@.established.dom().contains(addr) && id@
                    == self@.established[addr].remote_peer_id,
                None => !self@.established.dom().contains(addr),
            },
    {
        match self.established.get(&addr) {
            Some(conn) => Some(&conn.remote_peer_id),
            None => None,
        }
    }

    /// The addresses of the established connections in ascending order.
    pub fn established_addrs(&self) -> (addrs: Vec<UdpAddr>)
        ensures
            addrs@ == listing::<UdpAddr>(self@.established.dom()),
            lists::<UdpAddr>(addrs@, self@.established.dom()),
            addrs@.len() == self@.established.len(),
    {
        let addrs = self.established.keys();
        assert(addrs@.map_values(|k: UdpAddr| k@) =~= addrs@);
        assert(established_view(self.established.map()).dom() =~= self.established.map().dom());
        addrs
    }
}

/// The host made of its parts.
fn rebuild_host(
    identity: HostIdentity,
    handshakes: OrderedMap<UdpAddr, InFlightHandshake>,
    established: OrderedMap<UdpAddr, EstablishedConnection>,
    capacity: Capacity,
    tick: u64,
) -> (host: Host)
    requires
        parts_view(identity, handshakes.map(), established.map(), capacity, tick).valid(),
        identity.peer_id@ == peer_id_bytes(identity.signed_static_key@.public_key),
    ensures
        host@ == parts_view(identity, handshakes.map(), established.map(), capacity, tick),
{
    Host { identity, handshakes, established, capacity, tick }
}

/// The meaning of a host made of parts.
spec fn parts_view(
    identity: HostIdentity,
    handshakes: Map<UdpAddr, InFlightHandshake>,
    established: Map<UdpAddr, EstablishedConnection>,
    capacity: Capacity,
    tick: u64,
) -> HostView {
    HostView {
        static_private: identity.static_keypair@,
        binding: identity.signed_static_key@,
        cookie_secret: identity.cookie_secret@,
        handshakes: handshakes_view(handshakes),
        established: established_view(established),
        max_handshakes: capacity.handshakes(),
        max_established: capacity.established(),
        tick,
    }
}

/// Checks that a handshake trailer binds an identity to the static key that the
/// handshake authenticated, and hands out the peer identifier.
fn verify_binding(payload: &[u8], remote_static: &StaticPublicKey) -> (r: Result<PeerId, Error>)
    ensures
        match r {
            Ok(id) => bound_peer(payload@, remote_static@) == Ok::<Seq<u8>, ErrorView>(id@),
            Err(e) => bound_peer(payload@, remote_static@) == Err::<Seq<u8>, ErrorView>(e@),
        },
{
    match SignedStaticKey::from_bytes(payload) {
        Err(e) => Err(e),
        Ok(signed) => match signed.verify(remote_static) {
            Err(e) => Err(e),
            Ok((_, peer_id)) => Ok(peer_id),
        },
    }
}

impl Host {
    /// Begins a handshake with the peer at `addr`. The returned datagram is the
    /// first message. An address that the host knows already is refused.
    pub fn dial(self, addr: UdpAddr, ephemeral_seed: [u8; 32]) -> (r: Result<
        (Self, Outbound),
        Error,
    >)
        ensures
            match r {
                Ok((host, outbound)) => {
                    &&& self@.dial_error(addr) is None
                    &&& host@ == self@.dialed(addr, ephemeral_seed@)
                    &&& host@.valid()
                    &&& outbound@ == (OutboundView {
                        addr,
                        datagram: self@.dial_message(ephemeral_seed@),
                    })
                    &&& outbound@.datagram.len() == MESSAGE_1_LEN
                },
                Err(e) => self@.dial_error(addr) == Some(e@),
            },
    {
        proof {
            use_type_invariant(&self);
        }
        if self.handshakes.contains_key(&addr) || self.established.contains_key(&addr) {
            let text = addr.describe();
            return Err(
                Error::HostState {
                    reason: join3("dial: address ", text.as_str(), " already known to host"),
                },
            );
        }
        let ghost before = self@;
        let Host { identity, handshakes, established, capacity, tick } = self;
        let initiator = Initiator::new(identity.static_keypair.clone());
        match initiator.write_e(ephemeral_seed) {
            Err(e) => Err(e),
            Ok((after_e, msg1)) => {
                let datagram = concat(msg1.as_slice(), &[]);
                assert(datagram@ =~= msg1@);
                let tick = next_tick(tick);
                let entry = InFlightHandshake {
                    state: HandshakeState::InitiatorAwaitingResponse { after_e, msg1 },
                    last_activity: tick,
                };
                let cap: usize = capacity.max_handshakes_in_flight();
                proof {
                    lemma_insert_handshake(handshakes.map(), addr, entry, cap as nat);
                    assert(handshakes_view(handshakes.map()).dom() =~= handshakes.map().dom());
                }
                let handshakes = insert_with_lru(handshakes, addr, entry, cap);
                proof {
                    assert(handshakes_view(handshakes.map()).dom() =~= handshakes.map().dom());
                }
                let host = rebuild_host(identity, handshakes, established, capacity, tick);
                Ok((host, Outbound { addr, datagram }))
            },
        }
    }

    /// Encrypts `plaintext` for the established peer at `addr`. The other end of
    /// the session receives exactly the plaintext, if it still takes the nonce,
    /// and the host there delivers it.
    pub fn send(self, addr: UdpAddr, plaintext: &[u8]) -> (r: Result<(Self, Outbound), Error>)
        ensures
            match r {
                Ok((host, outbound)) => {
                    &&& self@.send_error(addr, plaintext@) is None
                    &&& host@ == self@.sent(addr)
                    &&& host@.valid()
                    &&& outbound@ == self@.send_datagram(addr, plaintext@)
                    &&& outbound@.datagram.len() == plaintext@.len() + TRANSPORT_OVERHEAD
                    &&& forall|end: TransportView| #[trigger]
                        end.mirrors(self@.established[addr].transport) && end.takes(
                            self@.established[addr].transport.send_nonce,
                        ) ==> end.received(outbound@.datagram) == Ok::<Seq<u8>, ErrorView>(
                            plaintext@,
                        )
                    &&& forall|peer: HostView, from: UdpAddr, seed: Seq<u8>|
                        peer.hears(from, self@, addr) ==> (#[trigger] peer.step(
                            from,
                            outbound@.datagram,
                            seed,
                        )).event == (HostEventView::DatagramDelivered {
                            addr: from,
                            plaintext: plaintext@,
                        })
                },
                Err(e) => self@.send_error(addr, plaintext@) == Some(e@),
            },
    {
        proof {
            use_type_invariant(&self);
        }
        let ghost before = self@;
        let Host { identity, handshakes, established, capacity, tick } = self;
        let ghost all = established.map();
        let (rest, conn) = established.remove(&addr);
        match conn {
            None => {
                let text = addr.describe();
                Err(
                    Error::HostState {
                        reason: "send: no established connection for ".to_owned().concat(
                            text.as_str(),
                        ),
                    },
                )
            },
            Some(conn) => {
                match conn.transport.encrypt(plaintext) {
                    Err(e) => Err(e),
                    Ok((transport, datagram)) => {
                        let tick = next_tick(tick);
                        let next = EstablishedConnection {
                            transport,
                            remote_static: conn.remote_static,
                            remote_peer_id: conn.remote_peer_id,
                            last_activity: tick,
                        };
                        let established = rest.insert(addr, next);
                        proof {
                            assert(established_view(established.map()) =~= before.established.insert(
                                addr,
                                next@,
                            ));
                            assert(established_view(established.map()).dom()
                                =~= before.established.dom());
                        }
                        let host = rebuild_host(identity, handshakes, established, capacity, tick);
                        Ok((host, Outbound { addr, datagram }))
                    },
                }
            },
        }
    }

    /// Sends `bytes` to `addr` as they are: no connection is touched, the clock
    /// alone moves.
    pub fn send_raw(self, addr: UdpAddr, bytes: Vec<u8>) -> (r: (Self, Outbound))
        ensures
            r.0@ == self@.ticked(),
            r.1@ == (OutboundView { addr, datagram: bytes@ }),
    {
        proof {
            use_type_invariant(&self);
        }
        let Host { identity, handshakes, established, capacity, tick } = self;
        let host = rebuild_host(identity, handshakes, established, capacity, next_tick(tick));
        (host, Outbound { addr, datagram: bytes })
    }

    /// Drops all state for `addr`.
    pub fn evict(self, addr: UdpAddr) -> (host: Self)
        ensures
            host@ == self@.evicted(addr),
            host@.valid(),
    {
        proof {
            use_type_invariant(&self);
        }
        let ghost before = self@;
        let Host { identity, handshakes, established, capacity, tick } = self;
        let (handshakes, _) = handshakes.remove(&addr);
        let (established, _) = established.remove(&addr);
        proof {
            assert(handshakes_view(handshakes.map()) =~= before.handshakes.remove(addr));
            assert(established_view(established.map()) =~= before.established.remove(addr));
        }
        rebuild_host(identity, handshakes, established, capacity, tick)
    }

    /// Drops every entry that was last touched more than `max_idle_ticks` ticks
    /// ago. Lists the addresses: handshakes first, then connections, each in
    /// ascending order.
    pub fn evict_idle(self, max_idle_ticks: u64) -> (r: (Self, Vec<UdpAddr>))
        ensures
            r.0@ == self@.without_idle(max_idle_ticks),
            r.0@.valid(),
            r.1@ == listing::<UdpAddr>(self@.idle_handshakes(max_idle_ticks)) + listing::<UdpAddr>(
                self@.idle_connections(max_idle_ticks),
            ),
            lists::<UdpAddr>(
                listing::<UdpAddr>(self@.idle_handshakes(max_idle_ticks)),
                self@.idle_handshakes(max_idle_ticks),
            ),
            lists::<UdpAddr>(
                listing::<UdpAddr>(self@.idle_connections(max_idle_ticks)),
                self@.idle_connections(max_idle_ticks),
            ),
    {
        proof {
            use_type_invariant(&self);
        }
        let ghost before = self@;
        let Host { identity, handshakes, established, capacity, tick } = self;
        let limit: u64 = cutoff(tick, max_idle_ticks);
        let ghost h0 = handshakes.map();
        let ghost e0 = established.map();
        let (handshakes, mut evicted) = sweep_idle(handshakes, limit);
        let (established, mut evicted_e) = sweep_idle(established, limit);
        let ghost h = evicted@;
        let ghost c = evicted_e@;
        evicted.append(&mut evicted_e);
        proof {
            assert(activity_of(h0) =~= handshake_activity(before.handshakes));
            assert(activity_of(e0) =~= connection_activity(before.established));
            assert(h.map_values(|k: UdpAddr| k@) =~= h);
            assert(c.map_values(|k: UdpAddr| k@) =~= c);
            assert(before.handshakes.dom() =~= h0.dom());
            assert(before.established.dom() =~= e0.dom());
            assert(swept(h0, activity_of(h0), limit) =~= before.idle_handshakes(max_idle_ticks));
            assert(swept(e0, activity_of(e0), limit) =~= before.idle_connections(max_idle_ticks));
            assert(evicted@ =~= h + c);
            let hv = handshakes_view(handshakes.map());
            let ev = established_view(established.map());
            assert(hv =~= kept(before.handshakes, activity_of(h0), limit));
            assert(ev =~= kept(before.established, activity_of(e0), limit));
            assert(hv.dom().subset_of(before.handshakes.dom()));
            assert(ev.dom().subset_of(before.established.dom()));
            vstd::set_lib::lemma_len_subset(hv.dom(), before.handshakes.dom());
            vstd::set_lib::lemma_len_subset(ev.dom(), before.established.dom());
        }
        let host = rebuild_host(identity, handshakes, established, capacity, tick);
        (host, evicted)
    }
}

impl Host {
    /// Processes one datagram that arrived from `from`: hands out the next host,
    /// what happened, and the datagram to send, if any.
    ///
    /// `ephemeral_seed` is used only to answer a first message whose cookie
    /// verifies. A challenge has its fixed shape, and the messages that a step
    /// writes are readable for the side that they answer. No datagram is an error: trouble with a peer is an event, and
    /// neither a failed decryption nor a failed handshake step loses state.
    pub fn recv_one(self, from: UdpAddr, datagram: &[u8], ephemeral_seed: [u8; 32]) -> (r: (
        Self,
        HostEvent,
        Option<Outbound>,
    ))
        ensures
            (HostStepView { host: r.0@, event: r.1@, outbound: outbound_view(r.2) }) == self@.step(
                from,
                datagram@,
                ephemeral_seed@,
            ),
            r.0@.valid(),
            !self@.knows(from) && datagram@.len() == MESSAGE_1_LEN ==> cookie::challenge_shaped(
                cookie::challenge_bytes(self@.cookie_secret, from, datagram@),
            ),
            !self@.knows(from) && datagram@.len() == cookie::MSG1_WITH_COOKIE_LEN && r.2 is Some
                ==> self@.msg2_readable(datagram@.subrange(0, 32), ephemeral_seed@),
            !self@.established.dom().contains(from) && self@.handshakes.dom().contains(from) ==> (
            match self@.handshakes[from].state {
                HandshakeStateView::Initiator { after_e, msg1 } => !cookie::challenge_shaped(
                    datagram@,
                ) && r.2 is Some ==> self@.msg3_readable(
                    after_e.read_response(datagram@)->Ok_0.0,
                ),
                HandshakeStateView::Responder(_) => true,
            }),
    {
        proof {
            use_type_invariant(&self);
        }
        let ghost before = self@;
        let Host { identity, handshakes, established, capacity, tick } = self;
        let (established, conn) = established.remove(&from);
        if let Some(conn) = conn {
            proof {
                assert(established_view(established.map()) =~= before.established.remove(from));
            }
            let rest = rebuild_host(identity, handshakes, established, capacity, tick);
            let r = rest.decrypt_established(from, conn, datagram);
            proof {
                assert(before.established.remove(from).insert(from, conn@) =~= before.established);
            }
            return r;
        }
        proof {
            assert(established_view(established.map()) =~= before.established);
        }
        let (handshakes, entry) = handshakes.remove(&from);
        if let Some(entry) = entry {
            proof {
                assert(handshakes_view(handshakes.map()) =~= before.handshakes.remove(from));
            }
            let rest = rebuild_host(identity, handshakes, established, capacity, tick);
            let r = rest.advance_in_flight(from, entry, datagram);
            proof {
                assert(before.handshakes.remove(from).insert(from, entry@) =~= before.handshakes);
            }
            return r;
        }
        proof {
            assert(handshakes_view(handshakes.map()) =~= before.handshakes);
        }
        let rest = rebuild_host(identity, handshakes, established, capacity, tick);
        rest.try_responder_msg1(from, datagram, ephemeral_seed)
    }

    /// A datagram from the established peer at `from`, whose connection has been
    /// taken out of the table.
    fn decrypt_established(
        self,
        from: UdpAddr,
        conn: EstablishedConnection,
        datagram: &[u8],
    ) -> (r: (Self, HostEvent, Option<Outbound>))
        requires
            !self@.knows(from),
            self@.established.len() < self@.max_established,
            is_bound(conn@.remote_static, conn@.remote_peer_id),
        ensures
            (HostStepView { host: r.0@, event: r.1@, outbound: outbound_view(r.2) }) == (HostView {
                established: self@.established.insert(from, conn@),
                ..self@
            }).step_established(from, datagram@),
            r.0@.valid(),
    {
        proof {
            use_type_invariant(&self);
        }
        let ghost rest = self@;
        let Host { identity, handshakes, established, capacity, tick } = self;
        let (transport, outcome) = conn.transport.decrypt(datagram);
        let (activity, host_tick, event) = match outcome {
            Err(e) => {
                let text = e.describe();
                let reason = join3(
                    "transport decrypt failed: ",
                    text.as_str(),
                    "; datagram dropped, connection kept",
                );
                (conn.last_activity, tick, HostEvent::Rejected { addr: from, reason })
            },
            Ok(plaintext) => {
                let next = next_tick(tick);
                (next, next, HostEvent::DatagramDelivered { addr: from, plaintext })
            },
        };
        let next = EstablishedConnection {
            transport,
            remote_static: conn.remote_static,
            remote_peer_id: conn.remote_peer_id,
            last_activity: activity,
        };
        let established = established.insert(from, next);
        proof {
            assert(established_view(established.map()) =~= rest.established.insert(from, next@));
            assert(rest.established.insert(from, conn@).insert(from, next@)
                =~= rest.established.insert(from, next@));
        }
        let host = rebuild_host(identity, handshakes, established, capacity, host_tick);
        (host, event, None)
    }

    /// The host with a handshake put back into its table.
    fn keep_handshake(self, from: UdpAddr, entry: InFlightHandshake, tick: u64) -> (host: Self)
        requires
            !self@.knows(from),
            self@.handshakes.len() < self@.max_handshakes,
        ensures
            host@ == (HostView {
                handshakes: self@.handshakes.insert(from, entry@),
                tick,
                ..self@
            }),
            host@.valid(),
    {
        proof {
            use_type_invariant(&self);
        }
        let ghost rest = self@;
        let Host { identity, handshakes, established, capacity, .. } = self;
        let handshakes = handshakes.insert(from, entry);
        proof {
            assert(handshakes_view(handshakes.map()) =~= rest.handshakes.insert(from, entry@));
        }
        rebuild_host(identity, handshakes, established, capacity, tick)
    }

    /// The host with a fresh connection, its clock one tick on.
    fn establish(
        self,
        from: UdpAddr,
        transport: TransportState,
        remote_static: StaticPublicKey,
        remote_peer_id: PeerId,
    ) -> (host: Self)
        requires
            !self@.knows(from),
            is_bound(remote_static@, remote_peer_id@),
        ensures
            host@ == self@.with_connection(
                from,
                ConnectionView {
                    transport: transport@,
                    remote_static: remote_static@,
                    remote_peer_id: remote_peer_id@,
                    last_activity: tick_after(self@.tick),
                },
            ).ticked(),
            host@.valid(),
    {
        proof {
            use_type_invariant(&self);
        }
        let ghost rest = self@;
        let Host { identity, handshakes, established, capacity, tick } = self;
        let tick = next_tick(tick);
        let conn = EstablishedConnection {
            transport,
            remote_static,
            remote_peer_id,
            last_activity: tick,
        };
        let cap: usize = capacity.max_established();
        proof {
            lemma_insert_connection(established.map(), from, conn, cap as nat);
            assert(established_view(established.map()).dom() =~= established.map().dom());
        }
        let established = insert_with_lru(established, from, conn, cap);
        proof {
            assert(established_view(established.map()).dom() =~= established.map().dom());
            assert(rest.handshakes.remove(from) =~= rest.handshakes);
        }
        rebuild_host(identity, handshakes, established, capacity, tick)
    }

    /// A datagram for the handshake with `from`, which has been taken out of the
    /// table.
    fn advance_in_flight(
        self,
        from: UdpAddr,
        entry: InFlightHandshake,
        datagram: &[u8],
    ) -> (r: (Self, HostEvent, Option<Outbound>))
        requires
            !self@.knows(from),
            self@.handshakes.len() < self@.max_handshakes,
        ensures
            (HostStepView { host: r.0@, event: r.1@, outbound: outbound_view(r.2) }) == ({
                let before = HostView {
                    handshakes: self@.handshakes.insert(from, entry@),
                    ..self@
                };
                match entry@.state {
                    HandshakeStateView::Initiator { after_e, msg1 } => if cookie::challenge_shaped(
                        datagram@,
                    ) {
                        before.step_challenge(from, msg1, datagram@)
                    } else {
                        before.step_msg2(from, after_e, datagram@)
                    },
                    HandshakeStateView::Responder(after_resp) => before.step_msg3(
                        from,
                        after_resp,
                        datagram@,
                    ),
                }
            }),
            r.0@.valid(),
            match entry@.state {
                HandshakeStateView::Initiator { after_e, msg1 } => !cookie::challenge_shaped(
                    datagram@,
                ) && r.2 is Some ==> self@.msg3_readable(
                    after_e.read_response(datagram@)->Ok_0.0,
                ),
                HandshakeStateView::Responder(_) => true,
            },
    {
        let InFlightHandshake { state, last_activity } = entry;
        match state {
            HandshakeState::InitiatorAwaitingResponse { after_e, msg1 } => {
                if cookie::is_challenge(datagram) {
                    self.answer_cookie_challenge(from, after_e, msg1, last_activity, datagram)
                } else {
                    self.initiator_consume_msg2(from, after_e, msg1, last_activity, datagram)
                }
            },
            HandshakeState::ResponderAwaitingFinalize(after_resp) => {
                self.responder_consume_msg3(from, after_resp, last_activity, datagram)
            },
        }
    }

    /// Answers a cookie challenge with the first message and the cookie.
    fn answer_cookie_challenge(
        self,
        from: UdpAddr,
        after_e: InitiatorAfterE,
        msg1: Vec<u8>,
        last_activity: u64,
        datagram: &[u8],
    ) -> (r: (Self, HostEvent, Option<Outbound>))
        requires
            !self@.knows(from),
            self@.handshakes.len() < self@.max_handshakes,
            cookie::challenge_shaped(datagram@),
        ensures
            (HostStepView { host: r.0@, event: r.1@, outbound: outbound_view(r.2) }) == (HostView {
                handshakes: self@.handshakes.insert(
                    from,
                    HandshakeView {
                        state: HandshakeStateView::Initiator { after_e: after_e@, msg1: msg1@ },
                        last_activity,
                    },
                ),
                ..self@
            }).step_challenge(from, msg1@, datagram@),
            r.0@.valid(),
    {
        let mac = slice_subrange(datagram, 1, datagram.len());
        let reply = concat(msg1.as_slice(), mac);
        let entry = InFlightHandshake {
            state: HandshakeState::InitiatorAwaitingResponse { after_e, msg1 },
            last_activity,
        };
        let tick: u64 = self.tick;
        let host = self.keep_handshake(from, entry, tick);
        (
            host,
            HostEvent::HandshakeProgress { addr: from },
            Some(Outbound { addr: from, datagram: reply }),
        )
    }

    /// Reads a second message; answers with the third, or keeps the handshake.
    fn initiator_consume_msg2(
        self,
        from: UdpAddr,
        after_e: InitiatorAfterE,
        msg1: Vec<u8>,
        last_activity: u64,
        datagram: &[u8],
    ) -> (r: (Self, HostEvent, Option<Outbound>))
        requires
            !self@.knows(from),
            self@.handshakes.len() < self@.max_handshakes,
        ensures
            (HostStepView { host: r.0@, event: r.1@, outbound: outbound_view(r.2) }) == (HostView {
                handshakes: self@.handshakes.insert(
                    from,
                    HandshakeView {
                        state: HandshakeStateView::Initiator { after_e: after_e@, msg1: msg1@ },
                        last_activity,
                    },
                ),
                ..self@
            }).step_msg2(from, after_e@, datagram@),
            r.0@.valid(),
            r.2 is Some ==> self@.msg3_readable(after_e@.read_response(datagram@)->Ok_0.0),
    {
        proof {
            use_type_invariant(&self);
        }
        let ghost rest = self@;
        let retained = after_e.clone();
        let trailer = self.identity.signed_static_key.to_bytes();
        let result = match after_e.read_response(datagram) {
            Err(e) => Err(e),
            Ok((after_resp, payload)) => match verify_binding(
                payload.as_slice(),
                after_resp.remote_static(),
            ) {
                Err(e) => Err(e),
                Ok(peer_id) => match after_resp.write_s(trailer.as_slice()) {
                    Err(e) => Err(e),
                    Ok((transport, msg3, remote_static)) => Ok(
                        (transport, msg3, remote_static, peer_id),
                    ),
                },
            },
        };
        match result {
            Ok((transport, msg3, remote_static, peer_id)) => {
                let host = self.establish(from, transport, remote_static, peer_id);
                proof {
                    let entry = HandshakeView {
                        state: HandshakeStateView::Initiator { after_e: after_e@, msg1: msg1@ },
                        last_activity,
                    };
                    assert(rest.handshakes.insert(from, entry).remove(from)
                        =~= rest.handshakes.remove(from));
                }
                (
                    host,
                    HostEvent::HandshakeComplete {
                        addr: from,
                        remote_static,
                        remote_peer_id: peer_id,
                    },
                    Some(Outbound { addr: from, datagram: msg3 }),
                )
            },
            Err(e) => {
                let entry = InFlightHandshake {
                    state: HandshakeState::InitiatorAwaitingResponse { after_e: retained, msg1 },
                    last_activity,
                };
                let tick = next_tick(self.tick);
                let host = self.keep_handshake(from, entry, tick);
                let text = e.describe();
                let reason = join3(
                    "initiator: failed to advance on msg2: ",
                    text.as_str(),
                    "; handshake kept",
                );
                (host, HostEvent::Rejected { addr: from, reason }, None)
            },
        }
    }

    /// Reads a third message; establishes the connection, or keeps the
    /// handshake.
    fn responder_consume_msg3(
        self,
        from: UdpAddr,
        after_resp: ResponderAfterResponse,
        last_activity: u64,
        datagram: &[u8],
    ) -> (r: (Self, HostEvent, Option<Outbound>))
        requires
            !self@.knows(from),
            self@.handshakes.len() < self@.max_handshakes,
        ensures
            (HostStepView { host: r.0@, event: r.1@, outbound: outbound_view(r.2) }) == (HostView {
                handshakes: self@.handshakes.insert(
                    from,
                    HandshakeView {
                        state: HandshakeStateView::Responder(after_resp@),
                        last_activity,
                    },
                ),
                ..self@
            }).step_msg3(from, after_resp@, datagram@),
            r.0@.valid(),
    {
        proof {
            use_type_invariant(&self);
        }
        let ghost rest = self@;
        let retained = after_resp.clone();
        let outcome = match after_resp.read_s(datagram) {
            Err(e) => Err(e),
            Ok((transport, remote_static, payload)) => match verify_binding(
                payload.as_slice(),
                &remote_static,
            ) {
                Err(e) => Err(e),
                Ok(peer_id) => Ok((transport, remote_static, peer_id)),
            },
        };
        match outcome {
            Ok((transport, remote_static, peer_id)) => {
                let host = self.establish(from, transport, remote_static, peer_id);
                proof {
                    let entry = HandshakeView {
                        state: HandshakeStateView::Responder(after_resp@),
                        last_activity,
                    };
                    assert(rest.handshakes.insert(from, entry).remove(from)
                        =~= rest.handshakes.remove(from));
                }
                (
                    host,
                    HostEvent::HandshakeComplete {
                        addr: from,
                        remote_static,
                        remote_peer_id: peer_id,
                    },
                    None,
                )
            },
            Err(e) => {
                let entry = InFlightHandshake {
                    state: HandshakeState::ResponderAwaitingFinalize(retained),
                    last_activity,
                };
                let tick = next_tick(self.tick);
                let host = self.keep_handshake(from, entry, tick);
                let text = e.describe();
                let reason = join3(
                    "responder: failed to finalize on msg3: ",
                    text.as_str(),
                    "; handshake kept",
                );
                (host, HostEvent::Rejected { addr: from, reason }, None)
            },
        }
    }

    /// The host with its clock one tick on.
    fn touch(self) -> (host: Self)
        ensures
            host@ == self@.ticked(),
            host@.valid(),
    {
        proof {
            use_type_invariant(&self);
        }
        let Host { identity, handshakes, established, capacity, tick } = self;
        rebuild_host(identity, handshakes, established, capacity, next_tick(tick))
    }

    /// A datagram from an address that the host does not know.
    fn try_responder_msg1(
        self,
        from: UdpAddr,
        datagram: &[u8],
        ephemeral_seed: [u8; 32],
    ) -> (r: (Self, HostEvent, Option<Outbound>))
        requires
            !self@.knows(from),
        ensures
            (HostStepView { host: r.0@, event: r.1@, outbound: outbound_view(r.2) })
                == self@.step_new(from, datagram@, ephemeral_seed@),
            r.0@.valid(),
            datagram@.len() == MESSAGE_1_LEN ==> cookie::challenge_shaped(
                cookie::challenge_bytes(self@.cookie_secret, from, datagram@),
            ),
            datagram@.len() == cookie::MSG1_WITH_COOKIE_LEN && r.2 is Some ==> self@.msg2_readable(
                datagram@.subrange(0, 32),
                ephemeral_seed@,
            ),
    {
        let n: usize = datagram.len();
        if n == MESSAGE_1_LEN {
            let reply = cookie::challenge(&self.identity.cookie_secret, from, datagram);
            let host = self.touch();
            (
                host,
                HostEvent::HandshakeProgress { addr: from },
                Some(Outbound { addr: from, datagram: reply }),
            )
        } else if n == cookie::MSG1_WITH_COOKIE_LEN {
            let e_bytes = slice_subrange(datagram, 0, MESSAGE_1_LEN);
            let mac = slice_subrange(datagram, MESSAGE_1_LEN, n);
            if cookie::verify(&self.identity.cookie_secret, from, e_bytes, mac) {
                self.respond_to_validated_msg1(from, e_bytes, ephemeral_seed)
            } else {
                let host = self.touch();
                (
                    host,
                    HostEvent::Rejected {
                        addr: from,
                        reason: "msg1 cookie failed verification".to_owned(),
                    },
                    None,
                )
            }
        } else {
            let count = decimal_text(n as u64);
            let reason = join3(
                "datagram from new peer is neither a 32-byte bare msg1 nor a 48-byte msg1-with-cookie: ",
                count.as_str(),
                " bytes",
            );
            let host = self.touch();
            (host, HostEvent::Rejected { addr: from, reason }, None)
        }
    }

    /// Answers a first message whose source is proven.
    fn respond_to_validated_msg1(
        self,
        from: UdpAddr,
        e_bytes: &[u8],
        ephemeral_seed: [u8; 32],
    ) -> (r: (Self, HostEvent, Option<Outbound>))
        requires
            !self@.knows(from),
            e_bytes@.len() == MESSAGE_1_LEN,
        ensures
            (HostStepView { host: r.0@, event: r.1@, outbound: outbound_view(r.2) })
                == self@.step_validated_msg1(from, e_bytes@, ephemeral_seed@),
            r.0@.valid(),
            self@.msg2_readable(e_bytes@, ephemeral_seed@),
    {
        proof {
            use_type_invariant(&self);
        }
        let ghost before = self@;
        let responder = Responder::new(self.identity.static_keypair.clone());
        let trailer = self.identity.signed_static_key.to_bytes();
        let answer = match responder.read_e(e_bytes) {
            Err(e) => Err(e),
            Ok(after_e) => after_e.write_response(ephemeral_seed, trailer.as_slice()),
        };
        match answer {
            Ok((after_resp, msg2)) => {
                let Host { identity, handshakes, established, capacity, tick } = self;
                let tick = next_tick(tick);
                let entry = InFlightHandshake {
                    state: HandshakeState::ResponderAwaitingFinalize(after_resp),
                    last_activity: tick,
                };
                let cap: usize = capacity.max_handshakes_in_flight();
                proof {
                    lemma_insert_handshake(handshakes.map(), from, entry, cap as nat);
                    assert(handshakes_view(handshakes.map()).dom() =~= handshakes.map().dom());
                }
                let handshakes = insert_with_lru(handshakes, from, entry, cap);
                proof {
                    assert(handshakes_view(handshakes.map()).dom() =~= handshakes.map().dom());
                }
                let host = rebuild_host(identity, handshakes, established, capacity, tick);
                (
                    host,
                    HostEvent::HandshakeProgress { addr: from },
                    Some(Outbound { addr: from, datagram: msg2 }),
                )
            },
            Err(e) => {
                let text = e.describe();
                let reason = "responder: failed to start handshake: ".to_owned().concat(
                    text.as_str(),
                );
                let host = self.touch();
                (host, HostEvent::Rejected { addr: from, reason }, None)
            },
        }
    }
}

} // verus!
