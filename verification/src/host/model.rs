//! The meaning of a host and of its steps.
use vstd::prelude::*;
use crate::activity::{bounded_insert, idle_cutoff, kept, swept, tick_after};
use crate::addr::{addr_text, OutboundView, UdpAddr};
use crate::crypto::{ed25519_is_neutral, x25519_public};
use crate::error::ErrorView;
use crate::host::cookie::{challenge_bytes, challenge_shaped, cookie, MSG1_WITH_COOKIE_LEN};
use crate::host::event::HostEventView;
use crate::host::state::{ConnectionView, HandshakeStateView, HandshakeView};
use crate::identity::signed_static_key::SignedStaticKeyView;
use crate::noise::handshake::{
    read_e_spec, write_e_spec, InitiatorAfterEView, InitiatorAfterResponseView,
    ResponderAfterResponseView, MESSAGE_1_LEN,
};
use crate::peer_id::peer_id_bytes;
use crate::text::decimal;

verus! {

/// A host: its keys, its two tables with their bounds, and its clock.
pub struct HostView {
    /// The static private key.
    pub static_private: Seq<u8>,
    /// The identity binding that goes out with every handshake.
    pub binding: SignedStaticKeyView,
    pub cookie_secret: Seq<u8>,
    pub handshakes: Map<UdpAddr, HandshakeView>,
    pub established: Map<UdpAddr, ConnectionView>,
    pub max_handshakes: nat,
    pub max_established: nat,
    pub tick: u64,
}

/// A step of a host: its next state, what happened, and the datagram to send.
pub struct HostStepView {
    pub host: HostView,
    pub event: HostEventView,
    pub outbound: Option<OutboundView>,
}

/// The peer that a handshake trailer binds to a static key.
pub open spec fn bound_peer(payload: Seq<u8>, remote_static: Seq<u8>) -> Result<Seq<u8>, ErrorView> {
    match SignedStaticKeyView::parse(payload) {
        Err(e) => Err(e),
        Ok(binding) => match binding.verify_error(remote_static) {
            Some(e) => Err(e),
            None => Ok(peer_id_bytes(binding.public_key)),
        },
    }
}

/// Whether some binding proves that a peer owns a static key.
pub open spec fn is_bound(remote_static: Seq<u8>, peer_id: Seq<u8>) -> bool {
    exists|payload: Seq<u8>| #[trigger] bound_peer(payload, remote_static) == Ok::<
        Seq<u8>,
        ErrorView,
    >(peer_id)
}

/// When each handshake was last touched.
pub open spec fn handshake_activity(handshakes: Map<UdpAddr, HandshakeView>) -> Map<UdpAddr, u64> {
    handshakes.map_values(|h: HandshakeView| h.last_activity)
}

/// When each connection was last touched.
pub open spec fn connection_activity(established: Map<UdpAddr, ConnectionView>) -> Map<
    UdpAddr,
    u64,
> {
    established.map_values(|c: ConnectionView| c.last_activity)
}

impl HostView {
    /// Both tables are within their bounds, no address is in both, the binding
    /// proves the host's identity (unless its signature starts with the neutral
    /// element of the curve), and every established peer has proven its own.
    pub open spec fn valid(self) -> bool {
        &&& self.handshakes.dom().finite()
        &&& self.established.dom().finite()
        &&& self.handshakes.len() <= self.max_handshakes
        &&& self.established.len() <= self.max_established
        &&& self.max_handshakes >= 1
        &&& self.max_established >= 1
        &&& forall|a: UdpAddr|
            !(#[trigger] self.handshakes.dom().contains(a) && self.established.dom().contains(a))
        &&& self.binding.public_key.len() == 32
        &&& self.binding.signature.len() == 64
        &&& !ed25519_is_neutral(self.binding.signature.take(32)) ==> bound_peer(
            self.binding.wire(),
            x25519_public(self.static_private),
        ) == Ok::<Seq<u8>, ErrorView>(self.peer_id())
        &&& forall|a: UdpAddr| #[trigger]
            self.established.dom().contains(a) ==> is_bound(
                self.established[a].remote_static,
                self.established[a].remote_peer_id,
            )
    }

    /// The host's peer identifier.
    pub open spec fn peer_id(self) -> Seq<u8> {
        peer_id_bytes(self.binding.public_key)
    }

    /// Whether the host has any state for an address.
    pub open spec fn knows(self, addr: UdpAddr) -> bool {
        self.handshakes.dom().contains(addr) || self.established.dom().contains(addr)
    }

    /// The host with its clock one tick on.
    pub open spec fn ticked(self) -> HostView {
        HostView { tick: tick_after(self.tick), ..self }
    }

    /// The host with a handshake put into its table.
    pub open spec fn with_handshake(self, addr: UdpAddr, entry: HandshakeView) -> HostView {
        HostView {
            handshakes: bounded_insert::<UdpAddr, HandshakeView>(
                self.handshakes,
                handshake_activity(self.handshakes),
                addr,
                entry,
                self.max_handshakes,
            ),
            ..self
        }
    }

    /// The host once the handshake with an address has become a connection.
    pub open spec fn with_connection(self, addr: UdpAddr, conn: ConnectionView) -> HostView {
        HostView {
            handshakes: self.handshakes.remove(addr),
            established: bounded_insert::<UdpAddr, ConnectionView>(
                self.established,
                connection_activity(self.established),
                addr,
                conn,
                self.max_established,
            ),
            ..self
        }
    }

    // -------------------------------------------------------------- dial

    /// Why an address cannot be dialed, if it cannot.
    pub open spec fn dial_error(self, addr: UdpAddr) -> Option<ErrorView> {
        if self.knows(addr) {
            Some(
                ErrorView::HostState(
                    "dial: address "@ + addr_text(addr) + " already known to host"@,
                ),
            )
        } else {
            None
        }
    }

    /// The first message to a dialed address.
    pub open spec fn dial_message(self, seed: Seq<u8>) -> Seq<u8> {
        write_e_spec(self.static_private, seed).1
    }

    /// The host after dialing an address.
    pub open spec fn dialed(self, addr: UdpAddr, seed: Seq<u8>) -> HostView {
        let (after_e, msg1) = write_e_spec(self.static_private, seed);
        let state = HandshakeStateView::Initiator { after_e, msg1 };
        self.with_handshake(
            addr,
            HandshakeView { state, last_activity: tick_after(self.tick) },
        ).ticked()
    }

    // -------------------------------------------------------------- send

    /// Why a plaintext cannot be sent to an address, if it cannot.
    pub open spec fn send_error(self, addr: UdpAddr, plaintext: Seq<u8>) -> Option<ErrorView> {
        if !self.established.dom().contains(addr) {
            Some(
                ErrorView::HostState("send: no established connection for "@ + addr_text(addr)),
            )
        } else {
            self.established[addr].transport.send_error(plaintext)
        }
    }

    /// The datagram that carries a plaintext to an address.
    pub open spec fn send_datagram(self, addr: UdpAddr, plaintext: Seq<u8>) -> OutboundView {
        OutboundView {
            addr,
            datagram: self.established[addr].transport.datagram(plaintext),
        }
    }

    /// The host after sending to an address.
    pub open spec fn sent(self, addr: UdpAddr) -> HostView {
        let conn = self.established[addr];
        HostView {
            established: self.established.insert(
                addr,
                ConnectionView {
                    transport: conn.transport.sent(),
                    last_activity: tick_after(self.tick),
                    ..conn
                },
            ),
            ..self
        }.ticked()
    }

    /// Whether the host holds the other end of a sender's session and still takes
    /// the nonce of its next datagram.
    pub open spec fn hears(self, from: UdpAddr, sender: HostView, addr: UdpAddr) -> bool {
        &&& self.established.dom().contains(from)
        &&& self.established[from].transport.mirrors(sender.established[addr].transport)
        &&& self.established[from].transport.takes(sender.established[addr].transport.send_nonce)
    }

    // ----------------------------------------------------------- receive

    /// What a datagram does to the host.
    pub open spec fn step(self, from: UdpAddr, datagram: Seq<u8>, seed: Seq<u8>) -> HostStepView {
        if self.established.dom().contains(from) {
            self.step_established(from, datagram)
        } else if self.handshakes.dom().contains(from) {
            match self.handshakes[from].state {
                HandshakeStateView::Initiator { after_e, msg1 } => if challenge_shaped(datagram) {
                    self.step_challenge(from, msg1, datagram)
                } else {
                    self.step_msg2(from, after_e, datagram)
                },
                HandshakeStateView::Responder(after_resp) => self.step_msg3(
                    from,
                    after_resp,
                    datagram,
                ),
            }
        } else {
            self.step_new(from, datagram, seed)
        }
    }

    /// The datagram is refused and nothing is sent.
    pub open spec fn refuse(self, addr: UdpAddr, reason: Seq<char>) -> HostStepView {
        HostStepView {
            host: self,
            event: HostEventView::Rejected { addr, reason },
            outbound: None,
        }
    }

    /// A datagram from an established peer: one that does not decrypt changes
    /// nothing at all; one that does is delivered.
    pub open spec fn step_established(self, from: UdpAddr, datagram: Seq<u8>) -> HostStepView {
        let conn = self.established[from];
        match conn.transport.received(datagram) {
            Err(e) => self.refuse(
                from,
                "transport decrypt failed: "@ + e.text()
                    + "; datagram dropped, connection kept"@,
            ),
            Ok(plaintext) => HostStepView {
                host: HostView {
                    established: self.established.insert(
                        from,
                        ConnectionView {
                            transport: conn.transport.after(datagram),
                            last_activity: tick_after(self.tick),
                            ..conn
                        },
                    ),
                    ..self
                }.ticked(),
                event: HostEventView::DatagramDelivered { addr: from, plaintext },
                outbound: None,
            },
        }
    }

    /// A cookie challenge: the first message goes out again with the cookie;
    /// neither the handshake nor the clock changes.
    pub open spec fn step_challenge(
        self,
        from: UdpAddr,
        msg1: Seq<u8>,
        datagram: Seq<u8>,
    ) -> HostStepView {
        HostStepView {
            host: self,
            event: HostEventView::HandshakeProgress { addr: from },
            outbound: Some(
                OutboundView {
                    addr: from,
                    datagram: msg1 + datagram.subrange(1, datagram.len() as int),
                },
            ),
        }
    }

    /// What a second message amounts to: the peer that it proves.
    pub open spec fn msg2_peer(
        self,
        after_e: InitiatorAfterEView,
        datagram: Seq<u8>,
    ) -> Result<Seq<u8>, ErrorView> {
        match after_e.read_response(datagram) {
            Err(e) => Err(e),
            Ok((after_resp, payload)) => bound_peer(payload, after_resp.rs),
        }
    }

    /// A second message: the third goes out and the connection stands, or the
    /// handshake is kept as it is.
    pub open spec fn step_msg2(
        self,
        from: UdpAddr,
        after_e: InitiatorAfterEView,
        datagram: Seq<u8>,
    ) -> HostStepView {
        match self.msg2_peer(after_e, datagram) {
            Err(e) => self.ticked().refuse(
                from,
                "initiator: failed to advance on msg2: "@ + e.text() + "; handshake kept"@,
            ),
            Ok(remote_peer_id) => {
                let after_resp = after_e.read_response(datagram)->Ok_0.0;
                let trailer = self.binding.wire();
                HostStepView {
                    host: self.with_connection(
                        from,
                        ConnectionView {
                            transport: after_resp.session(trailer),
                            remote_static: after_resp.rs,
                            remote_peer_id,
                            last_activity: tick_after(self.tick),
                        },
                    ).ticked(),
                    event: HostEventView::HandshakeComplete {
                        addr: from,
                        remote_static: after_resp.rs,
                        remote_peer_id,
                    },
                    outbound: Some(
                        OutboundView { addr: from, datagram: after_resp.final_message(trailer) },
                    ),
                }
            },
        }
    }

    /// What a third message amounts to: the peer that it proves.
    pub open spec fn msg3_peer(
        self,
        after_resp: ResponderAfterResponseView,
        datagram: Seq<u8>,
    ) -> Result<Seq<u8>, ErrorView> {
        match after_resp.read_s(datagram) {
            Err(e) => Err(e),
            Ok((transport, remote_static, payload)) => bound_peer(payload, remote_static),
        }
    }

    /// A third message: the connection stands, or the handshake is kept as it
    /// is.
    pub open spec fn step_msg3(
        self,
        from: UdpAddr,
        after_resp: ResponderAfterResponseView,
        datagram: Seq<u8>,
    ) -> HostStepView {
        match self.msg3_peer(after_resp, datagram) {
            Err(e) => self.ticked().refuse(
                from,
                "responder: failed to finalize on msg3: "@ + e.text() + "; handshake kept"@,
            ),
            Ok(remote_peer_id) => {
                let (transport, remote_static, payload) = after_resp.read_s(datagram)->Ok_0;
                HostStepView {
                    host: self.with_connection(
                        from,
                        ConnectionView {
                            transport,
                            remote_static,
                            remote_peer_id,
                            last_activity: tick_after(self.tick),
                        },
                    ).ticked(),
                    event: HostEventView::HandshakeComplete {
                        addr: from,
                        remote_static,
                        remote_peer_id,
                    },
                    outbound: None,
                }
            },
        }
    }

    /// A datagram from an unknown address: a bare first message is challenged,
    /// one that echoes its cookie is answered, anything else is refused.
    pub open spec fn step_new(
        self,
        from: UdpAddr,
        datagram: Seq<u8>,
        seed: Seq<u8>,
    ) -> HostStepView {
        if datagram.len() == MESSAGE_1_LEN {
            HostStepView {
                host: self.ticked(),
                event: HostEventView::HandshakeProgress { addr: from },
                outbound: Some(
                    OutboundView {
                        addr: from,
                        datagram: challenge_bytes(self.cookie_secret, from, datagram),
                    },
                ),
            }
        } else if datagram.len() == MSG1_WITH_COOKIE_LEN {
            let e = datagram.subrange(0, 32);
            let mac = datagram.subrange(32, 48);
            if mac == cookie(self.cookie_secret, from, e) {
                self.step_validated_msg1(from, e, seed)
            } else {
                self.ticked().refuse(from, "msg1 cookie failed verification"@)
            }
        } else {
            self.ticked().refuse(
                from,
                "datagram from new peer is neither a 32-byte bare msg1 nor a 48-byte msg1-with-cookie: "@
                    + decimal(datagram.len()) + " bytes"@,
            )
        }
    }

    /// A first message whose source is proven: the second message goes out and
    /// the handshake is remembered.
    pub open spec fn step_validated_msg1(
        self,
        from: UdpAddr,
        e: Seq<u8>,
        seed: Seq<u8>,
    ) -> HostStepView {
        let after_e = read_e_spec(self.static_private, e)->Ok_0;
        let trailer = self.binding.wire();
        HostStepView {
            host: self.with_handshake(
                from,
                HandshakeView {
                    state: HandshakeStateView::Responder(after_e.after_response(seed, trailer)),
                    last_activity: tick_after(self.tick),
                },
            ).ticked(),
            event: HostEventView::HandshakeProgress { addr: from },
            outbound: Some(
                OutboundView { addr: from, datagram: after_e.response(seed, trailer) },
            ),
        }
    }

    // ------------------------------------------------------------- evict

    /// The host without any state for an address.
    pub open spec fn evicted(self, addr: UdpAddr) -> HostView {
        HostView {
            handshakes: self.handshakes.remove(addr),
            established: self.established.remove(addr),
            ..self
        }
    }

    /// The host without the entries that are idle for more than
    /// `max_idle_ticks`.
    pub open spec fn without_idle(self, max_idle_ticks: u64) -> HostView {
        let cutoff = idle_cutoff(self.tick, max_idle_ticks);
        HostView {
            handshakes: kept(self.handshakes, handshake_activity(self.handshakes), cutoff),
            established: kept(self.established, connection_activity(self.established), cutoff),
            ..self
        }
    }

    /// The handshakes that are idle for more than `max_idle_ticks`.
    pub open spec fn idle_handshakes(self, max_idle_ticks: u64) -> Set<UdpAddr> {
        swept(
            self.handshakes,
            handshake_activity(self.handshakes),
            idle_cutoff(self.tick, max_idle_ticks),
        )
    }

    /// The connections that are idle for more than `max_idle_ticks`.
    pub open spec fn idle_connections(self, max_idle_ticks: u64) -> Set<UdpAddr> {
        swept(
            self.established,
            connection_activity(self.established),
            idle_cutoff(self.tick, max_idle_ticks),
        )
    }
}

impl HostView {
    /// Every initiator that sent the first message reads from the second this
    /// host's static key and binding.
    pub open spec fn msg2_readable(self, e: Seq<u8>, seed: Seq<u8>) -> bool {
        let after_e = read_e_spec(self.static_private, e)->Ok_0;
        let trailer = self.binding.wire();
        forall|initiator: InitiatorAfterEView| #[trigger]
            initiator.paired(after_e) ==> {
                &&& initiator.read_response(after_e.response(seed, trailer)) matches Ok(
                    (after, payload),
                )
                &&& after.paired(after_e.after_response(seed, trailer))
                &&& after.rs == x25519_public(self.static_private)
                &&& after.s == initiator.s
                &&& payload == trailer
            }
    }

    /// Every responder that sent the second message reads from the third this
    /// host's static key and binding, and the other end of the session.
    pub open spec fn msg3_readable(self, after_resp: InitiatorAfterResponseView) -> bool {
        let trailer = self.binding.wire();
        forall|responder: ResponderAfterResponseView| #[trigger]
            after_resp.paired(responder) ==> {
                &&& responder.read_s(after_resp.final_message(trailer)) matches Ok(
                    (session, rs, payload),
                )
                &&& session.mirrors(after_resp.session(trailer))
                &&& rs == x25519_public(after_resp.s)
                &&& payload == trailer
            }
    }
}

/// A bare first message costs the host no state, and its answer is shorter than
/// the message itself.
pub proof fn bare_msg1_creates_no_state(
    host: HostView,
    from: UdpAddr,
    datagram: Seq<u8>,
    seed: Seq<u8>,
)
    requires
        !host.knows(from),
        datagram.len() == MESSAGE_1_LEN,
        challenge_shaped(challenge_bytes(host.cookie_secret, from, datagram)),
    ensures
        host.step(from, datagram, seed).host == host.ticked(),
        host.step(from, datagram, seed).outbound matches Some(o) && o.addr == from
            && o.datagram.len() < datagram.len(),
{
}

/// Whether a datagram echoes the cookie that the host gives its source.
pub open spec fn echoes_cookie(host: HostView, from: UdpAddr, datagram: Seq<u8>) -> bool {
    datagram.len() == MSG1_WITH_COOKIE_LEN && datagram.subrange(32, 48) == cookie(
        host.cookie_secret,
        from,
        datagram.subrange(0, 32),
    )
}

/// A source that does not prove that it receives at its address costs the host
/// no state and gets no second message: at most a challenge goes out, and only
/// in answer to a bare first message.
pub proof fn no_state_without_a_cookie(
    host: HostView,
    from: UdpAddr,
    datagram: Seq<u8>,
    seed: Seq<u8>,
)
    requires
        !host.knows(from),
        !echoes_cookie(host, from, datagram),
    ensures
        host.step(from, datagram, seed).host == host.ticked(),
        host.step(from, datagram, seed).outbound matches Some(o) ==> datagram.len()
            == MESSAGE_1_LEN && o == (OutboundView {
            addr: from,
            datagram: challenge_bytes(host.cookie_secret, from, datagram),
        }),
{
}

/// A handshake completes only with a peer that has proven to own the static key
/// of the session; from then on the session is established.
pub proof fn completed_handshakes_are_bound(
    host: HostView,
    from: UdpAddr,
    datagram: Seq<u8>,
    seed: Seq<u8>,
)
    requires
        host.valid(),
    ensures
        host.step(from, datagram, seed).event matches HostEventView::HandshakeComplete {
            addr,
            remote_static,
            remote_peer_id,
        } ==> {
            let after = host.step(from, datagram, seed).host;
            &&& addr == from
            &&& is_bound(remote_static, remote_peer_id)
            &&& after.established.dom().contains(from)
            &&& after.established[from].remote_static == remote_static
            &&& after.established[from].remote_peer_id == remote_peer_id
            &&& !after.handshakes.dom().contains(from)
        },
{
}

/// A datagram that does not decrypt changes nothing: not the session, not any
/// other connection or handshake, not the clock.
pub proof fn junk_leaves_established_peers_alone(
    host: HostView,
    from: UdpAddr,
    datagram: Seq<u8>,
    seed: Seq<u8>,
)
    requires
        host.established.dom().contains(from),
        host.established[from].transport.received(datagram) is Err,
    ensures
        host.step(from, datagram, seed).host == host,
        host.step(from, datagram, seed).outbound is None,
{
}

/// A datagram that fails to advance a handshake leaves both tables as they are:
/// the genuine message can still arrive.
pub proof fn failed_advance_keeps_the_handshake(
    host: HostView,
    from: UdpAddr,
    datagram: Seq<u8>,
    seed: Seq<u8>,
)
    requires
        !host.established.dom().contains(from),
        host.handshakes.dom().contains(from),
        host.step(from, datagram, seed).event is Rejected,
    ensures
        host.step(from, datagram, seed).host == host.ticked(),
        host.step(from, datagram, seed).outbound is None,
{
}

/// No datagram makes the host lose a connection or handshake of another peer,
/// unless the table that gains an entry was full.
pub proof fn other_peers_keep_their_state(
    host: HostView,
    from: UdpAddr,
    datagram: Seq<u8>,
    seed: Seq<u8>,
    other: UdpAddr,
)
    requires
        host.valid(),
        other != from,
    ensures
        host.handshakes.len() < host.max_handshakes && host.handshakes.dom().contains(other)
            ==> host.step(from, datagram, seed).host.handshakes.dom().contains(other)
            && host.step(from, datagram, seed).host.handshakes[other] == host.handshakes[other],
        host.established.len() < host.max_established && host.established.dom().contains(other)
            ==> host.step(from, datagram, seed).host.established.dom().contains(other)
            && host.step(from, datagram, seed).host.established[other] == host.established[other],
{
}

/// The whole exchange: where one host dials another and every datagram arrives,
/// both end with the other's identity and the two ends of one session.
///
/// The two readability conditions are what [`crate::host::Host::recv_one`]
/// ensures of the messages that it writes.
pub proof fn dialing_establishes_both_sides(
    a: HostView,
    b: HostView,
    addr_a: UdpAddr,
    addr_b: UdpAddr,
    seed_a: Seq<u8>,
    seed_b: Seq<u8>,
    unused: Seq<u8>,
)
    requires
        a.valid(),
        b.valid(),
        !a.knows(addr_b),
        !b.knows(addr_a),
        seed_a.len() == 32,
        seed_b.len() == 32,
        x25519_public(seed_a).len() == 32,
        challenge_shaped(challenge_bytes(b.cookie_secret, addr_a, a.dial_message(seed_a))),
        !ed25519_is_neutral(a.binding.signature.take(32)),
        !ed25519_is_neutral(b.binding.signature.take(32)),
        b.msg2_readable(a.dial_message(seed_a), seed_b),
        a.msg3_readable(
            write_e_spec(a.static_private, seed_a).0.read_response(
                read_e_spec(b.static_private, a.dial_message(seed_a))->Ok_0.response(
                    seed_b,
                    b.binding.wire(),
                ),
            )->Ok_0.0,
        ),
    ensures
        ({
            let a1 = a.dialed(addr_b, seed_a);
            let challenged = b.step(addr_a, a.dial_message(seed_a), unused);
            let echoed = a1.step(addr_b, challenged.outbound->Some_0.datagram, unused);
            let answered = challenged.host.step(
                addr_a,
                echoed.outbound->Some_0.datagram,
                seed_b,
            );
            let closed = echoed.host.step(addr_b, answered.outbound->Some_0.datagram, unused);
            let finished = answered.host.step(addr_a, closed.outbound->Some_0.datagram, unused);
            &&& closed.host.established.dom().contains(addr_b)
            &&& closed.host.established[addr_b].remote_peer_id == b.peer_id()
            &&& closed.host.established[addr_b].remote_static == x25519_public(b.static_private)
            &&& finished.host.established.dom().contains(addr_a)
            &&& finished.host.established[addr_a].remote_peer_id == a.peer_id()
            &&& finished.host.established[addr_a].remote_static == x25519_public(a.static_private)
            &&& finished.host.established[addr_a].transport.mirrors(
                closed.host.established[addr_b].transport,
            )
        }),
{
    let msg1 = a.dial_message(seed_a);
    let a1 = a.dialed(addr_b, seed_a);
    let initiator = write_e_spec(a.static_private, seed_a).0;
    assert(a1.handshakes.dom().contains(addr_b));
    assert(!a1.established.dom().contains(addr_b));
    assert(a1.handshakes[addr_b].state == HandshakeStateView::Initiator { after_e: initiator, msg1 });
    let challenged = b.step(addr_a, msg1, unused);
    let c1 = challenge_bytes(b.cookie_secret, addr_a, msg1);
    assert(challenged.outbound->Some_0.datagram == c1);
    assert(challenged.host == b.ticked());
    let echoed = a1.step(addr_b, c1, unused);
    let e1 = msg1 + c1.subrange(1, 17);
    assert(echoed.outbound->Some_0.datagram == e1);
    assert(echoed.host == a1);
    assert(e1.subrange(0, 32) =~= msg1);
    assert(e1.subrange(32, 48) =~= c1.subrange(1, 17));
    assert(c1.subrange(1, 17) =~= cookie(b.cookie_secret, addr_a, msg1));
    let answered = challenged.host.step(addr_a, e1, seed_b);
    let after_e = read_e_spec(b.static_private, msg1)->Ok_0;
    assert(initiator.paired(after_e));
    let trailer = b.binding.wire();
    let msg2 = after_e.response(seed_b, trailer);
    assert(answered == challenged.host.step_validated_msg1(addr_a, msg1, seed_b));
    assert(answered.outbound->Some_0.datagram == msg2);
    assert(initiator.read_response(msg2) is Ok);
    let after_resp = initiator.read_response(msg2)->Ok_0.0;
    let closed = a1.step(addr_b, msg2, unused);
    assert(msg2.len() >= 96);
    assert(closed == a1.step_msg2(addr_b, initiator, msg2));
    assert(a1.msg2_peer(initiator, msg2) == Ok::<Seq<u8>, ErrorView>(b.peer_id()));
    let msg3 = after_resp.final_message(a.binding.wire());
    assert(closed.outbound->Some_0.datagram == msg3);
    assert(a.msg3_readable(after_resp));
    let responder = after_e.after_response(seed_b, trailer);
    assert(after_resp.paired(responder));
    assert(answered.host.handshakes.dom().contains(addr_a));
    assert(answered.host.handshakes[addr_a].state == HandshakeStateView::Responder(responder));
    assert(!answered.host.established.dom().contains(addr_a));
    assert(responder.read_s(msg3) is Ok);
}

} // verus!
