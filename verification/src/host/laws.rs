//! What a host promises about the peers that a call does not name, about the order
//! in which full tables make room, and about what a datagram brings.
use vstd::prelude::*;
use crate::activity::full_tables_lose_their_oldest;
use crate::addr::{OutboundView, UdpAddr};
use crate::crypto::blake3_keyed_hash;
use crate::host::cookie::{canonical, challenge_bytes, challenge_shaped, cookie, cookie_input};
use crate::host::event::HostEventView;
use crate::host::fanout::sent_to_each;
use crate::host::model::{connection_activity, echoes_cookie, handshake_activity, HostView};
use crate::host::state::{ConnectionView, HandshakeStateView, HandshakeView};

verus! {

/// Whether nothing but the tables and the clock differs.
pub open spec fn same_host(a: HostView, b: HostView) -> bool {
    &&& a.static_private == b.static_private
    &&& a.binding == b.binding
    &&& a.cookie_secret == b.cookie_secret
    &&& a.max_handshakes == b.max_handshakes
    &&& a.max_established == b.max_established
}

/// Whether a table of handshakes lost none of its other entries, unless it was full:
/// then at most the one that was touched longest ago.
pub open spec fn handshakes_kept(before: HostView, after: HostView, addr: UdpAddr) -> bool {
    &&& forall|o: UdpAddr|
        o != addr && #[trigger] after.handshakes.dom().contains(o)
            ==> before.handshakes.dom().contains(o) && after.handshakes[o] == before.handshakes[o]
    &&& before.handshakes.dom().contains(addr) || before.handshakes.len() < before.max_handshakes
        ==> forall|o: UdpAddr|
        o != addr && before.handshakes.dom().contains(o)
            ==> #[trigger] after.handshakes.dom().contains(o)
    &&& forall|o: UdpAddr, x: UdpAddr|
        o != addr && before.handshakes.dom().contains(o)
            && !#[trigger] after.handshakes.dom().contains(o)
            && #[trigger] before.handshakes.dom().contains(x)
            ==> before.handshakes[o].last_activity <= before.handshakes[x].last_activity
    &&& after.handshakes.len() + 1 >= before.handshakes.len()
}

/// The same of the table of connections.
pub open spec fn connections_kept(before: HostView, after: HostView, addr: UdpAddr) -> bool {
    &&& forall|o: UdpAddr|
        o != addr && #[trigger] after.established.dom().contains(o)
            ==> before.established.dom().contains(o) && after.established[o]
            == before.established[o]
    &&& before.established.dom().contains(addr) || before.established.len()
        < before.max_established ==> forall|o: UdpAddr|
        o != addr && before.established.dom().contains(o)
            ==> #[trigger] after.established.dom().contains(o)
    &&& forall|o: UdpAddr, x: UdpAddr|
        o != addr && before.established.dom().contains(o)
            && !#[trigger] after.established.dom().contains(o)
            && #[trigger] before.established.dom().contains(x)
            ==> before.established[o].last_activity <= before.established[x].last_activity
    &&& after.established.len() + 1 >= before.established.len()
}

/// Putting a handshake in loses at most the oldest.
proof fn lemma_with_handshake(host: HostView, addr: UdpAddr, entry: HandshakeView)
    requires
        host.valid(),
    ensures
        handshakes_kept(host, host.with_handshake(addr, entry), addr),
        host.with_handshake(addr, entry).handshakes.dom().contains(addr),
        host.with_handshake(addr, entry).handshakes[addr] == entry,
        !host.handshakes.dom().contains(addr) && host.handshakes.len() >= host.max_handshakes
            ==> host.with_handshake(addr, entry).handshakes.len() == host.handshakes.len(),
{
    let activity = handshake_activity(host.handshakes);
    assert(activity.dom() =~= host.handshakes.dom());
    full_tables_lose_their_oldest::<UdpAddr, HandshakeView>(
        host.handshakes,
        activity,
        addr,
        entry,
        host.max_handshakes,
    );
    let after = host.with_handshake(addr, entry);
    assert forall|o: UdpAddr, x: UdpAddr|
        o != addr && host.handshakes.dom().contains(o)
            && !#[trigger] after.handshakes.dom().contains(o)
            && #[trigger] host.handshakes.dom().contains(x) implies host.handshakes[o].last_activity
        <= host.handshakes[x].last_activity by {
        assert(activity[o] <= activity[x]);
    }
}

/// Putting a connection in loses at most the oldest.
proof fn lemma_with_connection(host: HostView, addr: UdpAddr, conn: ConnectionView)
    requires
        host.valid(),
    ensures
        connections_kept(host, host.with_connection(addr, conn), addr),
        host.with_connection(addr, conn).established.dom().contains(addr),
        host.with_connection(addr, conn).established[addr] == conn,
        host.with_connection(addr, conn).handshakes == host.handshakes.remove(addr),
{
    let activity = connection_activity(host.established);
    assert(activity.dom() =~= host.established.dom());
    full_tables_lose_their_oldest::<UdpAddr, ConnectionView>(
        host.established,
        activity,
        addr,
        conn,
        host.max_established,
    );
    let after = host.with_connection(addr, conn);
    assert forall|o: UdpAddr, x: UdpAddr|
        o != addr && host.established.dom().contains(o)
            && !#[trigger] after.established.dom().contains(o)
            && #[trigger] host.established.dom().contains(
            x,
        ) implies host.established[o].last_activity <= host.established[x].last_activity by {
        assert(activity[o] <= activity[x]);
    }
}

/// Dialing begins one handshake and keeps the others: none is lost while there is
/// room, and only the one that was touched longest ago where there is none. No
/// connection is touched. An address is refused exactly if the host has state for it.
pub proof fn dialing_keeps_the_other_handshakes(
    host: HostView,
    addr: UdpAddr,
    seed: Seq<u8>,
    other: UdpAddr,
)
    requires
        host.valid(),
        !host.handshakes.dom().contains(addr),
    ensures
        ({
            let after = host.dialed(addr, seed);
            &&& host.handshakes.len() < host.max_handshakes && other != addr ==> {
                &&& after.handshakes.dom().contains(other) <==> host.handshakes.dom().contains(
                    other,
                )
                &&& host.handshakes.dom().contains(other) ==> after.handshakes[other]
                    == host.handshakes[other]
            }
            &&& handshakes_kept(host, after, addr)
            &&& after.handshakes.dom().contains(addr)
            &&& after.handshakes[addr].state matches HandshakeStateView::Initiator { msg1, .. }
                && msg1 == host.dial_message(seed)
            &&& after.handshakes[addr].last_activity == after.tick
            &&& after.established == host.established
            &&& same_host(host, after)
        }),
        host.dial_error(addr) is Some <==> host.established.dom().contains(addr),
        host.handshakes.dom().contains(other) ==> host.dial_error(other) is Some,
{
    let entry = host.dialed(addr, seed).handshakes[addr];
    let (after_e, msg1) = crate::noise::handshake::write_e_spec(host.static_private, seed);
    let state = HandshakeStateView::Initiator { after_e, msg1 };
    let fresh = HandshakeView { state, last_activity: crate::activity::tick_after(host.tick) };
    lemma_with_handshake(host, addr, fresh);
    assert(host.dialed(addr, seed).handshakes == host.with_handshake(addr, fresh).handshakes);
}

/// Sending touches the session with the named peer alone: its counter moves on by
/// one and it counts as touched last; the datagram is addressed to that peer. A
/// plaintext is refused unless the peer is established.
pub proof fn sending_touches_one_session(
    host: HostView,
    addr: UdpAddr,
    plaintext: Seq<u8>,
    other: UdpAddr,
)
    requires
        other != addr,
    ensures
        host.send_error(addr, plaintext) is None ==> {
            let after = host.sent(addr);
            let was = host.established[addr];
            let is = after.established[addr];
            &&& host.established.dom().contains(addr)
            &&& host.send_datagram(addr, plaintext).addr == addr
            &&& host.send_datagram(addr, plaintext).datagram == was.transport.datagram(plaintext)
            &&& after.established.dom() == host.established.dom()
            &&& after.established[other] == host.established[other]
            &&& is.transport.send_nonce == was.transport.send_nonce + 1
            &&& is.transport.send_key == was.transport.send_key
            &&& is.transport.recv_key == was.transport.recv_key
            &&& is.transport.recv_max_nonce == was.transport.recv_max_nonce
            &&& is.transport.recv_replay_window == was.transport.recv_replay_window
            &&& is.remote_static == was.remote_static && is.remote_peer_id == was.remote_peer_id
            &&& is.last_activity == after.tick
            &&& after.handshakes == host.handshakes
            &&& same_host(host, after)
        },
        !host.established.dom().contains(addr) ==> (host.send_error(addr, plaintext) matches Some(
            e,
        ) && e is HostState),
        host.established.dom().contains(addr) && host.established[addr].transport.send_nonce
            == u64::MAX ==> host.send_error(addr, plaintext) is Some,
        host.established.dom().contains(addr) && host.established[addr].transport.send_nonce
            < u64::MAX && plaintext.len() < 0x1_0000_0000 ==> host.send_error(addr, plaintext) is None,
{
    if host.send_error(addr, plaintext) is None {
        assert(host.sent(addr).established.dom() =~= host.established.dom());
    }
}

/// Whatever a datagram brings, other peers keep their sessions and handshakes, but
/// for the one that was touched longest ago where a new entry finds its table full.
pub proof fn datagrams_keep_the_other_peers(
    host: HostView,
    from: UdpAddr,
    datagram: Seq<u8>,
    seed: Seq<u8>,
)
    requires
        host.valid(),
    ensures
        handshakes_kept(host, host.step(from, datagram, seed).host, from),
        connections_kept(host, host.step(from, datagram, seed).host, from),
        same_host(host, host.step(from, datagram, seed).host),
{
    let step = host.step(from, datagram, seed);
    if host.established.dom().contains(from) {
        assert(step.host.established.dom() =~= host.established.dom());
    } else if host.handshakes.dom().contains(from) {
        if step.event is HandshakeComplete {
            let conn = step.host.established[from];
            match host.handshakes[from].state {
                HandshakeStateView::Initiator { after_e, .. } => {
                    let after = after_e.read_response(datagram)->Ok_0.0;
                    let peer = host.msg2_peer(after_e, datagram)->Ok_0;
                    lemma_with_connection(
                        host,
                        from,
                        ConnectionView {
                            transport: after.session(host.binding.wire()),
                            remote_static: after.rs,
                            remote_peer_id: peer,
                            last_activity: crate::activity::tick_after(host.tick),
                        },
                    );
                },
                HandshakeStateView::Responder(after_resp) => {
                    let (transport, remote_static, _) = after_resp.read_s(datagram)->Ok_0;
                    let peer = host.msg3_peer(after_resp, datagram)->Ok_0;
                    lemma_with_connection(
                        host,
                        from,
                        ConnectionView {
                            transport,
                            remote_static,
                            remote_peer_id: peer,
                            last_activity: crate::activity::tick_after(host.tick),
                        },
                    );
                },
            }
        }
    } else if echoes_cookie(host, from, datagram) {
        let e = datagram.subrange(0, 32);
        let after_e = crate::noise::handshake::read_e_spec(host.static_private, e)->Ok_0;
        lemma_with_handshake(
            host,
            from,
            HandshakeView {
                state: HandshakeStateView::Responder(
                    after_e.after_response(seed, host.binding.wire()),
                ),
                last_activity: crate::activity::tick_after(host.tick),
            },
        );
    }
}

/// What an established peer sends is delivered as what it opens to, from the address
/// that it came from; its session moves on and counts as touched last; nothing is
/// sent back.
pub proof fn sessions_deliver(host: HostView, from: UdpAddr, datagram: Seq<u8>, seed: Seq<u8>)
    requires
        host.established.dom().contains(from),
    ensures
        ({
            let step = host.step(from, datagram, seed);
            let was = host.established[from];
            match was.transport.received(datagram) {
                Ok(plaintext) => {
                    let is = step.host.established[from];
                    &&& step.event == HostEventView::DatagramDelivered { addr: from, plaintext }
                    &&& step.host.established.dom() == host.established.dom()
                    &&& is.transport == was.transport.after(datagram)
                    &&& is.remote_static == was.remote_static
                    &&& is.remote_peer_id == was.remote_peer_id
                    &&& is.last_activity == step.host.tick
                    &&& step.host.handshakes == host.handshakes
                },
                Err(_) => step.event matches HostEventView::Rejected { addr, .. } && addr == from
                    && step.host == host,
            }
        }),
        host.step(from, datagram, seed).outbound is None,
{
    let step = host.step(from, datagram, seed);
    if host.established[from].transport.received(datagram) is Ok {
        assert(step.host.established.dom() =~= host.established.dom());
    }
}

/// A challenge in answer to a dial is met with the first message again, followed by
/// the cookie; the handshake waits on.
pub proof fn challenges_are_met(host: HostView, from: UdpAddr, datagram: Seq<u8>, seed: Seq<u8>)
    requires
        !host.established.dom().contains(from),
        host.handshakes.dom().contains(from),
        host.handshakes[from].state is Initiator,
        datagram.len() == 17,
        datagram[0] == 0xC0,
    ensures
        ({
            let step = host.step(from, datagram, seed);
            let first = host.handshakes[from].state->msg1;
            &&& step.host == host
            &&& step.event == HostEventView::HandshakeProgress { addr: from }
            &&& step.outbound matches Some(o) && o.addr == from && o.datagram.len() == first.len()
                + 16 && o.datagram.take(first.len() as int) == first && o.datagram.skip(
                first.len() as int,
            ) == datagram.skip(1)
        }),
{
    let step = host.step(from, datagram, seed);
    let first = host.handshakes[from].state->msg1;
    let o = step.outbound->Some_0;
    assert(o.datagram.take(first.len() as int) =~= first);
    assert(o.datagram.skip(first.len() as int) =~= datagram.skip(1));
}

/// A source that echoes its cookie gets the second message, and its handshake is
/// remembered as touched last; no connection stands yet.
pub proof fn echoed_cookies_are_answered(
    host: HostView,
    from: UdpAddr,
    datagram: Seq<u8>,
    seed: Seq<u8>,
)
    requires
        host.valid(),
        !host.knows(from),
        datagram.len() == 48,
        datagram.subrange(32, 48) == cookie(
            host.cookie_secret,
            from,
            datagram.subrange(0, 32),
        ),
    ensures
        ({
            let step = host.step(from, datagram, seed);
            &&& step.event == HostEventView::HandshakeProgress { addr: from }
            &&& step.host.handshakes.dom().contains(from)
            &&& step.host.handshakes[from].state is Responder
            &&& step.host.handshakes[from].last_activity == step.host.tick
            &&& step.host.established == host.established
            &&& step.outbound matches Some(o) && o.addr == from
        }),
{
    let e = datagram.subrange(0, 32);
    let after_e = crate::noise::handshake::read_e_spec(host.static_private, e)->Ok_0;
    lemma_with_handshake(
        host,
        from,
        HandshakeView {
            state: HandshakeStateView::Responder(after_e.after_response(seed, host.binding.wire())),
            last_activity: crate::activity::tick_after(host.tick),
        },
    );
}

/// A bare first message from an unknown address is answered with the cookie of that
/// address and message under the host's secret.
pub proof fn bare_messages_are_challenged(
    host: HostView,
    from: UdpAddr,
    datagram: Seq<u8>,
    seed: Seq<u8>,
)
    requires
        !host.knows(from),
        datagram.len() == 32,
    ensures
        ({
            let step = host.step(from, datagram, seed);
            let mac = blake3_keyed_hash(host.cookie_secret, cookie_input(from, datagram));
            &&& step.event == HostEventView::HandshakeProgress { addr: from }
            &&& step.outbound == Some(
                OutboundView { addr: from, datagram: seq![0xC0u8] + mac.take(16) },
            )
            &&& step.host.handshakes == host.handshakes
            &&& step.host.established == host.established
        }),
{
}

/// A handshake that completes becomes a session that counts as touched last; its
/// handshake is gone. Only the initiator has a message to send.
pub proof fn completed_handshakes_become_sessions(
    host: HostView,
    from: UdpAddr,
    datagram: Seq<u8>,
    seed: Seq<u8>,
)
    requires
        host.valid(),
        !host.established.dom().contains(from),
        host.handshakes.dom().contains(from),
    ensures
        ({
            let step = host.step(from, datagram, seed);
            match host.handshakes[from].state {
                HandshakeStateView::Initiator { after_e, .. } => !challenge_shaped(datagram) ==> {
                    &&& host.msg2_peer(after_e, datagram) is Ok <==> step.event is HandshakeComplete
                    &&& step.event is HandshakeComplete ==> {
                        &&& step.host.established.dom().contains(from)
                        &&& step.host.established[from].last_activity == step.host.tick
                        &&& step.host.handshakes == host.handshakes.remove(from)
                        &&& step.outbound matches Some(o) && o.addr == from
                    }
                },
                HandshakeStateView::Responder(after_resp) => {
                    &&& host.msg3_peer(after_resp, datagram) is Ok <==> step.event
                        is HandshakeComplete
                    &&& step.event is HandshakeComplete ==> {
                        &&& step.host.established.dom().contains(from)
                        &&& step.host.established[from].last_activity == step.host.tick
                        &&& step.host.handshakes == host.handshakes.remove(from)
                    }
                    &&& step.outbound is None
                },
            }
        }),
{
}

/// Evicting an address drops all state for it and no other.
pub proof fn evicting_drops_one_address(host: HostView, addr: UdpAddr, other: UdpAddr)
    ensures
        ({
            let after = host.evicted(addr);
            &&& !after.handshakes.dom().contains(addr)
            &&& !after.established.dom().contains(addr)
            &&& other != addr ==> {
                &&& after.handshakes.dom().contains(other) <==> host.handshakes.dom().contains(
                    other,
                )
                &&& host.handshakes.dom().contains(other) ==> after.handshakes[other]
                    == host.handshakes[other]
                &&& after.established.dom().contains(other) <==> host.established.dom().contains(
                    other,
                )
                &&& host.established.dom().contains(other) ==> after.established[other]
                    == host.established[other]
            }
            &&& same_host(host, after)
        }),
{
}

/// A sweep drops exactly the entries that were last touched more than the given
/// number of ticks ago, and names them; it leaves the rest as they are.
pub proof fn sweeps_drop_the_idle(host: HostView, max_idle_ticks: u64, addr: UdpAddr)
    ensures
        ({
            let after = host.without_idle(max_idle_ticks);
            &&& after.handshakes.dom().contains(addr) <==> host.handshakes.dom().contains(addr)
                && host.tick - host.handshakes[addr].last_activity <= max_idle_ticks
            &&& after.handshakes.dom().contains(addr) ==> after.handshakes[addr]
                == host.handshakes[addr]
            &&& host.idle_handshakes(max_idle_ticks).contains(addr)
                <==> host.handshakes.dom().contains(addr) && !after.handshakes.dom().contains(addr)
            &&& after.established.dom().contains(addr) <==> host.established.dom().contains(addr)
                && host.tick - host.established[addr].last_activity <= max_idle_ticks
            &&& after.established.dom().contains(addr) ==> after.established[addr]
                == host.established[addr]
            &&& host.idle_connections(max_idle_ticks).contains(addr)
                <==> host.established.dom().contains(addr) && !after.established.dom().contains(
                addr,
            )
            &&& same_host(host, after)
        }),
{
}

// ------------------------------------------------------------------- fan-out

/// A plaintext for many addresses, each named once: every one gets one datagram, in
/// their order, under its own session; each of these sessions moves on by one, and no
/// other state changes.
pub proof fn fan_outs_reach_every_address(
    host: HostView,
    addrs: Seq<UdpAddr>,
    plaintext: Seq<u8>,
    n: nat,
)
    requires
        n <= addrs.len(),
        forall|i: int, j: int|
            0 <= i < j < addrs.len() ==> #[trigger] addrs[i] != #[trigger] addrs[j],
    ensures
        sent_to_each(host, addrs, plaintext, n) matches Ok((after, out)) ==> {
            &&& out.len() == n
            &&& forall|i: int|
                0 <= i < n ==> (#[trigger] out[i]) == (OutboundView {
                    addr: addrs[i],
                    datagram: host.established[addrs[i]].transport.datagram(plaintext),
                })
            &&& after.established.dom() == host.established.dom()
            &&& forall|i: int|
                0 <= i < n ==> after.established[#[trigger] addrs[i]].transport
                    == host.established[addrs[i]].transport.sent() && host.established.dom().contains(
                    addrs[i],
                )
            &&& forall|a: UdpAddr|
                (forall|i: int| 0 <= i < n ==> #[trigger] addrs[i] != a)
                    ==> #[trigger] after.established[a] == host.established[a]
            &&& after.handshakes == host.handshakes
            &&& same_host(host, after)
        },
        (forall|i: int|
            0 <= i < n ==> host.established.dom().contains(#[trigger] addrs[i])
                && host.established[addrs[i]].transport.send_error(plaintext) is None)
            ==> sent_to_each(host, addrs, plaintext, n) is Ok,
    decreases n,
{
    if n > 0 {
        let m = (n - 1) as nat;
        fan_outs_reach_every_address(host, addrs, plaintext, m);
        let a = addrs[m as int];
        assert(forall|i: int| 0 <= i < m ==> #[trigger] addrs[i] != a);
        if let Ok((mid, before)) = sent_to_each(host, addrs, plaintext, m) {
            assert(mid.established[a] == host.established[a]);
            if let Ok((after, out)) = sent_to_each(host, addrs, plaintext, n) {
                assert(after.established.dom() =~= host.established.dom());
                assert forall|i: int| 0 <= i < n implies (#[trigger] out[i]) == (OutboundView {
                    addr: addrs[i],
                    datagram: host.established[addrs[i]].transport.datagram(plaintext),
                }) by {
                    if i < m {
                        assert(out[i] == before[i]);
                    }
                }
                assert forall|i: int| 0 <= i < n implies after.established[#[trigger] addrs[i]].transport
                    == host.established[addrs[i]].transport.sent() && host.established.dom().contains(
                    addrs[i],
                ) by {
                    if i < m {
                        assert(addrs[i] != a);
                        assert(after.established[addrs[i]] == mid.established[addrs[i]]);
                    }
                }
                assert forall|x: UdpAddr|
                    (forall|i: int| 0 <= i < n ==> #[trigger] addrs[i] != x) implies #[trigger] after.established[x]
                    == host.established[x] by {
                    assert(addrs[m as int] != x);
                    assert(forall|i: int| 0 <= i < m ==> #[trigger] addrs[i] != x);
                    assert(mid.established[x] == host.established[x]);
                }
            }
        }
    }
}

/// A fan-out that fails hands out the datagrams for the addresses before the one that
/// could not be sent to, and names the reason of that one.
pub proof fn failed_fan_outs_name_the_first_failure(
    host: HostView,
    addrs: Seq<UdpAddr>,
    plaintext: Seq<u8>,
    n: nat,
) -> (i: nat)
    requires
        sent_to_each(host, addrs, plaintext, n) is Err,
    ensures
        i < n,
        sent_to_each(host, addrs, plaintext, i) matches Ok((mid, out)) && sent_to_each(
            host,
            addrs,
            plaintext,
            n,
        ) matches Err(e) && e.outbound == out && mid.send_error(addrs[i as int], plaintext) == Some(
            e.error,
        ),
    decreases n,
{
    let m = (n - 1) as nat;
    if sent_to_each(host, addrs, plaintext, m) is Err {
        failed_fan_outs_name_the_first_failure(host, addrs, plaintext, m)
    } else {
        m
    }
}

/// The clock counts what is done: dialing, sending and every datagram that is not a
/// mere challenge or refused by a session move it on by one. It starts over only
/// after its last tick.
pub proof fn host_clocks_move_on(
    host: HostView,
    addr: UdpAddr,
    datagram: Seq<u8>,
    seed: Seq<u8>,
    max_idle_ticks: u64,
)
    requires
        host.tick < u64::MAX,
    ensures
        ({
            let step = host.step(addr, datagram, seed);
            let idle = (host.established.dom().contains(addr) && step.event is Rejected) || (
            !host.established.dom().contains(addr) && host.handshakes.dom().contains(addr)
                && host.handshakes[addr].state is Initiator && datagram.len() == 17 && datagram[0]
                == 0xC0);
            &&& host.dialed(addr, seed).tick == host.tick + 1
            &&& host.sent(addr).tick == host.tick + 1
            &&& host.ticked().tick == host.tick + 1
            &&& step.host.tick == if idle {
                host.tick as int
            } else {
                host.tick + 1
            }
            &&& host.evicted(addr).tick == host.tick
            &&& host.without_idle(max_idle_ticks).tick == host.tick
        }),
{
}

/// The first message to a dialed peer is the ephemeral public key.
pub proof fn dials_open_with_the_ephemeral_key(host: HostView, seed: Seq<u8>)
    ensures
        host.dial_message(seed) == crate::crypto::x25519_public(seed),
{
}

/// Whatever a host says of a datagram, it says it of the address that it came from,
/// and sends to no other.
pub proof fn hosts_answer_the_sender(
    host: HostView,
    from: UdpAddr,
    datagram: Seq<u8>,
    seed: Seq<u8>,
)
    ensures
        host.step(from, datagram, seed).outbound matches Some(o) ==> o.addr == from,
        match host.step(from, datagram, seed).event {
            HostEventView::HandshakeProgress { addr } => addr == from,
            HostEventView::HandshakeComplete { addr, .. } => addr == from,
            HostEventView::DatagramDelivered { addr, .. } => addr == from,
            HostEventView::Rejected { addr, .. } => addr == from,
        },
        host.step(from, datagram, seed).event is DatagramDelivered
            ==> host.established.dom().contains(from),
        host.step(from, datagram, seed).event is Rejected ==> host.step(
            from,
            datagram,
            seed,
        ).outbound is None,
{
}

/// What a cookie is bound to: an IPv4 address with its port, and an IPv6 address with
/// its port; an IPv4 address that is written as an IPv6 one counts as the former.
pub proof fn cookies_tell_sources_apart(a: UdpAddr, b: UdpAddr)
    ensures
        match (a, b) {
            (UdpAddr::V4 { .. }, UdpAddr::V4 { .. }) => canonical(a) == canonical(b) <==> a == b,
            (
                UdpAddr::V6 { ip6: x, port: p, .. },
                UdpAddr::V6 { ip6: y, port: q, .. },
            ) => canonical(a) == canonical(b) <==> x == y && p == q,
            (UdpAddr::V4 { ip, port: p }, UdpAddr::V6 { ip6, port: q, .. }) => canonical(a)
                == canonical(b) <==> ip6 == 0xffff_0000_0000 + ip && p == q,
            (UdpAddr::V6 { ip6, port: q, .. }, UdpAddr::V4 { ip, port: p }) => canonical(a)
                == canonical(b) <==> ip6 == 0xffff_0000_0000 + ip && p == q,
        },
{
}

/// A cookie is the first half of the keyed hash, under the host's secret, of what it
/// is bound to: the source and the ephemeral key.
pub proof fn cookies_are_keyed_hashes(secret: Seq<u8>, from: UdpAddr, e: Seq<u8>)
    ensures
        cookie(secret, from, e) == blake3_keyed_hash(secret, cookie_input(from, e)).take(16),
        challenge_bytes(secret, from, e) == seq![0xC0u8] + cookie(secret, from, e),
        cookie_input(from, e).len() >= e.len() && cookie_input(from, e).skip(
            cookie_input(from, e).len() - e.len(),
        ) == e,
{
    let input = cookie_input(from, e);
    assert(input.skip(input.len() - e.len()) =~= e);
}

} // verus!
