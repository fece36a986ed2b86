//! Two hosts of one process, connected without a socket.
use vstd::prelude::*;
use crate::addr::UdpAddr;
use crate::crypto::{ed25519_is_neutral, x25519_public};
use crate::error::Error;
use crate::host::cookie::{challenge_bytes, cookie};
use crate::host::host::Host;
use crate::host::model::{dialing_establishes_both_sides, HostView};
use crate::noise::handshake::{read_e_spec, write_e_spec};

verus! {

/// Whether each of two hosts has established the other, under its identity, with
/// the two ends of one session.
pub open spec fn linked(a: HostView, addr_a: UdpAddr, b: HostView, addr_b: UdpAddr) -> bool {
    &&& a.established.dom().contains(addr_b)
    &&& a.established[addr_b].remote_peer_id == b.peer_id()
    &&& a.established[addr_b].remote_static == x25519_public(b.static_private)
    &&& b.established.dom().contains(addr_a)
    &&& b.established[addr_a].remote_peer_id == a.peer_id()
    &&& b.established[addr_a].remote_static == x25519_public(a.static_private)
    &&& b.established[addr_a].transport.mirrors(a.established[addr_b].transport)
}

/// Lets one host dial another and carries the five datagrams between them. Fails
/// only where the dialing host knows the address already.
pub fn link(
    dialer: Host,
    dialer_addr: UdpAddr,
    responder: Host,
    responder_addr: UdpAddr,
    dialer_seed: [u8; 32],
    responder_seed: [u8; 32],
) -> (r: Result<(Host, Host), Error>)
    requires
        !responder@.knows(dialer_addr),
        !ed25519_is_neutral(dialer@.binding.signature.take(32)),
        !ed25519_is_neutral(responder@.binding.signature.take(32)),
    ensures
        match r {
            Ok((a, b)) => {
                &&& dialer@.dial_error(responder_addr) is None
                &&& linked(a@, dialer_addr, b@, responder_addr)
                &&& a@.peer_id() == dialer@.peer_id()
                &&& b@.peer_id() == responder@.peer_id()
            },
            Err(e) => dialer@.dial_error(responder_addr) == Some(e@),
        },
{
    let ghost a = dialer@;
    let ghost b = responder@;
    let ghost msg1 = a.dial_message(dialer_seed@);
    let _ = dialer.handshakes_in_flight();
    let _ = responder.handshakes_in_flight();
    let (dialer, first) = match dialer.dial(responder_addr, dialer_seed) {
        Err(e) => {
            return Err(e);
        },
        Ok(step) => step,
    };
    let unused: [u8; 32] = [0u8; 32];
    let ghost after_e = write_e_spec(a.static_private, dialer_seed@).0;
    assert(first@.datagram == msg1);
    let (responder, _, reply) = responder.recv_one(dialer_addr, first.datagram.as_slice(), unused);
    let challenge = reply.unwrap();
    let ghost c1 = challenge_bytes(b.cookie_secret, dialer_addr, msg1);
    assert(challenge@.datagram == c1);
    let (dialer, _, reply) = dialer.recv_one(responder_addr, challenge.datagram.as_slice(), unused);
    let echo = reply.unwrap();
    proof {
        let e1 = echo@.datagram;
        assert(e1 == msg1 + c1.subrange(1, 17));
        assert(e1.subrange(0, 32) =~= msg1);
        assert(e1.subrange(32, 48) =~= c1.subrange(1, 17));
        assert(c1.subrange(1, 17) =~= cookie(b.cookie_secret, dialer_addr, msg1));
    }
    let (responder, _, reply) = responder.recv_one(
        dialer_addr,
        echo.datagram.as_slice(),
        responder_seed,
    );
    let second = reply.unwrap();
    proof {
        assert(b.ticked().msg2_readable(msg1, responder_seed@));
        assert(b.msg2_readable(msg1, responder_seed@));
        let awaiting = read_e_spec(b.static_private, msg1)->Ok_0;
        assert(after_e.paired(awaiting));
        assert(after_e.read_response(second@.datagram) is Ok);
    }
    let (dialer, _, reply) = dialer.recv_one(responder_addr, second.datagram.as_slice(), unused);
    let third = reply.unwrap();
    let (responder, _, _) = responder.recv_one(dialer_addr, third.datagram.as_slice(), unused);
    proof {
        assert(a.msg3_readable(after_e.read_response(second@.datagram)->Ok_0.0));
        dialing_establishes_both_sides(
            a,
            b,
            dialer_addr,
            responder_addr,
            dialer_seed@,
            responder_seed@,
            unused@,
        );
    }
    Ok((dialer, responder))
}

} // verus!
