//! What a session remembers, and what the keys of a session rest on.
use vstd::prelude::*;
use crate::bytes::{
    be_bytes, be_value, lemma_be_bytes_len, lemma_be_value_of_bytes, lemma_pow256_widths,
};
use crate::crypto::{
    aead_open, aead_seal, blake3_hash, blake3_keyed_xof64, x25519_public, x25519_shared,
};
use crate::error::ErrorView;
use crate::noise::handshake::{
    read_e_spec, write_e_spec, InitiatorAfterEView, InitiatorAfterResponseView,
    ResponderAfterEView, ResponderAfterResponseView,
};
use crate::noise::symmetric::PROTOCOL_NAME;
use crate::noise::transport::{
    accepted_nonce_is_spent, datagram_nonce, fresh_nonce_stays_fresh, lemma_window_after,
    spent_nonce_stays_spent, TransportView,
};

verus! {

// ----------------------------------------------------------------- sessions

/// A session that has received nothing takes every nonce; and no session takes one
/// that lies the width of the window or more below the highest that it accepted.
pub proof fn windows_have_their_width(session: TransportView, nonce: u64)
    ensures
        TransportView::initial(session.send_key, session.recv_key).takes(nonce),
        nonce > session.recv_max_nonce ==> session.takes(nonce),
        session.recv_max_nonce - nonce >= 64 ==> !session.takes(nonce),
{
    assert((0u64 >> 0u64) & 1 == 0) by (bit_vector);
}

/// Accepting a datagram spends its nonce and no other: exactly the nonces that could
/// be taken before, but for this one, can be taken afterwards while they lie inside
/// the window below the highest nonce accepted.
pub proof fn accepting_spends_one_nonce(session: TransportView, datagram: Seq<u8>, nonce: u64)
    requires
        session.received(datagram) is Ok,
    ensures
        ({
            let after = session.after(datagram);
            let spent = be_value(datagram.subrange(0, 8)) as u64;
            &&& session.takes(spent)
            &&& after.recv_max_nonce == if spent > session.recv_max_nonce {
                spent
            } else {
                session.recv_max_nonce
            }
            &&& after.takes(nonce) <==> session.takes(nonce) && nonce != spent && (nonce
                > after.recv_max_nonce || after.recv_max_nonce - nonce < 64)
            &&& after.send_nonce == session.send_nonce
            &&& after.send_key == session.send_key
            &&& after.recv_key == session.recv_key
        }),
{
    let spent = datagram_nonce(datagram);
    let after = session.after(datagram);
    let next = (after.recv_replay_window, after.recv_max_nonce);
    lemma_window_after(session.recv_replay_window, session.recv_max_nonce, spent);
    accepted_nonce_is_spent(session.recv_replay_window, session.recv_max_nonce, spent, next);
    if !session.takes(nonce) {
        spent_nonce_stays_spent(
            session.recv_replay_window,
            session.recv_max_nonce,
            spent,
            next,
            nonce,
        );
    } else if nonce != spent && (nonce > after.recv_max_nonce || after.recv_max_nonce - nonce
        < 64) {
        fresh_nonce_stays_fresh(
            session.recv_replay_window,
            session.recv_max_nonce,
            spent,
            next,
            nonce,
        );
    }
}

/// A datagram is refused unless it carries a nonce that can be taken and opens under
/// the receiving key with that nonce; what it opens to is what is received. A refused
/// datagram leaves the session as it was.
pub proof fn sessions_receive_what_opens(session: TransportView, datagram: Seq<u8>)
    ensures
        match session.received(datagram) {
            Ok(plaintext) => {
                let nonce = be_value(datagram.subrange(0, 8)) as u64;
                &&& datagram.len() >= 24
                &&& session.takes(nonce)
                &&& aead_open(
                    session.recv_key,
                    seq![0u8, 0u8, 0u8, 0u8] + be_bytes(nonce as nat, 8).reverse(),
                    Seq::empty(),
                    datagram.subrange(8, datagram.len() as int),
                ) == Some(plaintext)
            },
            Err(e) => {
                let nonce = be_value(datagram.subrange(0, 8)) as u64;
                let read = aead_open(
                    session.recv_key,
                    seq![0u8, 0u8, 0u8, 0u8] + be_bytes(nonce as nat, 8).reverse(),
                    Seq::empty(),
                    datagram.subrange(8, datagram.len() as int),
                );
                &&& session.after(datagram) == session
                &&& match e {
                    ErrorView::NoiseProtocol(_) => datagram.len() < 24,
                    ErrorView::NoiseReplay(n) => datagram.len() >= 24 && !session.takes(nonce) && n
                        == nonce,
                    ErrorView::NoiseDecrypt => datagram.len() >= 24 && session.takes(nonce) && (
                    datagram.len() < 0x1_0000_0000 ==> read is None),
                    _ => false,
                }
            },
        },
{
}

/// What is sent carries the session's counter in front and is sealed under the
/// sending key with that counter as its nonce. The counter moves on by one, so no
/// nonce is used twice, and receiving is not touched.
pub proof fn sessions_send_under_fresh_nonces(session: TransportView, plaintext: Seq<u8>)
    requires
        session.send_error(plaintext) is None,
    ensures
        ({
            let datagram = session.datagram(plaintext);
            let after = session.sent();
            &&& datagram_nonce(datagram) == session.send_nonce
            &&& datagram.take(8) == be_bytes(session.send_nonce as nat, 8)
            &&& datagram.skip(8) == aead_seal(
                session.send_key,
                seq![0u8, 0u8, 0u8, 0u8] + be_bytes(session.send_nonce as nat, 8).reverse(),
                Seq::empty(),
                plaintext,
            )
            &&& after.send_nonce == session.send_nonce + 1
            &&& after.send_key == session.send_key
            &&& after.recv_key == session.recv_key
            &&& after.recv_max_nonce == session.recv_max_nonce
            &&& after.recv_replay_window == session.recv_replay_window
        }),
{
    broadcast use lemma_be_bytes_len;

    let datagram = session.datagram(plaintext);
    lemma_pow256_widths();
    lemma_be_value_of_bytes(session.send_nonce as nat, 8);
    assert(datagram.subrange(0, 8) =~= be_bytes(session.send_nonce as nat, 8));
    assert(datagram.take(8) =~= be_bytes(session.send_nonce as nat, 8));
    assert(datagram.skip(8) =~= aead_seal(
        session.send_key,
        seq![0u8, 0u8, 0u8, 0u8] + be_bytes(session.send_nonce as nat, 8).reverse(),
        Seq::empty(),
        plaintext,
    ));
}

// --------------------------------------------------------------- handshakes

/// The chaining key that an agreement leads to.
pub open spec fn chained(key: Seq<u8>, agreement: Seq<u8>) -> Seq<u8> {
    blake3_keyed_xof64(key, agreement).subrange(0, 32)
}

/// The cipher key that an agreement leads to.
pub open spec fn keyed(key: Seq<u8>, agreement: Seq<u8>) -> Seq<u8> {
    blake3_keyed_xof64(key, agreement).subrange(32, 64)
}

/// The first message is the ephemeral public key, and both sides hash it.
pub proof fn first_messages_are_hashed(s: Seq<u8>, seed: Seq<u8>, rs: Seq<u8>)
    requires
        x25519_public(seed).len() == 32,
    ensures
        ({
            let (initiator, msg) = write_e_spec(s, seed);
            let heard = read_e_spec(rs, msg);
            let h = blake3_hash(blake3_hash(PROTOCOL_NAME@ + msg) + Seq::<u8>::empty());
            &&& msg == x25519_public(seed)
            &&& initiator.s == s && initiator.e == seed
            &&& initiator.sym.chaining_key == PROTOCOL_NAME@
            &&& initiator.sym.hash == h
            &&& heard matches Ok(responder) && responder.s == rs && responder.re == msg
                && responder.sym == initiator.sym
        }),
{
}

/// The second message: the responder's ephemeral key in the clear, its static key
/// under the agreement of the ephemerals, its trailer under the agreement of its
/// static key with the initiator's ephemeral as well; and everything is hashed in.
pub proof fn second_messages_rest_on_two_agreements(
    responder: ResponderAfterEView,
    seed: Seq<u8>,
    payload: Seq<u8>,
)
    requires
        x25519_public(seed).len() == 32,
    ensures
        ({
            let re = x25519_public(seed);
            let ck1 = chained(responder.sym.chaining_key, x25519_shared(seed, responder.re));
            let k1 = keyed(responder.sym.chaining_key, x25519_shared(seed, responder.re));
            let h1 = blake3_hash(responder.sym.hash + re);
            let c1 = aead_seal(
                k1,
                seq![0u8, 0u8, 0u8, 0u8] + be_bytes(0, 8).reverse(),
                h1,
                x25519_public(responder.s),
            );
            let ck2 = chained(ck1, x25519_shared(responder.s, responder.re));
            let k2 = keyed(ck1, x25519_shared(responder.s, responder.re));
            let h2 = blake3_hash(h1 + c1);
            let c2 = aead_seal(
                k2,
                seq![0u8, 0u8, 0u8, 0u8] + be_bytes(0, 8).reverse(),
                h2,
                payload,
            );
            let after = responder.after_response(seed, payload);
            &&& responder.response(seed, payload) == re + c1 + c2
            &&& after.e == seed
            &&& after.sym.chaining_key == ck2
            &&& after.sym.cipher_key == Some(k2)
            &&& after.sym.nonce == 1
            &&& after.sym.hash == blake3_hash(h2 + c2)
        }),
{
}

/// The third message: the initiator's static key under what both agreed on so far,
/// its trailer under the agreement of its static key with the responder's ephemeral
/// as well. The session's keys rest on all three agreements.
pub proof fn sessions_rest_on_three_agreements(
    initiator: InitiatorAfterResponseView,
    key: Seq<u8>,
    payload: Seq<u8>,
)
    requires
        initiator.sym.cipher_key == Some(key),
    ensures
        ({
            let c1 = aead_seal(
                key,
                seq![0u8, 0u8, 0u8, 0u8] + be_bytes(initiator.sym.nonce, 8).reverse(),
                initiator.sym.hash,
                x25519_public(initiator.s),
            );
            let agreement = x25519_shared(initiator.s, initiator.re);
            let ck3 = chained(initiator.sym.chaining_key, agreement);
            let k3 = keyed(initiator.sym.chaining_key, agreement);
            let c2 = aead_seal(
                k3,
                seq![0u8, 0u8, 0u8, 0u8] + be_bytes(0, 8).reverse(),
                blake3_hash(initiator.sym.hash + c1),
                payload,
            );
            let session = initiator.session(payload);
            &&& initiator.final_message(payload) == c1 + c2
            &&& session.send_key == blake3_keyed_xof64(ck3, Seq::empty()).subrange(0, 32)
            &&& session.recv_key == blake3_keyed_xof64(ck3, Seq::empty()).subrange(32, 64)
            &&& session.send_nonce == 0
            &&& session.recv_max_nonce == 0
            &&& session.recv_replay_window == 0
        }),
{
}

/// What an initiator reads from a second message: the ephemeral key in front, the
/// static key that opens under the agreement of the ephemerals, the trailer that
/// opens under the agreement with that static key as well. It goes on from the same
/// keys and hash as the responder.
pub proof fn second_messages_are_read_under_two_agreements(
    initiator: InitiatorAfterEView,
    msg: Seq<u8>,
)
    requires
        msg.len() < 0x1_0000_0000,
    ensures
        ({
            let re = msg.subrange(0, 32);
            let ck1 = chained(initiator.sym.chaining_key, x25519_shared(initiator.e, re));
            let k1 = keyed(initiator.sym.chaining_key, x25519_shared(initiator.e, re));
            let h1 = blake3_hash(initiator.sym.hash + re);
            let zero = seq![0u8, 0u8, 0u8, 0u8] + be_bytes(0, 8).reverse();
            let rs = aead_open(k1, zero, h1, msg.subrange(32, 80));
            let ck2 = chained(ck1, x25519_shared(initiator.e, rs->Some_0));
            let k2 = keyed(ck1, x25519_shared(initiator.e, rs->Some_0));
            let h2 = blake3_hash(h1 + msg.subrange(32, 80));
            let trailer = msg.subrange(80, msg.len() as int);
            let payload = aead_open(k2, zero, h2, trailer);
            match initiator.read_response(msg) {
                Ok((after, read)) => {
                    &&& msg.len() >= 96
                    &&& rs is Some && payload == Some(read)
                    &&& after.s == initiator.s
                    &&& after.re == re
                    &&& after.rs == rs->Some_0
                    &&& after.sym.chaining_key == ck2
                    &&& after.sym.cipher_key == Some(k2)
                    &&& after.sym.nonce == 1
                    &&& after.sym.hash == blake3_hash(h2 + trailer)
                },
                Err(_) => msg.len() < 96 || rs is None || payload is None,
            }
        }),
{
}

/// What a responder reads from a third message: the static key that opens under what
/// both agreed on so far, the trailer that opens under the agreement with that static
/// key as well. Its session holds the initiator's keys the other way round.
pub proof fn third_messages_are_read_under_three_agreements(
    responder: ResponderAfterResponseView,
    key: Seq<u8>,
    msg: Seq<u8>,
)
    requires
        responder.sym.cipher_key == Some(key),
        msg.len() < 0x1_0000_0000,
    ensures
        ({
            let zero = seq![0u8, 0u8, 0u8, 0u8] + be_bytes(0, 8).reverse();
            let rs = aead_open(
                key,
                seq![0u8, 0u8, 0u8, 0u8] + be_bytes(responder.sym.nonce, 8).reverse(),
                responder.sym.hash,
                msg.subrange(0, 48),
            );
            let agreement = x25519_shared(responder.e, rs->Some_0);
            let ck3 = chained(responder.sym.chaining_key, agreement);
            let k3 = keyed(responder.sym.chaining_key, agreement);
            let payload = aead_open(
                k3,
                zero,
                blake3_hash(responder.sym.hash + msg.subrange(0, 48)),
                msg.subrange(48, msg.len() as int),
            );
            match responder.read_s(msg) {
                Ok((session, remote, read)) => {
                    &&& msg.len() >= 64
                    &&& rs == Some(remote) && payload == Some(read)
                    &&& session.recv_key == blake3_keyed_xof64(ck3, Seq::empty()).subrange(0, 32)
                    &&& session.send_key == blake3_keyed_xof64(ck3, Seq::empty()).subrange(32, 64)
                    &&& session.send_nonce == 0
                    &&& session.recv_max_nonce == 0
                    &&& session.recv_replay_window == 0
                },
                Err(_) => msg.len() < 64 || rs is None || payload is None,
            }
        }),
{
}

} // verus!
