//! What stands where on the wire, how things are ordered, and what an identity
//! and a tag prove.
use vstd::prelude::*;
use crate::addr::UdpAddr;
use crate::bytes::{
    be_bytes, be_value, lemma_be_bytes_len, lemma_be_bytes_of_value, lemma_be_value_bound,
    lemma_pow256_widths, lex_before, pow256,
};
use crate::crypto::{
    blake3_hash, blake3_keyed_hash, ed25519_point_error, ed25519_public, ed25519_signature,
    ed25519_verify_error,
};
use crate::host::event::HostEventView;
use crate::host::model::{bound_peer, HostView};
use crate::host::state::HandshakeStateView;
use crate::identity::keypair::DOMAIN_TAG;
use crate::identity::signed_static_key::SignedStaticKeyView;
use crate::kad::bucket::Peers;
use crate::kad::codec::FrameView;
use crate::kad::distance::Distance;
use crate::kad::node_id::NodeId;
use crate::mux::node::{KIND_APP, KIND_KAD, KIND_PUBSUB, KIND_RENDEZVOUS, KIND_RPC};
use crate::ordered_map::OrderedKey;
use crate::peer_id::peer_id_bytes;
use crate::pubsub::auth::{KeyedHashAuthenticator, NullAuthenticator, WireAuthenticator};
use crate::pubsub::codec::{parse, PubsubFrameView};
use crate::pubsub::model::of_kind;
use crate::pubsub::mux::vectors_error;
use crate::pubsub::topic::{is_topic, Topic};
use crate::rlnc::{joined, PieceView};
use crate::text::{decimal, hex};

verus! {

// ------------------------------------------------------------------ numbers

/// The byte at `i` of a number is the digit to base 256 that belongs there, the most
/// significant first.
pub proof fn numbers_are_big_endian(n: nat, len: nat, i: int)
    requires
        0 <= i < len,
    ensures
        be_bytes(n, len)[i] as nat == (n / pow256((len - 1 - i) as nat)) % 256,
    decreases len,
{
    broadcast use lemma_be_bytes_len;

    if i == len - 1 {
        assert((len - 1 - i) as nat == 0);
        assert(pow256(0) == 1);
        assert(n / 1 == n);
        let head = be_bytes(n / 256, (len - 1) as nat);
        assert(head.len() == i);
        assert(be_bytes(n, len) == head.push((n % 256) as u8));
    } else {
        let head = be_bytes(n / 256, (len - 1) as nat);
        numbers_are_big_endian(n / 256, (len - 1) as nat, i);
        assert(be_bytes(n, len)[i] == head[i]);
        let p = pow256((len - 2 - i) as nat);
        lemma_pow256_positive((len - 2 - i) as nat);
        assert(pow256((len - 1 - i) as nat) == 256 * p);
        vstd::arithmetic::div_mod::lemma_div_denominator(n as int, 256, p as int);
        assert(n / (256 * p) == (n / 256) / p);
        assert(((len - 1) as nat - 1 - i) as nat == (len - 2 - i) as nat);
    }
}

/// A power of 256 is not zero.
proof fn lemma_pow256_positive(k: nat)
    ensures
        pow256(k) > 0,
    decreases k,
{
    if k > 0 {
        lemma_pow256_positive((k - 1) as nat);
    }
}

/// The first byte counts most.
proof fn lemma_first_byte(s: Seq<u8>)
    requires
        s.len() > 0,
    ensures
        be_value(s) == s[0] as nat * pow256((s.len() - 1) as nat) + be_value(s.drop_first()),
    decreases s.len(),
{
    if s.len() == 1 {
        assert(s.drop_last() =~= Seq::<u8>::empty());
        assert(s.drop_first() =~= Seq::<u8>::empty());
        assert(be_value(s.drop_last()) == 0);
        assert(be_value(s.drop_first()) == 0);
        assert(pow256(0) == 1);
        assert(s.last() == s[0]);
        assert(s[0] as nat * 1 == s[0] as nat) by (nonlinear_arith);
    } else {
        let t = s.drop_last();
        lemma_first_byte(t);
        assert(t[0] == s[0]);
        assert(s.drop_first().drop_last() =~= t.drop_first());
        assert(s.drop_first().last() == s.last());
        let p = pow256((s.len() - 2) as nat);
        assert(pow256((s.len() - 1) as nat) == 256 * p);
        let a = s[0] as nat;
        let r = be_value(t.drop_first());
        assert((a * p + r) * 256 == a * (256 * p) + r * 256) by (nonlinear_arith);
    }
}

/// Byte strings of one length come in the order of the numbers that they spell.
pub proof fn equal_lengths_compare_as_numbers(a: Seq<u8>, b: Seq<u8>)
    requires
        a.len() == b.len(),
    ensures
        lex_before(a, b) <==> be_value(a) < be_value(b),
    decreases a.len(),
{
    if a.len() > 0 {
        let x = a.drop_first();
        let y = b.drop_first();
        equal_lengths_compare_as_numbers(x, y);
        lemma_first_byte(a);
        lemma_first_byte(b);
        lemma_be_value_bound(x);
        lemma_be_value_bound(y);
        let p = pow256((a.len() - 1) as nat);
        let u = a[0] as nat;
        let v = b[0] as nat;
        if u < v {
            assert(u * p + p <= v * p) by (nonlinear_arith)
                requires
                    u < v,
            ;
        } else if v < u {
            assert(v * p + p <= u * p) by (nonlinear_arith)
                requires
                    v < u,
            ;
        }
    }
}

// ------------------------------------------------------------------- orders

/// Distances are ordered as numbers.
pub proof fn distances_are_ordered_as_numbers(a: Seq<u8>, b: Seq<u8>)
    requires
        a.len() == 32,
        b.len() == 32,
    ensures
        Distance::precedes(a, b) <==> be_value(a) < be_value(b),
{
    equal_lengths_compare_as_numbers(a, b);
}

/// Addresses are ordered by family, address and port.
pub proof fn addresses_are_ordered(ip: u32, port: u16, other: u32, at: u16, ip6: u128, other6: u128)
    ensures
        UdpAddr::precedes(UdpAddr::V4 { ip, port }, UdpAddr::V4 { ip: other, port: at }) <==> ip
            < other || ip == other && port < at,
        UdpAddr::precedes(
            UdpAddr::V4 { ip, port },
            UdpAddr::V6 { ip6, port: at, flowinfo: 0, scope_id: 0 },
        ),
        UdpAddr::precedes(
            UdpAddr::V6 { ip6, port, flowinfo: 0, scope_id: 0 },
            UdpAddr::V6 { ip6: other6, port: at, flowinfo: 0, scope_id: 0 },
        ) <==> ip6 < other6 || ip6 == other6 && port < at,
{
}

/// Topics are ordered as their names.
pub proof fn topics_are_ordered_by_name(a: Seq<u8>, b: Seq<u8>)
    ensures
        Topic::precedes(a, b) <==> lex_before(a, b),
{
}

/// A name is that of a topic exactly if it has 1 to 255 bytes, all of them printable
/// and none of them a space.
pub proof fn topics_are_printable(name: Seq<u8>)
    ensures
        is_topic(name) <==> name.len() != 0 && name.len() < 256 && forall|i: int|
            0 <= i < name.len() ==> 0x20 < #[trigger] name[i] && name[i] < 0x7F,
{
}

// --------------------------------------------------------------- identities

/// A peer identifier is the key behind the six bytes that announce it.
pub proof fn peer_identifiers_hold_the_key(key: Seq<u8>)
    ensures
        peer_id_bytes(key).take(6) == seq![0x00u8, 0x24u8, 0x08u8, 0x01u8, 0x12u8, 0x20u8],
        peer_id_bytes(key).skip(6) == key,
{
    assert(peer_id_bytes(key).take(6) =~= seq![0x00u8, 0x24u8, 0x08u8, 0x01u8, 0x12u8, 0x20u8]);
    assert(peer_id_bytes(key).skip(6) =~= key);
}

/// A trailer proves a peer exactly if it is a key and a signature by that key over
/// the static key of the session, behind the tag of its domain; the peer is the one
/// whose identifier holds that key.
pub proof fn trailers_prove_by_signature(payload: Seq<u8>, remote_static: Seq<u8>)
    ensures
        ({
            let key = payload.subrange(0, 32);
            let signature = payload.subrange(32, 96);
            let proven = payload.len() == 96 && ed25519_point_error(key) is None
                && ed25519_verify_error(key, DOMAIN_TAG@ + remote_static, signature) is None;
            match bound_peer(payload, remote_static) {
                Ok(peer_id) => proven && peer_id == seq![
                    0x00u8,
                    0x24u8,
                    0x08u8,
                    0x01u8,
                    0x12u8,
                    0x20u8,
                ] + key,
                Err(_) => !proven,
            }
        }),
{
}

/// A host's own binding is its identity's signature over its static key, behind the
/// tag of its domain, and goes out as key and signature.
pub proof fn bindings_are_signatures(seed: Seq<u8>, static_pub: Seq<u8>)
    ensures
        ({
            let binding = SignedStaticKeyView::of(seed, static_pub);
            &&& binding.public_key == ed25519_public(seed)
            &&& binding.signature == ed25519_signature(seed, DOMAIN_TAG@ + static_pub)
            &&& binding.wire() == ed25519_public(seed) + ed25519_signature(
                seed,
                DOMAIN_TAG@ + static_pub,
            )
        }),
{
}

/// A peer that is told to have completed a handshake has proven itself: the trailer
/// of its message is a signature by its identity over its static key.
pub proof fn completed_peers_have_signed(
    host: HostView,
    from: UdpAddr,
    datagram: Seq<u8>,
    seed: Seq<u8>,
)
    requires
        !host.established.dom().contains(from),
    ensures
        host.step(from, datagram, seed).event matches HostEventView::HandshakeComplete {
            addr,
            remote_static,
            remote_peer_id,
        } ==> {
            &&& addr == from
            &&& host.handshakes.dom().contains(from)
            &&& exists|payload: Seq<u8>|
                {
                    &&& (match host.handshakes[from].state {
                        HandshakeStateView::Initiator { after_e, .. } => {
                            after_e.read_response(datagram) matches Ok((after, read)) && read
                                == payload && after.rs == remote_static
                        },
                        HandshakeStateView::Responder(after_resp) => {
                            after_resp.read_s(datagram) matches Ok((_, rs, read)) && read == payload
                                && rs == remote_static
                        },
                    })
                    &&& payload.len() == 96
                    &&& ed25519_verify_error(
                        payload.subrange(0, 32),
                        DOMAIN_TAG@ + remote_static,
                        #[trigger] payload.subrange(32, 96),
                    ) is None
                    &&& remote_peer_id == peer_id_bytes(payload.subrange(0, 32))
                }
        },
{
    let step = host.step(from, datagram, seed);
    if step.event is HandshakeComplete {
        match host.handshakes[from].state {
            HandshakeStateView::Initiator { after_e, .. } => {
                let (after, payload) = after_e.read_response(datagram)->Ok_0;
                trailers_prove_by_signature(payload, after.rs);
                assert(payload.subrange(32, 96).len() == 64);
            },
            HandshakeStateView::Responder(after_resp) => {
                let (_, rs, payload) = after_resp.read_s(datagram)->Ok_0;
                trailers_prove_by_signature(payload, rs);
                assert(payload.subrange(32, 96).len() == 64);
            },
        }
    }
}

// --------------------------------------------------------------------- tags

/// A keyed-hash authenticator accepts the keyed hash of commitment, coefficients and
/// data, and nothing else; it commits by the hash of the pieces, one after another.
pub proof fn keyed_tags_are_the_keyed_hash(
    auth: KeyedHashAuthenticator,
    commitment: Seq<u8>,
    piece: PieceView,
    tag: Seq<u8>,
    pieces: Seq<Seq<u8>>,
)
    ensures
        auth.accepts(commitment, piece, tag) <==> tag == blake3_keyed_hash(
            auth@,
            commitment + (piece.coding + piece.data),
        ),
        auth.tags(commitment, piece) == blake3_keyed_hash(
            auth@,
            commitment + (piece.coding + piece.data),
        ),
        auth.commits(pieces) == blake3_hash(joined(pieces)),
{
}

/// Without authentication every piece is accepted, and neither a commitment nor a tag
/// takes any bytes.
pub proof fn nothing_is_asked_without_authentication(
    auth: NullAuthenticator,
    commitment: Seq<u8>,
    piece: PieceView,
    tag: Seq<u8>,
    bytes: Seq<u8>,
)
    ensures
        auth.accepts(commitment, piece, tag),
        auth.tags(commitment, piece).len() == 0,
        NullAuthenticator::commitment_extent(bytes) == Some(0nat),
        NullAuthenticator::tag_extent(bytes) == Some(0nat),
{
}

/// Joining keeps every byte in its order.
pub proof fn joining_keeps_the_order(a: Seq<Seq<u8>>, b: Seq<Seq<u8>>, x: Seq<u8>)
    ensures
        joined(a + b) == joined(a) + joined(b),
        joined(seq![x]) == x,
    decreases b.len(),
{
    reveal_with_fuel(joined, 2);
    assert(seq![x].drop_last() =~= Seq::<Seq<u8>>::empty());
    assert(joined(seq![x]) =~= x);
    if b.len() == 0 {
        assert(a + b =~= a);
        assert(joined(a) + joined(b) =~= joined(a));
    } else {
        joining_keeps_the_order(a, b.drop_last(), x);
        assert((a + b).drop_last() =~= a + b.drop_last());
        assert((a + b).last() == b.last());
        assert(joined(a + b) =~= joined(a) + joined(b));
    }
}

// ------------------------------------------------------------------- frames

/// A pubsub frame: the length of the topic and the topic, the two numbers of the
/// shape, then commitment, tag, coefficients and data.
pub proof fn pubsub_frames_have_their_layout(frame: PubsubFrameView)
    requires
        frame.topic.len() < 256,
    ensures
        ({
            let bytes = frame.bytes();
            let n = frame.topic.len() as int;
            let c = frame.wire.commitment;
            let t = frame.wire.tag;
            &&& bytes.len() == 9 + n + c.len() + t.len() + frame.wire.piece.coding.len()
                + frame.wire.piece.data.len()
            &&& bytes[0] as int == n
            &&& bytes.subrange(1, 1 + n) == frame.topic
            &&& bytes.subrange(1 + n, 5 + n) == be_bytes(frame.k, 4)
            &&& bytes.subrange(5 + n, 9 + n) == be_bytes(frame.b, 4)
            &&& bytes.skip(9 + n) == c + t + frame.wire.piece.coding + frame.wire.piece.data
        }),
{
    broadcast use lemma_be_bytes_len;

    let bytes = frame.bytes();
    let n = frame.topic.len() as int;
    assert(bytes.subrange(1, 1 + n) =~= frame.topic);
    assert(bytes.subrange(1 + n, 5 + n) =~= be_bytes(frame.k, 4));
    assert(bytes.subrange(5 + n, 9 + n) =~= be_bytes(frame.b, 4));
    assert(bytes.skip(9 + n) =~= frame.wire.commitment + frame.wire.tag + frame.wire.piece.coding
        + frame.wire.piece.data);
}

/// Bytes that are read as a pubsub frame are the bytes of that frame, and the piece
/// has the announced shape.
pub proof fn pubsub_frames_are_canonical<A: WireAuthenticator>(bytes: Seq<u8>)
    requires
        forall|s: Seq<u8>| #[trigger]
            A::commitment_extent(s) matches Some(n) ==> n <= s.len(),
        forall|s: Seq<u8>| #[trigger] A::tag_extent(s) matches Some(n) ==> n <= s.len(),
    ensures
        parse::<A>(bytes) matches Ok(frame) ==> {
            &&& frame.bytes() == bytes
            &&& is_topic(frame.topic)
            &&& frame.wire.piece.coding.len() == frame.k
            &&& frame.wire.piece.data.len() == frame.b
            &&& frame.k <= u32::MAX && frame.b <= u32::MAX
        },
{
    broadcast use lemma_be_bytes_len;

    if let Ok(frame) = parse::<A>(bytes) {
        let t = bytes[0] as int;
        let ks = bytes.subrange(1 + t, 5 + t);
        let bs = bytes.subrange(5 + t, 9 + t);
        lemma_be_bytes_of_value(ks);
        lemma_be_bytes_of_value(bs);
        lemma_be_value_bound(ks);
        lemma_be_value_bound(bs);
        lemma_pow256_widths();
        let body = bytes.skip(9 + t);
        let n = A::commitment_extent(body)->Some_0 as int;
        let after = body.skip(n);
        let m = A::tag_extent(after)->Some_0 as int;
        let piece = after.skip(m);
        assert(frame.wire.piece.wire() =~= piece);
        assert(frame.bytes() =~= bytes);
    }
}

/// A Kademlia frame: its code, then the target of a request, or the number of peers
/// and the peers of an answer, each as its identifier, the family of its address, the
/// address and the port.
pub proof fn kademlia_frames_have_their_layout(target: NodeId, peers: Peers)
    ensures
        ({
            let ask = FrameView::FindNodeReq { target };
            let answer = FrameView::FindNodeResp { peers };
            let shorter = FrameView::FindNodeResp { peers: peers.drop_first() };
            let place = match peers[0].1 {
                UdpAddr::V4 { ip, port } => seq![4u8] + be_bytes(ip as nat, 4) + be_bytes(
                    port as nat,
                    2,
                ),
                UdpAddr::V6 { ip6, port, .. } => seq![6u8] + be_bytes(ip6 as nat, 16) + be_bytes(
                    port as nat,
                    2,
                ),
            };
            let first = peers[0].0@ + place;
            &&& (FrameView::PingReq.wire() matches Ok(w) && w == seq![0u8])
            &&& (FrameView::PingResp.wire() matches Ok(w) && w == seq![1u8])
            &&& (ask.wire() matches Ok(w) && w == seq![2u8] + target@)
            &&& peers.len() > 255 <==> answer.wire() is Err
            &&& peers.len() == 0 ==> (answer.wire() matches Ok(w) && w == seq![3u8, 0u8])
            &&& 0 < peers.len() <= 255 ==> (answer.wire() matches Ok(w) && w == seq![
                3u8,
                peers.len() as u8,
            ] + (first + shorter.wire()->Ok_0.skip(2)))
        }),
{
    let answer = FrameView::FindNodeResp { peers };
    let shorter = FrameView::FindNodeResp { peers: peers.drop_first() };
    if peers.len() == 0 {
        assert(answer.wire()->Ok_0 =~= seq![3u8, 0u8]);
    } else if peers.len() <= 255 {
        assert(shorter.wire()->Ok_0.skip(2) =~= crate::kad::codec::entries_wire(
            peers.drop_first(),
        ));
    }
}

// --------------------------------------------------------------------- text

/// The number that decimal digits spell.
pub open spec fn number_in(text: Seq<char>) -> int
    decreases text.len(),
{
    if text.len() == 0 {
        0
    } else {
        number_in(text.drop_last()) * 10 + (text.last() as u32 - 48)
    }
}

/// The decimal text of a number spells that number, in decimal digits and without
/// leading zeros.
pub proof fn decimal_text_spells_the_number(n: nat)
    ensures
        number_in(decimal(n)) == n,
        decimal(n).len() > 0,
        forall|i: int| 0 <= i < decimal(n).len() ==> 48 <= #[trigger] decimal(n)[i] as u32 <= 57,
        n > 0 ==> decimal(n)[0] != '0',
    decreases n,
{
    reveal_with_fuel(number_in, 2);
    if n < 10 {
        assert(decimal(n).drop_last() =~= Seq::<char>::empty());
    } else {
        decimal_text_spells_the_number(n / 10);
        assert(decimal(n).drop_last() =~= decimal(n / 10));
    }
}

/// The hexadecimal text of bytes has two digits for each, the higher one first, of
/// `0` to `9` and `a` to `f`.
pub proof fn hexadecimal_text_spells_the_bytes(bytes: Seq<u8>, i: int)
    requires
        0 <= i < bytes.len(),
    ensures
        hex(bytes).len() == 2 * bytes.len(),
        ({
            let high = hex(bytes)[2 * i] as u32;
            let low = hex(bytes)[2 * i + 1] as u32;
            let h = bytes[i] as int / 16;
            let l = bytes[i] as int % 16;
            &&& h < 10 ==> high == 48 + h
            &&& h >= 10 ==> high == 87 + h
            &&& l < 10 ==> low == 48 + l
            &&& l >= 10 ==> low == 87 + l
        }),
    decreases bytes.len(),
{
    let head = bytes.drop_last();
    lemma_hex_len(bytes);
    lemma_hex_len(head);
    if i < head.len() {
        hexadecimal_text_spells_the_bytes(head, i);
        assert(hex(bytes)[2 * i] == hex(head)[2 * i]);
        assert(hex(bytes)[2 * i + 1] == hex(head)[2 * i + 1]);
    }
}

/// Two digits for each byte.
proof fn lemma_hex_len(bytes: Seq<u8>)
    ensures
        hex(bytes).len() == 2 * bytes.len(),
    decreases bytes.len(),
{
    if bytes.len() > 0 {
        lemma_hex_len(bytes.drop_last());
    }
}

// -------------------------------------------------------------------- kinds

/// The kind of a plaintext stands in front of it, and every protocol has its own.
pub proof fn kinds_stand_in_front(kind: u8, body: Seq<u8>)
    ensures
        of_kind(kind, body).len() == body.len() + 1,
        of_kind(kind, body)[0] == kind,
        of_kind(kind, body).skip(1) == body,
        KIND_APP == 0 && KIND_PUBSUB == 1 && KIND_KAD == 2 && KIND_RENDEZVOUS == 3 && KIND_RPC
            == 4,
{
    assert(of_kind(kind, body).skip(1) =~= body);
}

/// Given vectors make pieces exactly if each has one coefficient for each original
/// piece.
pub proof fn vectors_have_one_coefficient_each(vectors: Seq<Seq<u8>>, k: nat)
    ensures
        vectors_error(vectors, k) is None <==> forall|i: int|
            0 <= i < vectors.len() ==> (#[trigger] vectors[i]).len() == k,
        vectors_error(vectors, k) matches Some(e) ==> e is RlncLayer,
    decreases vectors.len(),
{
    if vectors.len() > 0 {
        let head = vectors.drop_last();
        vectors_have_one_coefficient_each(head, k);
        if forall|i: int| 0 <= i < vectors.len() ==> (#[trigger] vectors[i]).len() == k {
            assert forall|i: int| 0 <= i < head.len() implies (#[trigger] head[i]).len() == k by {
                assert(vectors[i].len() == k);
            }
        }
        if vectors_error(vectors, k) is None {
            assert forall|i: int| 0 <= i < vectors.len() implies (#[trigger] vectors[i]).len()
                == k by {
                if i < head.len() {
                    assert(head[i].len() == k);
                }
            }
        }
    }
}

/// The commitment and the tag of a keyed hash take 32 bytes each.
pub proof fn keyed_hash_blocks_take_32_bytes(bytes: Seq<u8>)
    ensures
        KeyedHashAuthenticator::commitment_extent(bytes) == (if bytes.len() >= 32 {
            Some(32nat)
        } else {
            None
        }),
        KeyedHashAuthenticator::tag_extent(bytes) == (if bytes.len() >= 32 {
            Some(32nat)
        } else {
            None
        }),
        KeyedHashAuthenticator::commitment_complaint(bytes) is None <==> bytes.len() == 32,
        KeyedHashAuthenticator::tag_complaint(bytes) is None <==> bytes.len() == 32,
        NullAuthenticator::commitment_complaint(bytes) is None <==> bytes.len() == 0,
        NullAuthenticator::tag_complaint(bytes) is None <==> bytes.len() == 0,
{
}

} // verus!
