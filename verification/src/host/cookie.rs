//! Stateless proof that a peer receives at its claimed address: a bare first
//! message is answered with a MAC over the source address, and only a first
//! message that echoes the MAC costs the host any state.
use vstd::prelude::*;
use crate::addr::UdpAddr;
use crate::bytes::{
    append, append_be, be_bytes, lemma_be_bytes_len, lemma_be_value_of_bytes, lemma_pow256_widths,
    prefixed,
};
use crate::crypto::{blake3_keyed_hash, keyed_hash};

verus! {

/// Length of the truncated MAC: the challenge stays shorter than the message
/// that elicits it.
pub const COOKIE_MAC_LEN: usize = 16;

/// First byte of every challenge.
pub const COOKIE_REPLY_MARKER: u8 = 0xC0;

/// Length of a challenge.
pub const COOKIE_REPLY_LEN: usize = 17;

/// Length of a first message that echoes its cookie.
pub const MSG1_WITH_COOKIE_LEN: usize = 48;

/// `libp2p-cat-host cookie v1`, in front of every MAC input.
pub const COOKIE_DOMAIN: [u8; 25] = [
    0x6c, 0x69, 0x62, 0x70, 0x32, 0x70, 0x2d, 0x63, 0x61, 0x74, 0x2d, 0x68, 0x6f, 0x73, 0x74, 0x20,
    0x63, 0x6f, 0x6f, 0x6b, 0x69, 0x65, 0x20, 0x76, 0x31,
];

/// The identity of a source: an IPv4-mapped IPv6 address is the IPv4 address
/// that it maps, and flow information and scope do not count.
pub open spec fn canonical(addr: UdpAddr) -> UdpAddr {
    match addr {
        UdpAddr::V4 { .. } => addr,
        UdpAddr::V6 { ip6, port, .. } => if ip6 / 0x1_0000_0000 == 0xffff {
            UdpAddr::V4 { ip: (ip6 % 0x1_0000_0000) as u32, port }
        } else {
            UdpAddr::V6 { ip6, port, flowinfo: 0, scope_id: 0 }
        },
    }
}

/// The address bytes in a MAC input: a family tag, the octets, the port.
pub open spec fn addr_encoding(addr: UdpAddr) -> Seq<u8> {
    match canonical(addr) {
        UdpAddr::V4 { ip, port } => seq![0x04u8] + be_bytes(ip as nat, 4) + be_bytes(
            port as nat,
            2,
        ),
        UdpAddr::V6 { ip6, port, .. } => seq![0x06u8] + be_bytes(ip6 as nat, 16) + be_bytes(
            port as nat,
            2,
        ),
    }
}

/// What the MAC is computed over.
pub open spec fn cookie_input(from: UdpAddr, e: Seq<u8>) -> Seq<u8> {
    COOKIE_DOMAIN@ + addr_encoding(from) + e
}

/// The cookie of a source address and an ephemeral key.
pub open spec fn cookie(secret: Seq<u8>, from: UdpAddr, e: Seq<u8>) -> Seq<u8> {
    blake3_keyed_hash(secret, cookie_input(from, e)).take(16)
}

/// The challenge that answers a bare first message.
pub open spec fn challenge_bytes(secret: Seq<u8>, from: UdpAddr, e: Seq<u8>) -> Seq<u8> {
    seq![COOKIE_REPLY_MARKER] + cookie(secret, from, e)
}

/// Whether a datagram has the shape of a challenge.
pub open spec fn challenge_shaped(datagram: Seq<u8>) -> bool {
    datagram.len() == COOKIE_REPLY_LEN && datagram[0] == COOKIE_REPLY_MARKER
}

/// Two sources with different identities never share a MAC input: the cookie
/// is bound to the address.
pub proof fn cookie_input_binds_the_source(a: UdpAddr, b: UdpAddr, e: Seq<u8>)
    requires
        cookie_input(a, e) == cookie_input(b, e),
    ensures
        canonical(a) == canonical(b),
{
    broadcast use lemma_be_bytes_len;

    let x = addr_encoding(a);
    let y = addr_encoding(b);
    assert(COOKIE_DOMAIN@.len() == 25);
    assert(cookie_input(a, e).len() == 25 + x.len() + e.len());
    assert(cookie_input(b, e).len() == 25 + y.len() + e.len());
    assert(x.len() == y.len());
    assert(cookie_input(a, e).subrange(25, 25 + x.len() as int) =~= x);
    assert(cookie_input(b, e).subrange(25, 25 + y.len() as int) =~= y);
    assert(x[0] == y[0]);
    lemma_pow256_widths();
    match (canonical(a), canonical(b)) {
        (UdpAddr::V4 { ip: ia, port: pa }, UdpAddr::V4 { ip: ib, port: pb }) => {
            assert(x.subrange(1, 5) =~= be_bytes(ia as nat, 4));
            assert(y.subrange(1, 5) =~= be_bytes(ib as nat, 4));
            assert(x.subrange(5, 7) =~= be_bytes(pa as nat, 2));
            assert(y.subrange(5, 7) =~= be_bytes(pb as nat, 2));
            lemma_be_value_of_bytes(ia as nat, 4);
            lemma_be_value_of_bytes(ib as nat, 4);
            lemma_be_value_of_bytes(pa as nat, 2);
            lemma_be_value_of_bytes(pb as nat, 2);
        },
        (UdpAddr::V6 { ip6: ia, port: pa, .. }, UdpAddr::V6 { ip6: ib, port: pb, .. }) => {
            assert(x.subrange(1, 17) =~= be_bytes(ia as nat, 16));
            assert(y.subrange(1, 17) =~= be_bytes(ib as nat, 16));
            assert(x.subrange(17, 19) =~= be_bytes(pa as nat, 2));
            assert(y.subrange(17, 19) =~= be_bytes(pb as nat, 2));
            lemma_be_value_of_bytes(ia as nat, 16);
            lemma_be_value_of_bytes(ib as nat, 16);
            lemma_be_value_of_bytes(pa as nat, 2);
            lemma_be_value_of_bytes(pb as nat, 2);
        },
        _ => {},
    }
}

/// The same ephemeral key apart, the MAC input determines it: the cookie is
/// bound to the key.
pub proof fn cookie_input_binds_the_key(from: UdpAddr, e: Seq<u8>, f: Seq<u8>)
    requires
        cookie_input(from, e) == cookie_input(from, f),
    ensures
        e == f,
{
    let n = 25 + addr_encoding(from).len();
    assert(cookie_input(from, e).skip(n as int) =~= e);
    assert(cookie_input(from, f).skip(n as int) =~= f);
}

/// A peer that reaches the host over an IPv4-mapped IPv6 address gets the same
/// cookie as over IPv4.
pub proof fn mapped_address_shares_the_cookie(
    secret: Seq<u8>,
    ip: u32,
    port: u16,
    flowinfo: u32,
    scope_id: u32,
    e: Seq<u8>,
)
    ensures
        cookie(secret, UdpAddr::V4 { ip, port }, e) == cookie(
            secret,
            UdpAddr::V6 {
                ip6: (0xffff_0000_0000 + ip) as u128,
                port,
                flowinfo,
                scope_id,
            },
            e,
        ),
{
}

/// The family tag, octets and port of a source.
fn addr_bytes(addr: UdpAddr) -> (bytes: Vec<u8>)
    ensures
        bytes@ == addr_encoding(addr),
{
    let canonical = match addr {
        UdpAddr::V4 { ip, port } => UdpAddr::V4 { ip, port },
        UdpAddr::V6 { ip6, port, .. } => {
            if ip6 / 0x1_0000_0000 == 0xffff {
                UdpAddr::V4 { ip: (ip6 % 0x1_0000_0000) as u32, port }
            } else {
                UdpAddr::V6 { ip6, port, flowinfo: 0, scope_id: 0 }
            }
        },
    };
    let mut bytes: Vec<u8> = Vec::new();
    match canonical {
        UdpAddr::V4 { ip, port } => {
            bytes.push(0x04);
            append_be(&mut bytes, ip as u128, 4);
            append_be(&mut bytes, port as u128, 2);
        },
        UdpAddr::V6 { ip6, port, .. } => {
            bytes.push(0x06);
            append_be(&mut bytes, ip6, 16);
            append_be(&mut bytes, port as u128, 2);
        },
    }
    assert(bytes@ =~= addr_encoding(addr));
    bytes
}

/// The cookie of a source address and an ephemeral key, under the host's secret.
pub fn mint(secret: &[u8; 32], from: UdpAddr, e: &[u8]) -> (mac: [u8; 16])
    ensures
        mac@ == cookie(secret@, from, e@),
{
    let domain = COOKIE_DOMAIN;
    let mut input: Vec<u8> = Vec::new();
    append(&mut input, domain.as_slice());
    let addr = addr_bytes(from);
    append(&mut input, addr.as_slice());
    append(&mut input, e);
    assert(input@ =~= cookie_input(from, e@));
    let full = keyed_hash(secret, input.as_slice());
    let mut mac: [u8; 16] = [0u8; 16];
    let mut i: usize = 0;
    while i < 16
        invariant
            i <= 16,
            forall|j: int| 0 <= j < i ==> mac@[j] == full@[j],
        decreases 16 - i,
    {
        mac[i] = full[i];
        i = i + 1;
    }
    assert(mac@ =~= full@.take(16));
    mac
}

/// The challenge that answers a bare first message.
pub fn challenge(secret: &[u8; 32], from: UdpAddr, e: &[u8]) -> (reply: Vec<u8>)
    ensures
        reply@ == challenge_bytes(secret@, from, e@),
        reply@.len() == COOKIE_REPLY_LEN,
        challenge_shaped(reply@),
{
    let mac = mint(secret, from, e);
    prefixed(COOKIE_REPLY_MARKER, mac.as_slice())
}

/// Whether `datagram` has the shape of a challenge.
pub fn is_challenge(datagram: &[u8]) -> (r: bool)
    ensures
        r == challenge_shaped(datagram@),
{
    datagram.len() == COOKIE_REPLY_LEN && datagram[0] == COOKIE_REPLY_MARKER
}

/// Whether an echoed cookie is the one that would be minted. Every byte is
/// compared whatever the earlier ones gave.
pub fn verify(secret: &[u8; 32], from: UdpAddr, e: &[u8], mac: &[u8]) -> (ok: bool)
    ensures
        ok == (mac@ == cookie(secret@, from, e@)),
{
    let expected = mint(secret, from, e);
    if mac.len() != COOKIE_MAC_LEN {
        return false;
    }
    let mut diff: u8 = 0;
    let mut i: usize = 0;
    while i < 16
        invariant
            i <= 16,
            mac@.len() == 16,
            diff == 0 <==> forall|j: int| 0 <= j < i ==> expected@[j] == mac@[j],
        decreases 16 - i,
    {
        let x: u8 = expected[i];
        let y: u8 = mac[i];
        let before: u8 = diff;
        diff = diff | (x ^ y);
        assert(before | (x ^ y) == 0 <==> (before == 0 && x == y)) by (bit_vector);
        proof {
            if diff == 0 {
                assert forall|j: int| 0 <= j < i + 1 implies expected@[j] == mac@[j] by {}
            } else if before == 0 {
                assert(expected@[i as int] != mac@[i as int]);
            }
        }
        i = i + 1;
    }
    proof {
        if diff == 0 {
            assert(expected@ =~= mac@);
        }
    }
    diff == 0
}

} // verus!
