//! Cookies: what they are bound to and how a challenge looks.

use libp2p_cat::addr::UdpAddr;
use libp2p_cat::error::Error;
use libp2p_cat::host::cookie::{
    challenge, is_challenge, mint, verify, COOKIE_MAC_LEN, COOKIE_REPLY_LEN, COOKIE_REPLY_MARKER,
    MSG1_WITH_COOKIE_LEN,
};
use libp2p_cat::noise::MESSAGE_1_LEN;

fn check(cond: bool, reason: impl FnOnce() -> String) -> Result<(), Error> {
    if cond {
        Ok(())
    } else {
        Err(Error::HostState { reason: reason() })
    }
}

fn addr(port: u16) -> UdpAddr {
    UdpAddr::v4([127, 0, 0, 1], port)
}

#[test]
fn echoed_cookie_verifies() -> Result<(), Error> {
    let secret = [0x42; 32];
    let e = [0xE1; 32];
    let mac = mint(&secret, addr(4000), &e);
    check(verify(&secret, addr(4000), &e, &mac), || {
        "freshly minted cookie should verify".to_owned()
    })
}

#[test]
fn cookie_is_bound_to_source_address() -> Result<(), Error> {
    let secret = [0x42; 32];
    let e = [0xE1; 32];
    let mac = mint(&secret, addr(4000), &e);
    check(!verify(&secret, addr(4001), &e, &mac), || {
        "cookie minted for one address must not verify for another".to_owned()
    })
}

#[test]
fn challenge_is_smaller_than_the_msg1_that_elicits_it() -> Result<(), Error> {
    // The whole point of truncating the MAC: the responder must
    // never emit more bytes than it received, or the challenge
    // path itself becomes a reflection amplifier.
    check(COOKIE_REPLY_LEN < MESSAGE_1_LEN, || {
        format!(
            "cookie challenge ({COOKIE_REPLY_LEN} B) must be smaller than msg1 ({MESSAGE_1_LEN} B)"
        )
    })?;
    check(
        MSG1_WITH_COOKIE_LEN == MESSAGE_1_LEN + COOKIE_MAC_LEN,
        || "msg1-with-cookie length must be msg1 + mac".to_owned(),
    )
}

#[test]
fn ipv4_mapped_v6_canonicalizes_to_v4() -> Result<(), Error> {
    // The same peer reaching a dual-stack host as ::ffff:a.b.c.d
    // must mint the same cookie as the plain V4 form, so it
    // cannot occupy two distinct cookie / handshake identities.
    let secret = [0x42; 32];
    let e = [0xE1; 32];
    let v4 = UdpAddr::v4([192, 0, 2, 7], 4000);
    let mapped = UdpAddr::V6 {
        ip6: 0x0000_0000_0000_0000_0000_ffff_c000_0207,
        port: 4000,
        flowinfo: 0,
        scope_id: 0,
    };
    check(mint(&secret, v4, &e) == mint(&secret, mapped, &e), || {
        "an IPv4-mapped V6 source must canonicalize to its V4 form".to_owned()
    })?;
    check(verify(&secret, v4, &e, &mint(&secret, mapped, &e)), || {
        "a cookie minted for the mapped form must verify for the V4 form".to_owned()
    })
}

#[test]
fn v4_and_genuine_v6_are_domain_separated() -> Result<(), Error> {
    // The family tag keeps a V4 address and a non-mapped V6
    // address from ever colliding regardless of byte layout.
    let secret = [0x42; 32];
    let e = [0xE1; 32];
    let v4 = UdpAddr::v4([192, 0, 2, 7], 4000);
    let v6 = UdpAddr::V6 {
        ip6: 0x2001_0db8_0000_0000_0000_0000_0000_0001,
        port: 4000,
        flowinfo: 0,
        scope_id: 0,
    };
    check(mint(&secret, v4, &e) != mint(&secret, v6, &e), || {
        "a V4 and a genuine V6 source must not mint the same cookie".to_owned()
    })
}

#[test]
fn cookie_is_bound_to_ephemeral_key() -> Result<(), Error> {
    let secret = [0x42; 32];
    let mac = mint(&secret, addr(4000), &[0xE1; 32]);
    check(!verify(&secret, addr(4000), &[0xE2; 32], &mac), || {
        "cookie minted for one ephemeral must not verify for another".to_owned()
    })
}

#[test]
fn cookie_is_bound_to_secret() -> Result<(), Error> {
    let e = [0xE1; 32];
    let mac = mint(&[0x42; 32], addr(4000), &e);
    check(!verify(&[0x43; 32], addr(4000), &e, &mac), || {
        "cookie minted under one secret must not verify under another".to_owned()
    })
}

#[test]
fn wrong_length_mac_is_rejected() -> Result<(), Error> {
    let secret = [0x42; 32];
    let e = [0xE1; 32];
    check(!verify(&secret, addr(4000), &e, &[0u8; 31]), || {
        "a 31-byte MAC must be rejected".to_owned()
    })
}

#[test]
fn challenge_shape_round_trips() -> Result<(), Error> {
    let secret = [0x42; 32];
    let e = [0xE1; 32];
    let reply = challenge(&secret, addr(4000), &e);
    check(reply.len() == COOKIE_REPLY_LEN, || {
        format!(
            "expected {COOKIE_REPLY_LEN}-byte challenge, got {}",
            reply.len()
        )
    })?;
    check(reply.first() == Some(&COOKIE_REPLY_MARKER), || {
        "challenge must start with the marker byte".to_owned()
    })?;
    check(is_challenge(&reply), || {
        "is_challenge must accept a freshly built challenge".to_owned()
    })?;
    check(
        !is_challenge(&reply.get(..32).map(<[u8]>::to_vec).unwrap_or_default()),
        || "is_challenge must reject a truncated challenge".to_owned(),
    )
}
