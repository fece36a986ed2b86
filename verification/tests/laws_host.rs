//! Laws of hosts on concrete values.

use libp2p_cat::addr::{Outbound, UdpAddr};
use libp2p_cat::error::Error;
use libp2p_cat::host::cookie::mint;
use libp2p_cat::host::link::link;
use libp2p_cat::host::{Capacity, Host, HostEvent};
use libp2p_cat::identity::{Ed25519Keypair, SignedStaticKey};
use libp2p_cat::noise::StaticKeypair;

fn addr(port: u16) -> UdpAddr {
    UdpAddr::v4([10, 0, 0, 1], port)
}

fn host(seed: u8, capacity: Capacity) -> Result<Host, Error> {
    let keypair = StaticKeypair::from_private_bytes([seed; 32]);
    let identity = Ed25519Keypair::from_seed([seed.wrapping_add(1); 32]);
    Host::with_capacity(keypair, &identity, [seed.wrapping_add(2); 32], capacity)
}

/// Carries datagrams back and forth until both sides fall silent.
fn connect(a: (Host, UdpAddr), b: (Host, UdpAddr)) -> Result<(Host, Host), Error> {
    let ((a, a_addr), (b, b_addr)) = (a, b);
    let (mut a, first) = a.dial(b_addr, [0x44; 32])?;
    let mut b = b;
    let mut under_way: Option<Outbound> = Some(first);
    while let Some(out) = under_way {
        under_way = if out.addr == b_addr {
            let (next, _, reply) = b.recv_one(a_addr, &out.datagram, [0x55; 32]);
            b = next;
            reply
        } else {
            let (next, _, reply) = a.recv_one(b_addr, &out.datagram, [0x66; 32]);
            a = next;
            reply
        };
    }
    Ok((a, b))
}

#[test]
fn dialing_establishes_both_sides() -> Result<(), Error> {
    let (a, b) = connect(
        (host(1, Capacity::default())?, addr(1)),
        (host(4, Capacity::default())?, addr(2)),
    )?;
    assert!(a.is_established(addr(2)) && b.is_established(addr(1)));
    assert_eq!(a.remote_static_of(addr(2)), Some(b.static_public()));
    assert_eq!(b.remote_static_of(addr(1)), Some(a.static_public()));
    assert_eq!(a.remote_peer_id_of(addr(2)), Some(b.peer_id()));
    assert_eq!(b.remote_peer_id_of(addr(1)), Some(a.peer_id()));
    assert_eq!(a.remote_peer_id_of(addr(9)), None);
    assert_eq!(a.established_addrs(), vec![addr(2)]);
    assert_eq!(a.handshakes_in_flight(), 0);

    let (_a, out) = a.send(addr(2), b"hello")?;
    let (_b, event, reply) = b.recv_one(addr(1), &out.datagram, [0; 32]);
    assert!(reply.is_none());
    assert!(matches!(
        event,
        HostEvent::DatagramDelivered { addr: from, plaintext } if from == addr(1) && plaintext == b"hello"
    ));
    Ok(())
}

#[test]
fn bare_first_messages_leave_no_state() -> Result<(), Error> {
    let mut b = host(4, Capacity::default())?;
    for i in 0..50u8 {
        let (next, event, reply) = b.recv_one(addr(u16::from(i)), &[i; 32], [0x55; 32]);
        b = next;
        assert!(matches!(event, HostEvent::HandshakeProgress { .. }));
        let reply = reply.map(|o| o.datagram).unwrap_or_default();
        assert_eq!(reply.len(), 17);
        assert_eq!(b.handshakes_in_flight(), 0);
        assert_eq!(b.established_connections(), 0);
    }
    assert_eq!(b.tick(), 50);
    Ok(())
}

#[test]
fn junk_leaves_an_established_host_unchanged() -> Result<(), Error> {
    let (a, b) = connect(
        (host(1, Capacity::default())?, addr(1)),
        (host(4, Capacity::default())?, addr(2)),
    )?;
    let tick = b.tick();
    let (b, event, reply) = b.recv_one(addr(1), &[0xFF; 40], [0; 32]);
    assert!(matches!(event, HostEvent::Rejected { .. }));
    assert!(reply.is_none());
    assert_eq!(b.tick(), tick);
    // A replay is junk too.
    let (_a, out) = a.send(addr(2), b"once")?;
    let (b, event, _) = b.recv_one(addr(1), &out.datagram, [0; 32]);
    assert!(matches!(event, HostEvent::DatagramDelivered { .. }));
    let (b, event, _) = b.recv_one(addr(1), &out.datagram, [0; 32]);
    assert!(matches!(event, HostEvent::Rejected { .. }));
    assert!(b.is_established(addr(1)));
    Ok(())
}

#[test]
fn other_peers_keep_their_state() -> Result<(), Error> {
    let (a, _) = connect(
        (host(1, Capacity::default())?, addr(1)),
        (host(4, Capacity::default())?, addr(2)),
    )?;
    let (a, _) = a.dial(addr(3), [0x77; 32])?;
    let mut a = a;
    for datagram in [vec![0; 5], vec![1; 32], vec![2; 48], vec![3; 100]] {
        a = a.recv_one(addr(9), &datagram, [0x55; 32]).0;
        assert!(a.is_established(addr(2)));
        assert_eq!(a.handshakes_in_flight(), 1);
    }
    Ok(())
}

#[test]
fn caps_are_never_exceeded() -> Result<(), Error> {
    let small = Capacity::new(2, 2).unwrap_or_default();
    let mut a = host(1, small)?;
    for port in 2..8u16 {
        a = a.dial(addr(port), [port as u8; 32])?.0;
        assert!(a.handshakes_in_flight() <= 2);
    }
    // The latest two are left.
    assert!(a.dial(addr(7), [1; 32]).is_err());

    let mut a = host(1, small)?;
    for port in 2..6u16 {
        let peer = host(10 + port as u8, Capacity::default())?;
        a = connect((a, addr(1)), (peer, addr(port)))?.0;
        assert!(a.established_connections() <= 2);
    }
    assert_eq!(a.established_addrs(), vec![addr(4), addr(5)]);
    Ok(())
}

#[test]
fn dialing_a_known_peer_fails() -> Result<(), Error> {
    let (a, _b) = connect(
        (host(1, Capacity::default())?, addr(1)),
        (host(4, Capacity::default())?, addr(2)),
    )?;
    assert!(matches!(a.dial(addr(2), [9; 32]), Err(Error::HostState { .. })));
    Ok(())
}

#[test]
fn binding_proves_the_identity_of_the_host() -> Result<(), Error> {
    let a = host(1, Capacity::default())?;
    let (_, id) = a.signed_static_key().verify(a.static_public())?;
    assert_eq!(&id, a.peer_id());
    let bytes = a.signed_static_key().to_bytes();
    assert_eq!(&SignedStaticKey::from_bytes(&bytes)?, a.signed_static_key());
    let longer: Vec<u8> = bytes.iter().copied().chain([0]).collect();
    assert!(matches!(
        SignedStaticKey::from_bytes(&longer),
        Err(Error::IdentityVerify { .. })
    ));
    Ok(())
}

#[test]
fn raw_datagrams_pass_unchanged() -> Result<(), Error> {
    let a = host(1, Capacity::default())?;
    let (a, out) = a.send_raw(addr(2), vec![1, 2, 3]);
    assert_eq!(out.addr, addr(2));
    assert_eq!(out.datagram, vec![1, 2, 3]);
    assert_eq!(a.handshakes_in_flight(), 0);
    assert_eq!(a.capacity(), &Capacity::default());
    Ok(())
}

#[test]
fn an_idle_sweep_lists_what_it_takes() -> Result<(), Error> {
    let (a, _) = connect(
        (host(1, Capacity::default())?, addr(1)),
        (host(4, Capacity::default())?, addr(3)),
    )?;
    let (a, _) = connect((a, addr(1)), (host(7, Capacity::default())?, addr(2)))?;
    // Nothing is older than the whole history.
    let tick = a.tick();
    let (a, gone) = a.evict_idle(tick);
    assert!(gone.is_empty());
    let a = a.evict(addr(2));
    assert_eq!(a.established_addrs(), vec![addr(3)]);
    let (a, gone) = a.evict_idle(0);
    assert_eq!(gone, vec![addr(3)]);
    assert_eq!(a.established_connections(), 0);
    Ok(())
}

#[test]
fn linked_hosts_hear_each_other() -> Result<(), Error> {
    let a = host(1, Capacity::default())?;
    let b = host(4, Capacity::default())?;
    let (a_id, b_id) = (*a.peer_id(), *b.peer_id());
    let (a, b) = link(a, addr(1), b, addr(2), [0x44; 32], [0x55; 32])?;
    assert_eq!(a.remote_peer_id_of(addr(2)), Some(&b_id));
    assert_eq!(b.remote_peer_id_of(addr(1)), Some(&a_id));
    let (a, out) = a.send(addr(2), b"over")?;
    assert_eq!(out.datagram.len(), 4 + 24);
    let (b, event, _) = b.recv_one(addr(1), &out.datagram, [0; 32]);
    assert!(matches!(event, HostEvent::DatagramDelivered { plaintext, .. } if plaintext == b"over"));
    let (_b, out) = b.send(addr(1), b"and back")?;
    let (a, event, _) = a.recv_one(addr(2), &out.datagram, [0; 32]);
    assert!(matches!(event, HostEvent::DatagramDelivered { plaintext, .. } if plaintext == b"and back"));
    let c = host(7, Capacity::default())?;
    assert!(matches!(
        link(a, addr(1), c, addr(2), [0x44; 32], [0x55; 32]),
        Err(Error::HostState { reason }) if reason == "dial: address 10.0.0.1:2 already known to host"
    ));
    Ok(())
}

#[test]
fn no_state_without_a_cookie() -> Result<(), Error> {
    let secret = [6u8; 32];
    let b = host(4, Capacity::default())?;
    let e = [9u8; 32];
    // The cookie of another address, then the right one.
    let wrong: Vec<u8> = e.into_iter().chain(mint(&secret, addr(8), &e)).collect();
    let right: Vec<u8> = e.into_iter().chain(mint(&secret, addr(9), &e)).collect();
    let (b, event, reply) = b.recv_one(addr(9), &wrong, [0x55; 32]);
    assert!(reply.is_none());
    assert_eq!(b.handshakes_in_flight(), 0);
    assert!(matches!(
        event,
        HostEvent::Rejected { reason, .. } if reason == "msg1 cookie failed verification"
    ));
    let (b, event, reply) = b.recv_one(addr(9), &right, [0x55; 32]);
    assert!(matches!(event, HostEvent::HandshakeProgress { .. }));
    // The second message carries two keys, two tags, and the binding.
    assert_eq!(reply.map(|o| o.datagram.len()), Some(32 + 48 + 96 + 16));
    assert_eq!(b.handshakes_in_flight(), 1);
    Ok(())
}
