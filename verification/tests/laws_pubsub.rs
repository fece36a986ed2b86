//! Laws of topics, relays and decoders on concrete values.

use std::sync::Arc;

use libp2p_cat::addr::UdpAddr;
use libp2p_cat::error::Error;
use libp2p_cat::failure::Failure;
use libp2p_cat::host::Host;
use libp2p_cat::identity::Ed25519Keypair;
use libp2p_cat::mux::{
    absorb_lookup_event, lift_kad_event, lift_pubsub_event, Inbound, MultiProtocolEvent,
    MultiProtocolNode, KIND_APP, KIND_KAD, KIND_PUBSUB, KIND_RENDEZVOUS, KIND_RPC,
};
use libp2p_cat::kad::{KadEvent, Lookup, LookupConfig, NodeId};
use libp2p_cat::noise::{StaticKeypair, TransportState};
use libp2p_cat::pubsub::{
    decode, decoder_path, encode, relay_path, unused_relay_rng, KeyedHashAuthenticator,
    KeyedHashTag, MuxEvent, NullAuthenticator, PeerTable, PubsubAuth, PubsubMux, PubsubNode, Topic,
    WireAuthenticator, WirePiece,
};
use libp2p_cat::rlnc::CodedPiece;
use rlnc_cat_rs::coding::piece::OriginalData;

fn addr(port: u16) -> UdpAddr {
    UdpAddr::v4([10, 0, 0, 1], port)
}

fn host(seed: u8) -> Result<Host, Error> {
    let keypair = StaticKeypair::from_private_bytes([seed; 32]);
    let identity = Ed25519Keypair::from_seed([seed.wrapping_add(1); 32]);
    Host::new(keypair, &identity, [seed.wrapping_add(2); 32])
}

fn null_mux() -> Result<PubsubMux<NullAuthenticator>, Error> {
    Ok(PubsubMux::new(host(1)?, Arc::new(NullAuthenticator)))
}

fn original(bytes: &[u8], k: usize) -> Result<OriginalData, Error> {
    OriginalData::from_bytes(bytes, k).map_err(|e| Error::RlncLayer { reason: e.to_string() })
}

fn plaintext<A: WireAuthenticator>(
    topic: &Topic,
    k: usize,
    b: usize,
    wp: &WirePiece<A>,
) -> Result<Vec<u8>, Error> {
    Ok([KIND_PUBSUB].into_iter().chain(encode(topic, k, b, wp)?).collect())
}

fn null_piece(topic: &Topic, cv: &[u8], data: &[u8]) -> Result<Vec<u8>, Error> {
    let piece = CodedPiece { coding_vector: cv.to_vec(), data: data.to_vec() };
    plaintext::<NullAuthenticator>(topic, cv.len(), data.len(), &WirePiece::new((), piece, ()))
}

fn ones(n: usize) -> Result<Vec<u8>, String> {
    Ok(vec![1; n])
}

#[test]
fn decoders_deliver_the_original_data() -> Result<(), Error> {
    let topic = Topic::try_from("/t")?;
    // "hello" and its marker make two pieces of three bytes.
    let mux = null_mux()?.register_topic(topic.clone(), 2, 3, ());
    // The sum of both pieces, then the second.
    let sum: Vec<u8> = vec![b'h' ^ b'l', b'e' ^ b'o', b'l' ^ 0x81];
    let (mux, event, _) =
        mux.process_plaintext(addr(1), &null_piece(&topic, &[1, 1], &sum)?, unused_relay_rng)?;
    assert!(matches!(event, MuxEvent::PubsubAbsorbed { .. }));
    // The same piece again tells nothing new.
    let (mux, event, _) =
        mux.process_plaintext(addr(1), &null_piece(&topic, &[1, 1], &sum)?, unused_relay_rng)?;
    assert!(matches!(event, MuxEvent::PubsubAbsorbed { .. }));
    let second = [b'l', b'o', 0x81];
    let (mux, event, _) =
        mux.process_plaintext(addr(1), &null_piece(&topic, &[0, 1], &second)?, unused_relay_rng)?;
    match event {
        MuxEvent::PubsubDelivered { data, .. } => assert_eq!(data, b"hello"),
        other => panic!("unexpected event {other:?}"),
    }
    // The generation is over: the decoder is gone.
    assert!(!mux.state().is_decoder_registered(&topic));
    Ok(())
}

#[test]
fn data_without_a_marker_is_not_delivered() -> Result<(), Error> {
    let topic = Topic::try_from("/t")?;
    let mux = null_mux()?.register_topic(topic.clone(), 1, 2, ());
    let frame = null_piece(&topic, &[1], &[5, 5])?;
    let (mux, event, _) = mux.process_plaintext(addr(1), &frame, unused_relay_rng)?;
    assert!(matches!(
        event,
        MuxEvent::Rejected { reason, .. } if reason.starts_with("decode failed: ")
    ));
    assert!(!mux.state().is_decoder_registered(&topic));
    Ok(())
}

#[test]
fn redundant_pieces_are_not_relayed() -> Result<(), Error> {
    let topic = Topic::try_from("/t")?;
    let mux = null_mux()?.register_relay(topic.clone(), 2, 1, ());
    let first = null_piece(&topic, &[1, 0], &[7])?;
    let (mux, event, out) = mux.process_plaintext(addr(1), &first, ones)?;
    assert!(matches!(event, MuxEvent::PubsubRelayed { fanout_count: 0, .. }));
    assert!(out.is_empty());
    // A multiple of what is known needs no coefficients at all.
    let multiple = null_piece(&topic, &[2, 0], &[14])?;
    let (mux, event, out) = mux.process_plaintext(addr(1), &multiple, unused_relay_rng)?;
    assert!(matches!(event, MuxEvent::PubsubRedundant { .. }));
    assert!(out.is_empty());
    let second = null_piece(&topic, &[1, 1], &[9])?;
    let (mux, event, _) = mux.process_plaintext(addr(1), &second, ones)?;
    assert!(matches!(event, MuxEvent::PubsubRelayed { .. }));
    // At full rank nothing is relayed any more.
    for cv in [[0, 1], [3, 5], [1, 0]] {
        let frame = null_piece(&topic, &cv, &[1])?;
        let (_, event, out) = PubsubMux::join(host(1)?, relay_at_full_rank(&topic)?)
            .process_plaintext(addr(1), &frame, unused_relay_rng)?;
        assert!(matches!(event, MuxEvent::PubsubRedundant { .. }));
        assert!(out.is_empty());
    }
    assert!(mux.state().is_relay_registered(&topic));
    Ok(())
}

fn relay_at_full_rank(
    topic: &Topic,
) -> Result<libp2p_cat::pubsub::PubsubState<NullAuthenticator>, Error> {
    let mux = null_mux()?.register_relay(topic.clone(), 2, 1, ());
    let (mux, _, _) = mux.process_plaintext(addr(1), &null_piece(topic, &[1, 0], &[7])?, ones)?;
    let (mux, _, _) = mux.process_plaintext(addr(1), &null_piece(topic, &[0, 1], &[9])?, ones)?;
    Ok(mux.split().1)
}

#[test]
fn a_relay_whose_source_of_randomness_fails_reports_it() -> Result<(), Error> {
    let topic = Topic::try_from("/t")?;
    let mux = null_mux()?.register_relay(topic.clone(), 2, 1, ());
    let frame = null_piece(&topic, &[1, 0], &[7])?;
    assert!(matches!(
        mux.process_plaintext(addr(1), &frame, unused_relay_rng),
        Err(Failure { error: Error::RlncLayer { .. }, .. })
    ));
    Ok(())
}

#[test]
fn bad_tags_change_nothing() -> Result<(), Error> {
    let topic = Topic::try_from("/t")?;
    let auth = KeyedHashAuthenticator::new([1; 32]);
    let data = original(b"hello", 2)?;
    let commitment = auth.commit(&data);
    let piece = || CodedPiece { coding_vector: vec![1, 0], data: b"hel".to_vec() };
    let good = plaintext::<KeyedHashAuthenticator>(
        &topic,
        2,
        3,
        &WirePiece::new(commitment, piece(), auth.tag(&commitment, &piece())),
    )?;
    let bad = plaintext::<KeyedHashAuthenticator>(
        &topic,
        2,
        3,
        &WirePiece::new(commitment, piece(), KeyedHashTag::from_bytes([9; 32])),
    )?;
    let mux = PubsubMux::new(host(1)?, Arc::new(KeyedHashAuthenticator::new([1; 32])));
    let mux = mux
        .register_topic(topic.clone(), 2, 3, commitment)
        .register_relay(Topic::try_from("/r")?, 2, 3, commitment);
    let tick = mux.state().tick();
    let (mux, event, out) = mux.process_plaintext(addr(1), &bad, ones)?;
    match event {
        MuxEvent::Rejected { reason, .. } => assert_eq!(
            reason,
            "auth verify failed for topic /t: authenticator rejected the piece"
        ),
        other => panic!("unexpected event {other:?}"),
    }
    assert!(out.is_empty());
    assert_eq!(mux.state().tick(), tick);
    let (mux, event, _) = mux.process_plaintext(addr(1), &good, ones)?;
    assert!(matches!(event, MuxEvent::PubsubAbsorbed { .. }));
    assert_eq!(mux.state().tick(), tick + 1);
    Ok(())
}

#[test]
fn frames_of_the_wrong_shape_are_refused() -> Result<(), Error> {
    let topic = Topic::try_from("/t")?;
    let frame = null_piece(&topic, &[1, 0], &[7])?;
    // One byte short, one byte long.
    let short = &frame[1..frame.len() - 1];
    assert!(matches!(
        decode::<NullAuthenticator>(short),
        Err(Error::RlncLayer { .. })
    ));
    let long: Vec<u8> = frame[1..].iter().copied().chain([0]).collect();
    assert!(matches!(
        decode::<NullAuthenticator>(&long),
        Err(Error::RlncLayer { .. })
    ));
    // The wrong shape for the decoder: the decoder is given up.
    let mux = null_mux()?.register_topic(topic.clone(), 3, 1, ());
    let (mux, event, _) = mux.process_plaintext(addr(1), &frame, unused_relay_rng)?;
    assert!(matches!(
        event,
        MuxEvent::Rejected { reason, .. }
            if reason == "absorb failed: coding vector length mismatch: expected 3, got 2"
    ));
    assert!(!mux.state().is_decoder_registered(&topic));
    // Nobody asked for the topic.
    let (_, event, _) = mux.process_plaintext(addr(1), &frame, unused_relay_rng)?;
    assert!(matches!(event, MuxEvent::Rejected { .. }));
    Ok(())
}

#[test]
fn null_commitments_refuse_what_follows() {
    assert!(matches!(
        NullAuthenticator::tag_from_bytes(&[1, 2]),
        Err(Error::PubsubProtocol { reason }) if reason == "NullAuthenticator tag must be 0 bytes, got 2"
    ));
    assert!(matches!(
        KeyedHashAuthenticator::tag_from_bytes(&[0; 33]),
        Err(Error::PubsubProtocol { .. })
    ));
}

#[test]
fn broadcasts_tag_what_they_send() -> Result<(), Error> {
    // Without peers nothing goes out, and the commitment comes back.
    let mux = PubsubMux::new(host(1)?, Arc::new(KeyedHashAuthenticator::new([1; 32])));
    let expected = mux.commit(&original(b"hello", 2)?);
    let topic = Topic::try_from("/t")?;
    let (mux, commitment, out) = mux.broadcast(topic.clone(), original(b"hello", 2)?, 3, ones)?;
    assert_eq!(commitment, expected);
    assert!(out.is_empty());
    // Coefficients of the wrong number are refused.
    assert!(matches!(
        mux.broadcast_with(topic, original(b"hello", 2)?, &vec![vec![1, 2, 3]]),
        Err(Failure { error: Error::RlncLayer { .. }, .. })
    ));
    Ok(())
}

fn all_protocols() -> Result<MultiProtocolNode<NullAuthenticator>, Error> {
    Ok(MultiProtocolNode::new(host(1)?, Arc::new(NullAuthenticator), 20))
}

#[test]
fn protocols_keep_apart() -> Result<(), Error> {
    let topic = Topic::try_from("/t")?;
    let node = all_protocols()?.register_topic(topic.clone(), 2, 1, ());
    let tick = node.pubsub_state().tick();
    let (node, inbound, _) =
        node.process_plaintext(addr(1), &[KIND_APP, 1, 2], unused_relay_rng)?;
    assert!(matches!(
        inbound,
        Inbound::Event(MultiProtocolEvent::AppData { bytes, .. }) if bytes == [1, 2]
    ));
    let (node, inbound, _) = node.process_plaintext(addr(1), &[KIND_RPC, 3], unused_relay_rng)?;
    assert!(matches!(
        inbound,
        Inbound::Event(MultiProtocolEvent::RpcDatagram { body, .. }) if body == [3]
    ));
    let (node, inbound, _) =
        node.process_plaintext(addr(1), &[KIND_RENDEZVOUS, 4], unused_relay_rng)?;
    assert!(matches!(inbound, Inbound::Rendezvous { body, .. } if body == [4]));
    let (node, inbound, _) = node.process_plaintext(addr(1), &[KIND_KAD, 1], unused_relay_rng)?;
    assert!(matches!(
        inbound,
        Inbound::Event(MultiProtocolEvent::KadPingResponseReceived { .. })
    ));
    assert_eq!(node.pubsub_state().tick(), tick);
    assert!(node.kad_table().is_empty());
    let frame = null_piece(&topic, &[1, 0], &[7])?;
    let (node, inbound, _) = node.process_plaintext(addr(1), &frame, unused_relay_rng)?;
    assert!(matches!(
        inbound,
        Inbound::Event(MultiProtocolEvent::PubsubAbsorbed { .. })
    ));
    let (node, inbound, _) = node.process_plaintext(addr(1), &[0xEE, 1], unused_relay_rng)?;
    assert!(matches!(
        inbound,
        Inbound::Event(MultiProtocolEvent::Rejected { reason, .. })
            if reason == "unknown plaintext kind byte 0xee"
    ));
    let (_, inbound, _) = node.process_plaintext(addr(1), &[], unused_relay_rng)?;
    assert!(matches!(
        inbound,
        Inbound::Event(MultiProtocolEvent::Rejected { .. })
    ));
    Ok(())
}

#[test]
fn events_are_lifted_field_by_field() {
    let lifted = lift_pubsub_event(MuxEvent::AppData { addr: addr(1), bytes: vec![1] });
    assert!(matches!(
        lifted,
        MultiProtocolEvent::AppData { addr: a, bytes } if a == addr(1) && bytes == [1]
    ));
    let target = NodeId::from_bytes([4; 32]);
    let lifted = lift_kad_event(KadEvent::FindNodeRequestReceived {
        from: addr(2),
        target,
        returned: 3,
    });
    assert!(matches!(
        lifted,
        MultiProtocolEvent::KadFindNodeRequestReceived { from, target: t, returned: 3 }
            if from == addr(2) && t == target
    ));
    let own = NodeId::from_bytes([0; 32]);
    let lookup = Lookup::new(own, target, LookupConfig::default(), &Vec::new());
    let answer = MultiProtocolEvent::KadFindNodeResponseReceived {
        from: addr(2),
        peers: vec![(NodeId::from_bytes([5; 32]), addr(5))],
    };
    // Only the answer of a peer that was asked counts.
    let lookup = absorb_lookup_event(lookup, &answer);
    assert!(lookup.is_empty());
    let lookup = lookup.mark_in_flight(NodeId::from_bytes([6; 32]), addr(2));
    assert_eq!(absorb_lookup_event(lookup, &answer).len(), 1);
}

#[test]
fn peers_of_a_table_keep_their_numbers() -> Result<(), Error> {
    let table = PeerTable::new();
    let (table, first) = table.add(addr(1), TransportState::new([1; 32], [2; 32]));
    let (table, second) = table.add(addr(2), TransportState::new([3; 32], [4; 32]));
    assert_eq!((first.value(), second.value()), (0, 1));
    assert_eq!(table.addr_of(second), Some(addr(2)));
    assert_eq!(table.peer_indices(), vec![first, second]);
    let (table, to, datagram) = table.encrypt_for(second, b"to two")?;
    assert_eq!(to, addr(2));
    let (_, plain) = TransportState::new([4; 32], [3; 32]).decrypt(&datagram);
    assert_eq!(plain?, b"to two");
    let (_, datagram) = TransportState::new([2; 32], [1; 32]).encrypt(b"from one")?;
    let (table, from, plain) = table.decrypt_from(addr(1), &datagram)?;
    assert_eq!((from, plain.as_slice()), (first, &b"from one"[..]));
    assert!(matches!(
        table.decrypt_from(addr(9), &datagram),
        Err(Error::PubsubProtocol { .. })
    ));
    Ok(())
}

#[test]
fn frames_for_an_unknown_topic_are_errors_of_a_node() -> Result<(), Error> {
    let topic = Topic::try_from("/t")?;
    let node = PubsubNode::new();
    let (node, _) = node.add_peer(addr(1), TransportState::new([1; 32], [2; 32]));
    let frame = null_piece(&topic, &[1, 0], &[7])?;
    let (_, datagram) = TransportState::new([2; 32], [1; 32]).encrypt(&frame[1..])?;
    assert!(matches!(
        node.recv_one(addr(1), &datagram),
        Err(Error::PubsubProtocol { .. })
    ));
    Ok(())
}

fn established<A: PubsubAuth>(mux: &PubsubMux<A>) -> usize {
    mux.host().established_connections()
}

#[test]
fn a_fresh_node_has_no_peers() -> Result<(), Error> {
    let mux = null_mux()?;
    assert_eq!(established(&mux), 0);
    assert!(matches!(
        mux.send_app(addr(1), b"x"),
        Err(Error::HostState { .. })
    ));
    Ok(())
}

#[test]
fn coefficients_must_match_the_stored_pieces() -> Result<(), Error> {
    let topic = Topic::try_from("/t")?;
    let mux = null_mux()?.register_relay(topic.clone(), 2, 1, ());
    let frame = null_piece(&topic, &[1, 0], &[7])?;
    match mux.process_plaintext(addr(1), &frame, |_| Ok(vec![1, 1])) {
        Err(Failure { error: Error::RlncLayer { reason }, .. }) => {
            assert_eq!(reason, "dimension mismatch: expected 2, got 1");
        }
        other => panic!("unexpected outcome {}", other.is_ok()),
    }
    Ok(())
}

#[test]
fn a_relay_takes_independent_pieces_alone() -> Result<(), Error> {
    // Every piece is a combination of (1,2,0) and (0,1,1): rank two of three.
    let topic = Topic::try_from("/t")?;
    let mut mux = null_mux()?.register_relay(topic.clone(), 3, 1, ());
    let pieces: [([u8; 3], bool); 6] = [
        ([1, 2, 0], true),
        ([1, 2, 0], false),
        ([0, 1, 1], true),
        ([1, 3, 1], false),
        ([0, 0, 0], false),
        ([0, 2, 2], false),
    ];
    for (cv, fresh) in pieces {
        let frame = null_piece(&topic, &cv, &[7])?;
        let (next, event, _) = mux.process_plaintext(addr(1), &frame, ones)?;
        mux = next;
        assert_eq!(matches!(event, MuxEvent::PubsubRelayed { .. }), fresh, "{cv:?}");
        assert_eq!(matches!(event, MuxEvent::PubsubRedundant { .. }), !fresh, "{cv:?}");
    }
    // The third independent piece fills the rank; nothing is relayed after it.
    let (mux, event, _) =
        mux.process_plaintext(addr(1), &null_piece(&topic, &[0, 0, 5], &[7])?, ones)?;
    assert!(matches!(event, MuxEvent::PubsubRelayed { .. }));
    let (_, event, _) =
        mux.process_plaintext(addr(1), &null_piece(&topic, &[9, 9, 9], &[7])?, unused_relay_rng)?;
    assert!(matches!(event, MuxEvent::PubsubRedundant { .. }));
    Ok(())
}

#[test]
fn a_node_broadcasts_given_combinations() -> Result<(), Error> {
    let topic = Topic::try_from("/t")?;
    let node = PubsubNode::new();
    let (node, _) = node.add_peer(addr(1), TransportState::new([1; 32], [2; 32]));
    let vectors = vec![vec![1, 0], vec![1, 1]];
    let (node, out) = node.broadcast_with(topic.clone(), original(b"hello", 2)?, &vectors)?;
    assert_eq!(out.len(), 2);
    let peer = TransportState::new([2; 32], [1; 32]);
    let (peer, first) = peer.decrypt(&out[0].datagram);
    assert_eq!(first?, null_piece(&topic, &[1, 0], b"hel")?[1..]);
    let (_, second) = peer.decrypt(&out[1].datagram);
    let sum = [b'h' ^ b'l', b'e' ^ b'o', b'l' ^ 0x81];
    assert_eq!(second?, null_piece(&topic, &[1, 1], &sum)?[1..]);
    assert!(matches!(
        node.broadcast_with(topic, original(b"hello", 2)?, &vec![vec![1]]),
        Err(Failure { error: Error::RlncLayer { .. }, outbound }) if outbound.is_empty()
    ));
    Ok(())
}

fn wire(cv: &[u8], data: &[u8]) -> WirePiece<NullAuthenticator> {
    let piece = CodedPiece { coding_vector: cv.to_vec(), data: data.to_vec() };
    WirePiece::new((), piece, ())
}

#[test]
fn a_relay_sends_on_no_piece_twice() -> Result<(), Error> {
    let topic = Topic::new("twice".to_owned())?;
    let mux = null_mux()?.register_relay(topic.clone(), 3, 2, ());
    let (host, state) = mux.split();
    let first = wire(&[1, 2, 3], &[7, 8]);
    let (mux, event, _) = relay_path(host, state, addr(1), topic.clone(), &first, ones)?;
    assert!(matches!(event, MuxEvent::PubsubRelayed { .. }));
    let (host, state) = mux.split();
    let second = wire(&[0, 1, 1], &[4, 5]);
    let (mux, event, _) = relay_path(host, state, addr(1), topic.clone(), &second, ones)?;
    assert!(matches!(event, MuxEvent::PubsubRelayed { .. }));
    let (host, state) = mux.split();
    let (mux, event, _) = relay_path(host, state, addr(2), topic.clone(), &first, ones)?;
    assert!(matches!(event, MuxEvent::PubsubRedundant { .. }));
    // The sum of the two pieces is what the relay sent when it took the second.
    let (host, state) = mux.split();
    let sum = wire(&[1, 3, 2], &[3, 13]);
    let (_, event, outbound) = relay_path(host, state, addr(2), topic, &sum, unused_relay_rng)?;
    assert!(matches!(event, MuxEvent::PubsubRedundant { .. }));
    assert!(outbound.is_empty());
    Ok(())
}

#[test]
fn pieces_for_a_lost_role_are_refused() -> Result<(), Error> {
    let topic = Topic::new("lost".to_owned())?;
    let (host, state) = null_mux()?.split();
    let piece = wire(&[1], &[2]);
    let (mux, event, outbound) =
        relay_path(host, state, addr(1), topic.clone(), &piece, unused_relay_rng)?;
    assert!(outbound.is_empty());
    assert!(matches!(
        event,
        MuxEvent::Rejected { reason, .. } if reason == "recoder for topic lost vanished mid-dispatch"
    ));
    let (host, state) = mux.split();
    let (mux, event) = decoder_path(host, state, addr(1), topic, &piece);
    assert!(matches!(
        event,
        MuxEvent::Rejected { reason, .. } if reason == "decoder for topic lost vanished mid-dispatch"
    ));
    assert_eq!(mux.state().tick(), 0);
    Ok(())
}

#[test]
fn plaintexts_of_a_relayed_topic_are_relay_calls() -> Result<(), Error> {
    let topic = Topic::new("calls".to_owned())?;
    let mux = null_mux()?.register_relay(topic.clone(), 2, 1, ());
    let bytes = null_piece(&topic, &[1, 1], &[9])?;
    let (mux, event, _) = mux.process_plaintext(addr(1), &bytes, ones)?;
    assert!(matches!(event, MuxEvent::PubsubRelayed { .. }));
    let (host, state) = mux.split();
    let again = wire(&[1, 1], &[9]);
    let (_, event, _) = relay_path(host, state, addr(1), topic, &again, ones)?;
    assert!(matches!(event, MuxEvent::PubsubRedundant { .. }));
    Ok(())
}
