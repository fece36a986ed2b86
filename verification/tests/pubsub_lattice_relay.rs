//! A relay that holds no secret: it tags its pieces by combining the signatures
//! of the originals.

use std::cell::{Cell, RefCell};
use std::ops::Deref;
use std::rc::Rc;
use std::sync::Arc;

use libp2p_cat::addr::{Outbound, UdpAddr};
use libp2p_cat::error::Error;
use libp2p_cat::host::Host;
use libp2p_cat::identity::Ed25519Keypair;
use libp2p_cat::noise::StaticKeypair;
use libp2p_cat::pubsub::lattice::{signature_from_bytes, signature_to_vec, signature_width};
use libp2p_cat::pubsub::{
    unused_relay_rng, MuxEvent, PubsubAuth, PubsubMux, Topic, WireAuthenticator,
};
use libp2p_cat::rlnc::CodedPiece;
use rlnc_cat_rs::auth::Authenticator;
use rlnc_cat_rs::coding::piece::{CodedPiece as OuterPiece, CodingVector, OriginalData};
use rlnc_cat_rs::lattice::ZVec;
use rlnc_cat_rs::lhs::{
    keygen, Commitment, LatticeHomomorphicAuthenticator, LhsParams, PublicKey, SecretKey,
    Signature,
};
use rlnc_cat_rs::vector::GfVec;

/// Modulus for the test scheme; small enough to keep the lattice
/// arithmetic fast.
const Q: u32 = 97;

/// Rows of the public matrix `A`.
const PARAM_N: usize = 2;

/// Width of the primary block `A_0`.
const PARAM_M0: usize = 2;

/// `k_pieces`: number of original pieces in the generation.  Must
/// match the `piece_count` argument we pass to
/// `OriginalData::from_bytes` below.
const PARAM_K: usize = 3;

/// Squared norm bound for verification, with headroom for the small `Q`.
const SIG_NORM_BOUND_SQ: u128 = 100_000_000;

/// Klein-sampler width.  3.0 is comfortable for `Q <= 2^16`.
const SIGMA_G: f64 = 3.0;

type LhsAuth = LatticeHomomorphicAuthenticator<Q>;
type LhsMux = Node<Lattice>;

/// Lattice signatures behind the wire side of an authenticator.
struct Lattice(LhsAuth);

fn outer(piece: &CodedPiece) -> OuterPiece {
    OuterPiece::new(
        CodingVector::from_bytes(&piece.coding_vector),
        GfVec::from_bytes(&piece.data),
    )
}

impl WireAuthenticator for Lattice {
    type Commitment = Commitment;

    type Tag = Signature;

    fn commit(&self, original: &OriginalData) -> Commitment {
        self.0.commit(original)
    }

    fn tag(&self, commitment: &Commitment, piece: &CodedPiece) -> Signature {
        self.0.tag(commitment, &outer(piece))
    }

    fn verify(
        &self,
        commitment: &Commitment,
        piece: &CodedPiece,
        tag: &Signature,
    ) -> Result<(), String> {
        self.0
            .verify(commitment, &outer(piece), tag)
            .map_err(|_| "authenticator rejected the piece".to_owned())
    }

    fn copy_commitment(commitment: &Commitment) -> Commitment {
        *commitment
    }

    fn commitment_width(bytes: &[u8]) -> Option<usize> {
        if bytes.len() < 32 {
            None
        } else {
            Some(32)
        }
    }

    fn tag_width(bytes: &[u8]) -> Option<usize> {
        signature_width(bytes)
    }

    fn commitment_to_vec(commitment: &Commitment) -> Vec<u8> {
        commitment.as_bytes().to_vec()
    }

    fn commitment_from_bytes(bytes: &[u8]) -> Result<Commitment, Error> {
        <[u8; 32]>::try_from(bytes)
            .map(Commitment::from)
            .map_err(|_| Error::PubsubProtocol {
                reason: format!("lattice commitment must be 32 bytes, got {}", bytes.len()),
            })
    }

    fn tag_to_vec(tag: &Signature) -> Vec<u8> {
        signature_to_vec(tag.sigma().entries())
            .expect("a signature has fewer than 2^32 entries")
    }

    fn tag_from_bytes(bytes: &[u8]) -> Result<Signature, Error> {
        signature_from_bytes(bytes).map(|entries| Signature::new(ZVec::new(entries)))
    }
}

/// Datagrams under way, oldest first: receiver, sender, bytes.
type Queue = Rc<RefCell<Vec<(UdpAddr, UdpAddr, Vec<u8>)>>>;

/// A network in memory. Each socket gets a port of its own.
struct Net {
    queue: Queue,
    ports: Cell<u16>,
}

impl Net {
    fn new() -> Net {
        Net {
            queue: Rc::new(RefCell::new(Vec::new())),
            ports: Cell::new(4000),
        }
    }

    fn bind(&self) -> Socket {
        let port = self.ports.get();
        self.ports.set(port + 1);
        Socket {
            addr: UdpAddr::v4([127, 0, 0, 1], port),
            queue: Rc::clone(&self.queue),
        }
    }
}

struct Socket {
    addr: UdpAddr,
    queue: Queue,
}

impl Socket {
    fn local_addr(&self) -> UdpAddr {
        self.addr
    }

    fn send(self, to: UdpAddr, datagram: Vec<u8>) -> Socket {
        self.queue.borrow_mut().push((to, self.addr, datagram));
        self
    }

    fn send_out(self, outbound: Outbound) -> Socket {
        self.send(outbound.addr, outbound.datagram)
    }

    fn recv(self) -> Result<((UdpAddr, Vec<u8>), Socket), Error> {
        let found = self
            .queue
            .borrow()
            .iter()
            .position(|(to, _, _)| *to == self.addr);
        match found {
            Some(at) => {
                let (_, from, datagram) = self.queue.borrow_mut().remove(at);
                Ok(((from, datagram), self))
            }
            None => Err(Error::Io("nothing to receive".to_owned())),
        }
    }
}

/// A multiplexer at its socket.
struct Node<A: PubsubAuth> {
    mux: PubsubMux<A>,
    socket: Socket,
}

impl<A: PubsubAuth> Deref for Node<A> {
    type Target = PubsubMux<A>;

    fn deref(&self) -> &PubsubMux<A> {
        &self.mux
    }
}

impl<A: PubsubAuth> Node<A> {
    fn dial(self, addr: UdpAddr, seed: [u8; 32]) -> Result<Self, Error> {
        let (mux, outbound) = self.mux.dial(addr, seed)?;
        let socket = self.socket.send_out(outbound);
        Ok(Node { mux, socket })
    }

    fn recv_one<R: FnOnce(usize) -> Result<Vec<u8>, String>>(
        self,
        seed: [u8; 32],
        rng: R,
    ) -> Result<(Self, MuxEvent), Error> {
        let ((from, datagram), socket) = self.socket.recv()?;
        let (mux, event, outbound) = self.mux.recv_one(from, &datagram, seed, rng)?;
        let socket = outbound.into_iter().fold(socket, Socket::send_out);
        Ok((Node { mux, socket }, event))
    }

    fn register_topic(self, topic: Topic, k: usize, b: usize, commitment: A::Commitment) -> Self {
        Node {
            mux: self.mux.register_topic(topic, k, b, commitment),
            socket: self.socket,
        }
    }

    fn register_relay(self, topic: Topic, k: usize, b: usize, commitment: A::Commitment) -> Self {
        Node {
            mux: self.mux.register_relay(topic, k, b, commitment),
            socket: self.socket,
        }
    }

    fn broadcast<F: Fn(usize) -> Result<Vec<u8>, String>>(
        self,
        topic: Topic,
        data: OriginalData,
        n: usize,
        rng: F,
    ) -> Result<(Self, A::Commitment), Error> {
        let (mux, commitment, outbound) = self.mux.broadcast(topic, data, n, rng)?;
        let socket = outbound.into_iter().fold(self.socket, Socket::send_out);
        Ok((Node { mux, socket }, commitment))
    }
}

fn check(cond: bool, reason: impl FnOnce() -> String) -> Result<(), Error> {
    if cond {
        Ok(())
    } else {
        Err(Error::PubsubProtocol { reason: reason() })
    }
}

/// The numbers from `seed` on, as little-endian bytes.
fn counter_rng(seed: u64) -> impl Fn(usize) -> Result<Vec<u8>, rlnc_cat_rs::error::Error> {
    let counter = Cell::new(seed);
    move |n: usize| {
        let blocks = n.div_ceil(8);
        let bytes: Vec<u8> = (0..blocks)
            .flat_map(|_| {
                let next = counter.get();
                counter.set(next + 1);
                next.to_le_bytes()
            })
            .take(n)
            .collect();
        Ok(bytes)
    }
}

fn lhs_params() -> Result<LhsParams<Q>, Error> {
    LhsParams::<Q>::new(PARAM_N, PARAM_M0, PARAM_K, SIG_NORM_BOUND_SQ, SIGMA_G).map_err(|e| {
        Error::RlncLayer {
            reason: e.to_string(),
        }
    })
}

fn lhs_keygen(seed: u64) -> Result<(PublicKey<Q>, SecretKey<Q>), Error> {
    let params = lhs_params()?;
    let rng = counter_rng(seed);
    keygen(params, &rng).map_err(|e| Error::RlncLayer {
        reason: e.to_string(),
    })
}

fn source_auth(
    pk: PublicKey<Q>,
    sk: &SecretKey<Q>,
    metadata: &[u8],
    rng_seed: u64,
) -> Result<LhsAuth, Error> {
    let rng = counter_rng(rng_seed);
    LatticeHomomorphicAuthenticator::<Q>::new(pk, sk, metadata, &rng).map_err(|e| {
        Error::RlncLayer {
            reason: e.to_string(),
        }
    })
}

fn public_auth(
    pk: PublicKey<Q>,
    metadata: &[u8],
    signed_originals: Vec<Signature>,
) -> Result<LhsAuth, Error> {
    LatticeHomomorphicAuthenticator::<Q>::from_public_artifacts(pk, metadata, signed_originals)
        .map_err(|e| Error::RlncLayer {
            reason: e.to_string(),
        })
}

fn build_mux(net: &Net, seed: u8, auth: LhsAuth) -> Result<(LhsMux, UdpAddr), Error> {
    let socket = net.bind();
    let addr = socket.local_addr();
    let keypair = StaticKeypair::from_private_bytes([seed; 32]);
    let identity = Ed25519Keypair::from_seed([seed.wrapping_add(1); 32]);
    let host = Host::new(keypair, &identity, [seed.wrapping_add(2); 32])?;
    let mux = PubsubMux::new(host, Arc::new(Lattice(auth)));
    Ok((Node { mux, socket }, addr))
}

fn expect_handshake_progress(ev: MuxEvent, expected_addr: UdpAddr) -> Result<(), Error> {
    match ev {
        MuxEvent::HandshakeProgress { addr } if addr == expected_addr => Ok(()),
        other @ (MuxEvent::HandshakeProgress { .. }
        | MuxEvent::HandshakeComplete { .. }
        | MuxEvent::AppData { .. }
        | MuxEvent::PubsubAbsorbed { .. }
        | MuxEvent::PubsubDelivered { .. }
        | MuxEvent::PubsubRelayed { .. }
        | MuxEvent::PubsubRedundant { .. }
        | MuxEvent::Rejected { .. }) => Err(Error::PubsubProtocol {
            reason: format!("expected HandshakeProgress({expected_addr:?}), got {other:?}"),
        }),
    }
}

fn expect_handshake_complete(ev: MuxEvent, expected_addr: UdpAddr) -> Result<(), Error> {
    match ev {
        MuxEvent::HandshakeComplete { addr, .. } if addr == expected_addr => Ok(()),
        other @ (MuxEvent::HandshakeProgress { .. }
        | MuxEvent::HandshakeComplete { .. }
        | MuxEvent::AppData { .. }
        | MuxEvent::PubsubAbsorbed { .. }
        | MuxEvent::PubsubDelivered { .. }
        | MuxEvent::PubsubRelayed { .. }
        | MuxEvent::PubsubRedundant { .. }
        | MuxEvent::Rejected { .. }) => Err(Error::PubsubProtocol {
            reason: format!("expected HandshakeComplete({expected_addr:?}), got {other:?}"),
        }),
    }
}

fn handshake_pair(
    initiator: LhsMux,
    responder: LhsMux,
    initiator_addr: UdpAddr,
    responder_addr: UdpAddr,
    initiator_seed: [u8; 32],
    responder_seed: [u8; 32],
) -> Result<(LhsMux, LhsMux), Error> {
    let initiator = initiator.dial(responder_addr, initiator_seed)?;
    // Cookie round-trip then the three Noise messages.
    let (responder, ev) = responder.recv_one(responder_seed, unused_relay_rng)?;
    expect_handshake_progress(ev, initiator_addr)?;
    let (initiator, ev) = initiator.recv_one([0; 32], unused_relay_rng)?;
    expect_handshake_progress(ev, responder_addr)?;
    let (responder, ev) = responder.recv_one(responder_seed, unused_relay_rng)?;
    expect_handshake_progress(ev, initiator_addr)?;
    let (initiator, ev) = initiator.recv_one([0; 32], unused_relay_rng)?;
    expect_handshake_complete(ev, responder_addr)?;
    let (responder, ev) = responder.recv_one([0; 32], unused_relay_rng)?;
    expect_handshake_complete(ev, initiator_addr)?;
    Ok((initiator, responder))
}

/// Standard basis vectors in turn: the first `n` are linearly independent.
fn standard_basis_rng() -> impl Fn(usize) -> Result<Vec<u8>, String> {
    let counter = Cell::new(0usize);
    move |n: usize| {
        let i = counter.get();
        counter.set(i + 1);
        Ok((0..n).map(|j| u8::from(j == (i % n))).collect())
    }
}

/// Ones throughout.
fn ones_rng_once() -> impl FnOnce(usize) -> Result<Vec<u8>, String> {
    |n: usize| Ok(vec![1u8; n])
}

#[test]
fn lhs_relay_decodes_at_downstream_with_public_only_relay() -> Result<(), Error> {
    let net = Net::new();
    // 1. Out-of-band setup: keygen, source signs the originals, the
    // public transcript (pk, metadata, signed_originals) is shared
    // with the relay and bob.
    let (pk, sk) = lhs_keygen(0xCAFE)?;
    let metadata: &[u8] = b"libp2p-cat lhs relay test/v1";
    let alice_auth = source_auth(pk.clone(), &sk, metadata, 0x00C0_FFEE)?;
    let signed_originals = alice_auth.signed_originals().to_vec();

    // 2. Relay and bob rebuild from the public transcript: no sk.
    let relay_auth = public_auth(pk.clone(), metadata, signed_originals.clone())?;
    let bob_auth = public_auth(pk, metadata, signed_originals)?;

    // 3. Build muxes and complete handshakes.
    let (alice, alice_addr) = build_mux(&net, 0xA1, alice_auth)?;
    let (relay, relay_addr) = build_mux(&net, 0xB2, relay_auth)?;
    let (bob, bob_addr) = build_mux(&net, 0xC3, bob_auth)?;
    let (alice, relay) =
        handshake_pair(alice, relay, alice_addr, relay_addr, [0x44; 32], [0x55; 32])?;
    let (bob, relay) = handshake_pair(bob, relay, bob_addr, relay_addr, [0x66; 32], [0x77; 32])?;

    // 4. The original payload, padded to PARAM_K pieces.
    let topic: Topic = "/lhs/v1".try_into()?;
    let payload: &[u8] = b"hello via homomorphic relay";
    let data = OriginalData::from_bytes(payload, PARAM_K).map_err(|e| Error::RlncLayer {
        reason: e.to_string(),
    })?;
    let piece_byte_len = data.piece_byte_len();
    let commitment = alice.commit(&data);
    let relay = relay.register_relay(topic.clone(), PARAM_K, piece_byte_len, commitment);
    let bob = bob.register_topic(topic.clone(), PARAM_K, piece_byte_len, commitment);

    // 5. Alice broadcasts.  The source-side auth signs each emitted
    // piece with sk-derived material, but the wire only carries
    // (commitment, sigma_combined) and the receivers verify with the
    // public artefacts they already hold.
    let (_alice_after, broadcast_commitment) = alice
        .broadcast(topic.clone(), data, PARAM_K, standard_basis_rng())?;
    check(
        broadcast_commitment.as_bytes() == commitment.as_bytes(),
        || "broadcast commitment differs from pre-broadcast commitment".to_owned(),
    )?;

    // 6. Relay drains PARAM_K datagrams.  For each, it verifies the
    // tag against the registered commitment, recodes by random
    // linear combination, **homomorphically** re-tags using only
    // (pk, metadata, sigma_originals), and forwards.
    let _relay_after = (0..PARAM_K).try_fold(relay, |relay, idx| -> Result<LhsMux, Error> {
        let (relay, ev) = relay.recv_one([0; 32], ones_rng_once())?;
        match ev {
            MuxEvent::PubsubRelayed {
                from,
                topic: t,
                fanout_count,
            } if from == alice_addr && t == topic && fanout_count == 1 => Ok(relay),
            other @ (MuxEvent::PubsubRelayed { .. }
            | MuxEvent::PubsubAbsorbed { .. }
            | MuxEvent::PubsubDelivered { .. }
            | MuxEvent::PubsubRedundant { .. }
            | MuxEvent::AppData { .. }
            | MuxEvent::HandshakeProgress { .. }
            | MuxEvent::HandshakeComplete { .. }
            | MuxEvent::Rejected { .. }) => Err(Error::PubsubProtocol {
                reason: format!(
                    "relay piece {idx}: expected PubsubRelayed(from=alice, fanout=1), got {other:?}"
                ),
            }),
        }
    })?;

    // 7. Bob drains PARAM_K datagrams.  Each verifies against the
    // shared commitment + LHS public key; the third completes the
    // decoder.
    let (_bob_after, bob_data) = (0..PARAM_K).try_fold(
        (bob, None::<Vec<u8>>),
        |(bob, acc), idx| -> Result<(LhsMux, Option<Vec<u8>>), Error> {
            let (bob, ev) = bob.recv_one([0; 32], unused_relay_rng)?;
            match ev {
                MuxEvent::PubsubAbsorbed { addr, topic: t } if addr == relay_addr && t == topic => {
                    Ok((bob, acc))
                }
                MuxEvent::PubsubDelivered {
                    addr,
                    topic: t,
                    data,
                } if addr == relay_addr && t == topic => Ok((bob, Some(data))),
                other @ (MuxEvent::PubsubAbsorbed { .. }
                | MuxEvent::PubsubDelivered { .. }
                | MuxEvent::PubsubRelayed { .. }
                | MuxEvent::PubsubRedundant { .. }
                | MuxEvent::AppData { .. }
                | MuxEvent::HandshakeProgress { .. }
                | MuxEvent::HandshakeComplete { .. }
                | MuxEvent::Rejected { .. }) => Err(Error::PubsubProtocol {
                    reason: format!("bob piece {idx}: unexpected event {other:?}"),
                }),
            }
        },
    )?;

    let bob_data = bob_data.ok_or_else(|| Error::PubsubProtocol {
        reason: "bob never observed a PubsubDelivered".to_owned(),
    })?;
    let bob_prefix = bob_data
        .get(..payload.len())
        .ok_or_else(|| Error::PubsubProtocol {
            reason: "bob's reconstructed bytes shorter than payload".to_owned(),
        })?;
    check(bob_prefix == payload, || {
        format!("bob payload mismatch: got {bob_prefix:?}")
    })
}

#[test]
fn lhs_relay_rejects_pieces_from_a_different_generation() -> Result<(), Error> {
    let net = Net::new();
    // Setup two independent generations under the same keypair: one
    // that alice will broadcast, and one whose commitment the relay
    // is registered with.  Every inbound tag verifies against
    // alice's commitment, never the relay's, so verify rejects every
    // piece before the recoder gets to add it.
    let (pk, sk) = lhs_keygen(0xCAFE)?;
    let metadata_alice: &[u8] = b"libp2p-cat lhs relay test/genA";
    let metadata_other: &[u8] = b"libp2p-cat lhs relay test/genB";
    let alice_auth = source_auth(pk.clone(), &sk, metadata_alice, 0x00C0_FFEE)?;
    let alice_originals = alice_auth.signed_originals().to_vec();

    // The relay holds a different generation's transcript.
    let other_auth_for_relay = source_auth(pk.clone(), &sk, metadata_other, 0xDEAD)?;
    let other_originals = other_auth_for_relay.signed_originals().to_vec();
    let relay_auth = public_auth(pk.clone(), metadata_other, other_originals)?;
    let bob_auth = public_auth(pk, metadata_alice, alice_originals)?;
    let other_commitment = *other_auth_for_relay.commitment();

    let (alice, alice_addr) = build_mux(&net, 0xA1, alice_auth)?;
    let (relay, relay_addr) = build_mux(&net, 0xB2, relay_auth)?;
    let (bob, bob_addr) = build_mux(&net, 0xC3, bob_auth)?;
    let (alice, relay) =
        handshake_pair(alice, relay, alice_addr, relay_addr, [0x44; 32], [0x55; 32])?;
    let (_bob_handshaked, relay) =
        handshake_pair(bob, relay, bob_addr, relay_addr, [0x66; 32], [0x77; 32])?;

    let topic: Topic = "/lhs/v1".try_into()?;
    let payload: &[u8] = b"this should be rejected at relay";
    let data = OriginalData::from_bytes(payload, PARAM_K).map_err(|e| Error::RlncLayer {
        reason: e.to_string(),
    })?;
    let piece_byte_len = data.piece_byte_len();

    // The relay registers under the *other* generation's
    // commitment.
    let relay = relay.register_relay(topic.clone(), PARAM_K, piece_byte_len, other_commitment);

    let (_alice_after, _alice_commitment) = alice
        .broadcast(topic.clone(), data, PARAM_K, standard_basis_rng())?;

    // Drain PARAM_K events; each must be MuxEvent::Rejected with a
    // verify-failure reason.
    let _final_relay = (0..PARAM_K).try_fold(relay, |relay, idx| -> Result<LhsMux, Error> {
        let (relay, ev) = relay.recv_one([0; 32], ones_rng_once())?;
        match ev {
            MuxEvent::Rejected { addr, ref reason }
                if addr == alice_addr && reason.contains("auth verify failed") =>
            {
                Ok(relay)
            }
            other @ (MuxEvent::Rejected { .. }
            | MuxEvent::AppData { .. }
            | MuxEvent::PubsubAbsorbed { .. }
            | MuxEvent::PubsubDelivered { .. }
            | MuxEvent::PubsubRelayed { .. }
            | MuxEvent::PubsubRedundant { .. }
            | MuxEvent::HandshakeProgress { .. }
            | MuxEvent::HandshakeComplete { .. }) => Err(Error::PubsubProtocol {
                reason: format!(
                    "piece {idx}: expected Rejected(auth verify failed), got {other:?}"
                ),
            }),
        }
    })?;
    Ok(())
}
