//! The three messages of the Noise XX handshake, as one type per phase.
//!
//! - Message 1, initiator to responder: `e`.
//! - Message 2, responder to initiator: `e || enc(s) || enc(trailer)`.
//! - Message 3, initiator to responder: `enc(s) || enc(trailer)`.
use vstd::prelude::*;
use vstd::slice::slice_subrange;
use crate::bytes::{append, array32, concat};
use crate::crypto::{x25519_public, x25519_shared, AEAD_PLAINTEXT_LIMIT};
use crate::error::{Error, ErrorView};
use crate::noise::primitives::{
    dh_agrees, dh_ee, dh_es, dh_se, EphemeralPrivateKey, EphemeralPublicKey, StaticKeypair,
    StaticPublicKey,
};
use crate::noise::symmetric::{SymmetricState, SymmetricView};
use crate::noise::transport::{TransportState, TransportView};
use crate::text::{decimal, with_number};

verus! {

/// Length of message 1.
pub const MESSAGE_1_LEN: usize = 32;

/// Length of message 2 with an empty trailer, the shortest it can be.
pub const MESSAGE_2_LEN: usize = 96;

/// Length of message 3 with an empty trailer, the shortest it can be.
pub const MESSAGE_3_LEN: usize = 64;

/// Length of an encrypted static key.
const ENC_STATIC_LEN: usize = 48;

// ---------------------------------------------------------------- meaning

/// An initiator that waits for message 2.
pub struct InitiatorAfterEView {
    /// The static private key.
    pub s: Seq<u8>,
    /// The ephemeral private key.
    pub e: Seq<u8>,
    pub sym: SymmetricView,
}

/// An initiator that has read message 2.
pub struct InitiatorAfterResponseView {
    /// The static private key.
    pub s: Seq<u8>,
    /// The responder's ephemeral public key.
    pub re: Seq<u8>,
    /// The responder's static public key.
    pub rs: Seq<u8>,
    pub sym: SymmetricView,
}

/// A responder that has read message 1.
pub struct ResponderAfterEView {
    /// The static private key.
    pub s: Seq<u8>,
    /// The initiator's ephemeral public key.
    pub re: Seq<u8>,
    pub sym: SymmetricView,
}

/// A responder that waits for message 3.
pub struct ResponderAfterResponseView {
    /// The ephemeral private key.
    pub e: Seq<u8>,
    pub sym: SymmetricView,
}

/// The symmetric state of both sides after message 1.
pub open spec fn sym_after_e(e_public: Seq<u8>) -> SymmetricView {
    SymmetricView::initial().mix_hash(e_public).mix_hash(Seq::empty())
}

/// Message 1 and the initiator that wrote it.
pub open spec fn write_e_spec(s: Seq<u8>, seed: Seq<u8>) -> (InitiatorAfterEView, Seq<u8>) {
    let e_public = x25519_public(seed);
    (InitiatorAfterEView { s, e: seed, sym: sym_after_e(e_public) }, e_public)
}

/// The responder that has read message 1.
pub open spec fn read_e_spec(s: Seq<u8>, msg: Seq<u8>) -> Result<ResponderAfterEView, ErrorView> {
    if msg.len() == MESSAGE_1_LEN {
        Ok(ResponderAfterEView { s, re: msg, sym: sym_after_e(msg) })
    } else {
        Err(
            ErrorView::NoiseProtocol(
                "expected 32-byte handshake message 1, got "@ + decimal(msg.len()),
            ),
        )
    }
}

impl ResponderAfterEView {
    /// The state in which the responder encrypts its static key.
    pub open spec fn sym_for_static(self, seed: Seq<u8>) -> SymmetricView {
        self.sym.mix_hash(x25519_public(seed)).mix_key(x25519_shared(seed, self.re))
    }

    /// The encrypted static key of message 2.
    pub open spec fn enc_static(self, seed: Seq<u8>) -> Seq<u8> {
        self.sym_for_static(seed).ciphertext(x25519_public(self.s))
    }

    /// The state in which the responder encrypts its trailer.
    pub open spec fn sym_for_trailer(self, seed: Seq<u8>) -> SymmetricView {
        self.sym_for_static(seed).after(self.enc_static(seed)).mix_key(
            x25519_shared(self.s, self.re),
        )
    }

    /// Message 2.
    pub open spec fn response(self, seed: Seq<u8>, payload: Seq<u8>) -> Seq<u8> {
        x25519_public(seed) + self.enc_static(seed) + self.sym_for_trailer(seed).ciphertext(payload)
    }

    /// The responder that has written message 2.
    pub open spec fn after_response(
        self,
        seed: Seq<u8>,
        payload: Seq<u8>,
    ) -> ResponderAfterResponseView {
        let sym = self.sym_for_trailer(seed);
        ResponderAfterResponseView { e: seed, sym: sym.after(sym.ciphertext(payload)) }
    }
}

impl InitiatorAfterEView {
    /// The state in which the initiator decrypts the responder's static key.
    pub open spec fn sym_for_static(self, msg: Seq<u8>) -> SymmetricView {
        let re = msg.subrange(0, 32);
        self.sym.mix_hash(re).mix_key(x25519_shared(self.e, re))
    }

    /// The responder's static key, where it authenticates.
    pub open spec fn remote_static(self, msg: Seq<u8>) -> Option<Seq<u8>> {
        self.sym_for_static(msg).plaintext(msg.subrange(32, 80))
    }

    /// The state in which the initiator decrypts the trailer.
    pub open spec fn sym_for_trailer(self, msg: Seq<u8>) -> SymmetricView {
        self.sym_for_static(msg).after(msg.subrange(32, 80)).mix_key(
            x25519_shared(self.e, self.remote_static(msg)->Some_0),
        )
    }

    /// What reading message 2 gives: the next state and the trailer.
    pub open spec fn read_response(self, msg: Seq<u8>) -> Result<
        (InitiatorAfterResponseView, Seq<u8>),
        ErrorView,
    > {
        if msg.len() < MESSAGE_2_LEN {
            Err(
                ErrorView::NoiseProtocol(
                    "expected at least 96-byte handshake message 2, got "@ + decimal(msg.len()),
                ),
            )
        } else {
            match self.remote_static(msg) {
                None => Err(ErrorView::NoiseDecrypt),
                Some(rs) => {
                    let sym = self.sym_for_trailer(msg);
                    let trailer = msg.subrange(80, msg.len() as int);
                    match sym.plaintext(trailer) {
                        None => Err(ErrorView::NoiseDecrypt),
                        Some(payload) => Ok(
                            (
                                InitiatorAfterResponseView {
                                    s: self.s,
                                    re: msg.subrange(0, 32),
                                    rs,
                                    sym: sym.after(trailer),
                                },
                                payload,
                            ),
                        ),
                    }
                },
            }
        }
    }

    /// This initiator and that responder share the first message.
    pub open spec fn paired(self, responder: ResponderAfterEView) -> bool {
        &&& self.e.len() == 32
        &&& responder.re == x25519_public(self.e)
        &&& responder.sym == self.sym
    }
}

impl InitiatorAfterResponseView {
    /// The encrypted static key of message 3.
    pub open spec fn enc_static(self) -> Seq<u8> {
        self.sym.ciphertext(x25519_public(self.s))
    }

    /// The state in which the initiator encrypts its trailer.
    pub open spec fn sym_for_trailer(self) -> SymmetricView {
        self.sym.after(self.enc_static()).mix_key(x25519_shared(self.s, self.re))
    }

    /// Message 3.
    pub open spec fn final_message(self, payload: Seq<u8>) -> Seq<u8> {
        self.enc_static() + self.sym_for_trailer().ciphertext(payload)
    }

    /// The session that message 3 opens on this side.
    pub open spec fn session(self, payload: Seq<u8>) -> TransportView {
        let sym = self.sym_for_trailer();
        let (from_initiator, to_initiator) = sym.after(sym.ciphertext(payload)).split();
        TransportView::initial(from_initiator, to_initiator)
    }

    /// This initiator and that responder share the first two messages.
    pub open spec fn paired(self, responder: ResponderAfterResponseView) -> bool {
        &&& responder.e.len() == 32
        &&& self.re == x25519_public(responder.e)
        &&& responder.sym == self.sym
    }
}

impl ResponderAfterResponseView {
    /// The initiator's static key, where it authenticates.
    pub open spec fn remote_static(self, msg: Seq<u8>) -> Option<Seq<u8>> {
        self.sym.plaintext(msg.subrange(0, 48))
    }

    /// The state in which the responder decrypts the trailer.
    pub open spec fn sym_for_trailer(self, msg: Seq<u8>) -> SymmetricView {
        self.sym.after(msg.subrange(0, 48)).mix_key(
            x25519_shared(self.e, self.remote_static(msg)->Some_0),
        )
    }

    /// What reading message 3 gives: the session, the initiator's static key
    /// and the trailer.
    pub open spec fn read_s(self, msg: Seq<u8>) -> Result<
        (TransportView, Seq<u8>, Seq<u8>),
        ErrorView,
    > {
        if msg.len() < MESSAGE_3_LEN {
            Err(
                ErrorView::NoiseProtocol(
                    "expected at least 64-byte handshake message 3, got "@ + decimal(msg.len()),
                ),
            )
        } else {
            match self.remote_static(msg) {
                None => Err(ErrorView::NoiseDecrypt),
                Some(rs) => {
                    let sym = self.sym_for_trailer(msg);
                    let trailer = msg.subrange(48, msg.len() as int);
                    match sym.plaintext(trailer) {
                        None => Err(ErrorView::NoiseDecrypt),
                        Some(payload) => {
                            let (from_initiator, to_initiator) = sym.after(trailer).split();
                            Ok((TransportView::initial(to_initiator, from_initiator), rs, payload))
                        },
                    }
                },
            }
        }
    }
}

/// Message 1 brings a responder into the state that belongs to the initiator's.
pub proof fn message_one_pairs(initiator_s: Seq<u8>, seed: Seq<u8>, responder_s: Seq<u8>)
    requires
        seed.len() == 32,
        x25519_public(seed).len() == 32,
    ensures
        ({
            let (initiator, msg) = write_e_spec(initiator_s, seed);
            read_e_spec(responder_s, msg) matches Ok(responder) && initiator.paired(responder)
        }),
{
}

// -------------------------------------------------------------- initiator

/// An initiator that has sent nothing yet.
pub struct Initiator {
    pub(crate) static_keypair: StaticKeypair,
    pub(crate) sym: SymmetricState,
}

impl View for Initiator {
    type V = Seq<u8>;

    /// The static private key.
    closed spec fn view(&self) -> Seq<u8> {
        self.static_keypair@
    }
}

impl Initiator {
    #[verifier::type_invariant]
    pub(crate) closed spec fn valid(&self) -> bool {
        self.sym@ == SymmetricView::initial()
    }

    /// Begins a handshake as the initiator.
    pub fn new(static_keypair: StaticKeypair) -> (initiator: Self)
        ensures
            initiator@ == static_keypair@,
    {
        Initiator { static_keypair, sym: SymmetricState::initialize() }
    }

    /// Writes message 1. `ephemeral_seed` is 32 random bytes.
    pub fn write_e(self, ephemeral_seed: [u8; 32]) -> (r: Result<(InitiatorAfterE, Vec<u8>), Error>)
        ensures
            r matches Ok((next, msg)) && (next@, msg@) == write_e_spec(self@, ephemeral_seed@)
                && msg@.len() == MESSAGE_1_LEN,
    {
        proof {
            use_type_invariant(&self);
        }
        let eph_private = EphemeralPrivateKey::from_seed(ephemeral_seed);
        let eph_public = eph_private.public();
        let sym = self.sym.mix_hash(eph_public.as_bytes().as_slice());
        let empty: [u8; 0] = [];
        assert(empty@ =~= Seq::<u8>::empty());
        match sym.encrypt_and_hash(empty.as_slice()) {
            Err(e) => Err(e),
            Ok((sym, trailing)) => {
                let msg = concat(eph_public.as_bytes().as_slice(), trailing.as_slice());
                assert(msg@ =~= eph_public@);
                Ok((InitiatorAfterE { static_keypair: self.static_keypair, eph_private, sym }, msg))
            },
        }
    }
}

/// An initiator that waits for message 2.
pub struct InitiatorAfterE {
    pub(crate) static_keypair: StaticKeypair,
    pub(crate) eph_private: EphemeralPrivateKey,
    pub(crate) sym: SymmetricState,
}

impl View for InitiatorAfterE {
    type V = InitiatorAfterEView;

    closed spec fn view(&self) -> InitiatorAfterEView {
        InitiatorAfterEView { s: self.static_keypair@, e: self.eph_private@, sym: self.sym@ }
    }
}

impl Clone for InitiatorAfterE {
    fn clone(&self) -> (copy: Self)
        ensures
            copy == *self,
    {
        proof {
            use_type_invariant(self);
        }
        InitiatorAfterE {
            static_keypair: self.static_keypair.clone(),
            eph_private: self.eph_private.clone(),
            sym: self.sym.clone(),
        }
    }
}

impl InitiatorAfterE {
    #[verifier::type_invariant]
    pub(crate) closed spec fn valid(&self) -> bool {
        self.sym@.cipher_key is None && self.sym@.nonce == 0
    }

    /// Reads message 2 and hands out its trailer.
    ///
    /// A message shorter than [`MESSAGE_2_LEN`] is a protocol error; one whose
    /// static key or trailer does not authenticate fails to decrypt.
    pub fn read_response(self, msg: &[u8]) -> (r: Result<
        (InitiatorAfterResponse, Vec<u8>),
        Error,
    >)
        ensures
            match r {
                Ok((next, payload)) => self@.read_response(msg@) == Ok::<
                    (InitiatorAfterResponseView, Seq<u8>),
                    ErrorView,
                >((next@, payload@)),
                Err(e) => self@.read_response(msg@) == Err::<
                    (InitiatorAfterResponseView, Seq<u8>),
                    ErrorView,
                >(e@),
            },
    {
        proof {
            use_type_invariant(&self);
        }
        let total: usize = msg.len();
        if total < MESSAGE_2_LEN {
            return Err(
                Error::NoiseProtocol {
                    reason: with_number(
                        "expected at least 96-byte handshake message 2, got ",
                        total as u64,
                    ),
                },
            );
        }
        let e_slice = slice_subrange(msg, 0, 32);
        let enc_static = slice_subrange(msg, 32, 80);
        let enc_payload = slice_subrange(msg, 80, total);
        let remote_eph = EphemeralPublicKey::from_bytes(array32(e_slice));
        let sym = self.sym.mix_hash(remote_eph.as_bytes().as_slice());
        let sym = sym.mix_key(&dh_ee(&self.eph_private, &remote_eph));
        let (sym, remote_static_plain) = match sym.decrypt_and_hash(enc_static) {
            Ok(pair) => pair,
            Err(e) => {
                return Err(e);
            },
        };
        let remote_static = StaticPublicKey::from_bytes(array32(remote_static_plain.as_slice()));
        let sym = sym.mix_key(&dh_es(&self.eph_private, &remote_static));
        match sym.decrypt_and_hash(enc_payload) {
            Err(e) => Err(e),
            Ok((sym, payload)) => Ok(
                (
                    InitiatorAfterResponse {
                        static_keypair: self.static_keypair,
                        remote_eph,
                        remote_static,
                        sym,
                    },
                    payload,
                ),
            ),
        }
    }
}

/// An initiator that has read message 2: the responder's static key is
/// authenticated.
pub struct InitiatorAfterResponse {
    pub(crate) static_keypair: StaticKeypair,
    pub(crate) remote_eph: EphemeralPublicKey,
    pub(crate) remote_static: StaticPublicKey,
    pub(crate) sym: SymmetricState,
}

impl View for InitiatorAfterResponse {
    type V = InitiatorAfterResponseView;

    closed spec fn view(&self) -> InitiatorAfterResponseView {
        InitiatorAfterResponseView {
            s: self.static_keypair@,
            re: self.remote_eph@,
            rs: self.remote_static@,
            sym: self.sym@,
        }
    }
}

impl InitiatorAfterResponse {
    #[verifier::type_invariant]
    pub(crate) closed spec fn valid(&self) -> bool {
        self.sym@.cipher_key is Some && self.sym@.nonce == 1
    }

    /// The responder's static public key.
    pub fn remote_static(&self) -> (key: &StaticPublicKey)
        ensures
            key@ == self@.rs,
    {
        &self.remote_static
    }

    /// Writes message 3 with a trailer and opens the session. Fails only on a
    /// trailer too long to encrypt. A responder that is paired with this
    /// initiator reads from the message the other end of the session, this
    /// side's static key and the trailer.
    pub fn write_s(self, payload: &[u8]) -> (r: Result<
        (TransportState, Vec<u8>, StaticPublicKey),
        Error,
    >)
        ensures
            match r {
                Ok((transport, msg, remote_static)) => {
                    &&& payload@.len() < AEAD_PLAINTEXT_LIMIT
                    &&& transport@ == self@.session(payload@)
                    &&& msg@ == self@.final_message(payload@)
                    &&& msg@.len() == MESSAGE_3_LEN + payload@.len()
                    &&& remote_static@ == self@.rs
                    &&& forall|responder: ResponderAfterResponseView| #[trigger]
                        self@.paired(responder) ==> {
                            &&& responder.read_s(msg@) matches Ok((session, rs, received))
                            &&& session.mirrors(transport@)
                            &&& session == TransportView::initial(
                                transport@.recv_key,
                                transport@.send_key,
                            )
                            &&& rs == x25519_public(self@.s)
                            &&& received == payload@
                        }
                },
                Err(e) => e@ == ErrorView::NoiseDecrypt && payload@.len() >= AEAD_PLAINTEXT_LIMIT,
            },
    {
        proof {
            use_type_invariant(&self);
        }
        let public = self.static_keypair.public();
        let ghost sym0 = self.sym@;
        let (sym, enc_static) = match self.sym.encrypt_and_hash(public.as_bytes().as_slice()) {
            Ok(pair) => pair,
            Err(e) => {
                return Err(e);
            },
        };
        let secret = dh_se(self.static_keypair.private(), &self.remote_eph);
        let sym = sym.mix_key(&secret);
        let (sym, enc_payload) = match sym.encrypt_and_hash(payload) {
            Ok(pair) => pair,
            Err(e) => {
                return Err(e);
            },
        };
        let (from_initiator, to_initiator) = sym.split();
        let transport = TransportState::new(from_initiator, to_initiator);
        let msg = concat(enc_static.as_slice(), enc_payload.as_slice());
        proof {
            assert(msg@.subrange(0, 48) =~= enc_static@);
            assert(msg@.subrange(48, msg@.len() as int) =~= enc_payload@);
            assert forall|responder: ResponderAfterResponseView| #[trigger]
                self@.paired(responder) implies {
                &&& responder.read_s(msg@) matches Ok((session, rs, received))
                &&& session.mirrors(transport@)
                &&& session == TransportView::initial(transport@.recv_key, transport@.send_key)
                &&& rs == x25519_public(self@.s)
                &&& received == payload@
            } by {
                assert(responder.remote_static(msg@) == Some(x25519_public(self@.s)));
                assert(dh_agrees(secret@, self@.s, self@.re));
                assert(secret@ == x25519_shared(responder.e, x25519_public(self@.s)));
            }
        }
        Ok((transport, msg, self.remote_static))
    }
}

// -------------------------------------------------------------- responder

/// A responder that has received nothing yet.
pub struct Responder {
    pub(crate) static_keypair: StaticKeypair,
    pub(crate) sym: SymmetricState,
}

impl View for Responder {
    type V = Seq<u8>;

    /// The static private key.
    closed spec fn view(&self) -> Seq<u8> {
        self.static_keypair@
    }
}

impl Responder {
    #[verifier::type_invariant]
    pub(crate) closed spec fn valid(&self) -> bool {
        self.sym@ == SymmetricView::initial()
    }

    /// Begins a handshake as the responder.
    pub fn new(static_keypair: StaticKeypair) -> (responder: Self)
        ensures
            responder@ == static_keypair@,
    {
        Responder { static_keypair, sym: SymmetricState::initialize() }
    }

    /// Reads message 1. Any other length than [`MESSAGE_1_LEN`] is a protocol
    /// error.
    pub fn read_e(self, msg: &[u8]) -> (r: Result<ResponderAfterE, Error>)
        ensures
            match r {
                Ok(next) => read_e_spec(self@, msg@) == Ok::<ResponderAfterEView, ErrorView>(next@),
                Err(e) => read_e_spec(self@, msg@) == Err::<ResponderAfterEView, ErrorView>(e@),
            },
    {
        proof {
            use_type_invariant(&self);
        }
        let total: usize = msg.len();
        if total == MESSAGE_1_LEN {
            let remote_eph = EphemeralPublicKey::from_bytes(array32(msg));
            let sym = self.sym.mix_hash(remote_eph.as_bytes().as_slice());
            let empty: [u8; 0] = [];
            assert(empty@ =~= Seq::<u8>::empty());
            match sym.decrypt_and_hash(empty.as_slice()) {
                Err(e) => Err(e),
                Ok((sym, _)) => Ok(
                    ResponderAfterE { static_keypair: self.static_keypair, remote_eph, sym },
                ),
            }
        } else {
            Err(
                Error::NoiseProtocol {
                    reason: with_number(
                        "expected 32-byte handshake message 1, got ",
                        total as u64,
                    ),
                },
            )
        }
    }
}

/// A responder that has read message 1.
pub struct ResponderAfterE {
    pub(crate) static_keypair: StaticKeypair,
    pub(crate) remote_eph: EphemeralPublicKey,
    pub(crate) sym: SymmetricState,
}

impl View for ResponderAfterE {
    type V = ResponderAfterEView;

    closed spec fn view(&self) -> ResponderAfterEView {
        ResponderAfterEView { s: self.static_keypair@, re: self.remote_eph@, sym: self.sym@ }
    }
}

impl ResponderAfterE {
    #[verifier::type_invariant]
    pub(crate) closed spec fn valid(&self) -> bool {
        self.sym@.cipher_key is None && self.sym@.nonce == 0
    }

    /// Writes message 2 with a trailer. Fails only on a trailer too long to
    /// encrypt. An initiator that is paired with this responder reads from the
    /// message this side's static key and the trailer, and is paired again.
    pub fn write_response(self, ephemeral_seed: [u8; 32], payload: &[u8]) -> (r: Result<
        (ResponderAfterResponse, Vec<u8>),
        Error,
    >)
        ensures
            match r {
                Ok((next, msg)) => {
                    &&& payload@.len() < AEAD_PLAINTEXT_LIMIT
                    &&& next@ == self@.after_response(ephemeral_seed@, payload@)
                    &&& msg@ == self@.response(ephemeral_seed@, payload@)
                    &&& msg@.len() == MESSAGE_2_LEN + payload@.len()
                    &&& forall|initiator: InitiatorAfterEView| #[trigger]
                        initiator.paired(self@) ==> {
                            &&& initiator.read_response(msg@) matches Ok((after, received))
                            &&& after.paired(next@)
                            &&& after.rs == x25519_public(self@.s)
                            &&& after.s == initiator.s
                            &&& received == payload@
                        }
                },
                Err(e) => e@ == ErrorView::NoiseDecrypt && payload@.len() >= AEAD_PLAINTEXT_LIMIT,
            },
    {
        proof {
            use_type_invariant(&self);
        }
        let eph_private = EphemeralPrivateKey::from_seed(ephemeral_seed);
        let eph_public = eph_private.public();
        let sym = self.sym.mix_hash(eph_public.as_bytes().as_slice());
        let secret_ee = dh_ee(&eph_private, &self.remote_eph);
        let sym = sym.mix_key(&secret_ee);
        let public = self.static_keypair.public();
        let (sym, enc_static) = match sym.encrypt_and_hash(public.as_bytes().as_slice()) {
            Ok(pair) => pair,
            Err(e) => {
                return Err(e);
            },
        };
        let secret_es = dh_se(self.static_keypair.private(), &self.remote_eph);
        let sym = sym.mix_key(&secret_es);
        let (sym, enc_payload) = match sym.encrypt_and_hash(payload) {
            Ok(pair) => pair,
            Err(e) => {
                return Err(e);
            },
        };
        let mut msg = concat(eph_public.as_bytes().as_slice(), enc_static.as_slice());
        append(&mut msg, enc_payload.as_slice());
        let next = ResponderAfterResponse { eph_private, sym };
        proof {
            assert(msg@.subrange(0, 32) =~= eph_public@);
            assert(msg@.subrange(32, 80) =~= enc_static@);
            assert(msg@.subrange(80, msg@.len() as int) =~= enc_payload@);
            assert forall|initiator: InitiatorAfterEView| #[trigger]
                initiator.paired(self@) implies {
                &&& initiator.read_response(msg@) matches Ok((after, received))
                &&& after.paired(next@)
                &&& after.rs == x25519_public(self@.s)
                &&& after.s == initiator.s
                &&& received == payload@
            } by {
                assert(dh_agrees(secret_ee@, ephemeral_seed@, self@.re));
                assert(secret_ee@ == x25519_shared(initiator.e, eph_public@));
                assert(initiator.remote_static(msg@) == Some(x25519_public(self@.s)));
                assert(dh_agrees(secret_es@, self@.s, self@.re));
                assert(secret_es@ == x25519_shared(initiator.e, x25519_public(self@.s)));
            }
        }
        Ok((next, msg))
    }
}

/// A responder that waits for message 3.
pub struct ResponderAfterResponse {
    pub(crate) eph_private: EphemeralPrivateKey,
    pub(crate) sym: SymmetricState,
}

impl View for ResponderAfterResponse {
    type V = ResponderAfterResponseView;

    closed spec fn view(&self) -> ResponderAfterResponseView {
        ResponderAfterResponseView { e: self.eph_private@, sym: self.sym@ }
    }
}

impl Clone for ResponderAfterResponse {
    fn clone(&self) -> (copy: Self)
        ensures
            copy == *self,
    {
        proof {
            use_type_invariant(self);
        }
        ResponderAfterResponse { eph_private: self.eph_private.clone(), sym: self.sym.clone() }
    }
}

impl ResponderAfterResponse {
    #[verifier::type_invariant]
    pub(crate) closed spec fn valid(&self) -> bool {
        self.sym@.cipher_key is Some && self.sym@.nonce == 1
    }

    /// Reads message 3 and opens the session. Hands out the initiator's static
    /// key and the trailer.
    ///
    /// A message shorter than [`MESSAGE_3_LEN`] is a protocol error; one whose
    /// static key or trailer does not authenticate fails to decrypt.
    pub fn read_s(self, msg: &[u8]) -> (r: Result<
        (TransportState, StaticPublicKey, Vec<u8>),
        Error,
    >)
        ensures
            match r {
                Ok((transport, remote_static, payload)) => self@.read_s(msg@) == Ok::<
                    (TransportView, Seq<u8>, Seq<u8>),
                    ErrorView,
                >((transport@, remote_static@, payload@)),
                Err(e) => self@.read_s(msg@) == Err::<
                    (TransportView, Seq<u8>, Seq<u8>),
                    ErrorView,
                >(e@),
            },
    {
        proof {
            use_type_invariant(&self);
        }
        let total: usize = msg.len();
        if total < MESSAGE_3_LEN {
            return Err(
                Error::NoiseProtocol {
                    reason: with_number(
                        "expected at least 64-byte handshake message 3, got ",
                        total as u64,
                    ),
                },
            );
        }
        let enc_static = slice_subrange(msg, 0, ENC_STATIC_LEN);
        let enc_payload = slice_subrange(msg, ENC_STATIC_LEN, total);
        let (sym, remote_static_plain) = match self.sym.decrypt_and_hash(enc_static) {
            Ok(pair) => pair,
            Err(e) => {
                return Err(e);
            },
        };
        let remote_static = StaticPublicKey::from_bytes(array32(remote_static_plain.as_slice()));
        let sym = sym.mix_key(&dh_es(&self.eph_private, &remote_static));
        match sym.decrypt_and_hash(enc_payload) {
            Err(e) => Err(e),
            Ok((sym, payload)) => {
                let (from_initiator, to_initiator) = sym.split();
                let transport = TransportState::new(to_initiator, from_initiator);
                Ok((transport, remote_static, payload))
            },
        }
    }
}

} // verus!
