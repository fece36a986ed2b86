//! Datagram encryption after the handshake, with explicit nonces and a sliding
//! replay window.
//!
//! A datagram is `nonce (8 bytes, big-endian) || ciphertext || tag (16 bytes)`.
use vstd::prelude::*;
use vstd::slice::slice_subrange;
use crate::bytes::{
    append, append_be, be_bytes, be_value, lemma_be_bytes_len, lemma_be_value_of_bytes,
    lemma_pow256_widths, read_be,
};
use crate::crypto::AEAD_PLAINTEXT_LIMIT;
use crate::error::{Error, ErrorView};
use crate::noise::symmetric::{aead_decrypt, aead_encrypt, opened, sealed};
use crate::text::{decimal, decimal_text, join3};

verus! {

/// Bytes of nonce in front of every datagram.
pub const TRANSPORT_NONCE_PREFIX_LEN: usize = 8;

/// Bytes that a datagram is longer than its plaintext.
pub const TRANSPORT_OVERHEAD: usize = 24;

/// Width of the replay window in bits.
pub const REPLAY_WINDOW_BITS: usize = 64;

/// Whether bit `d` of a window is set.
pub open spec fn window_bit(window: u64, d: u64) -> bool {
    (window >> d) & 1 == 1
}

/// Whether a nonce may be accepted: it is new, or inside the window and not
/// recorded there.
pub open spec fn fresh(window: u64, max_nonce: u64, nonce: u64) -> bool {
    nonce > max_nonce || (max_nonce - nonce < 64 && !window_bit(
        window,
        (max_nonce - nonce) as u64,
    ))
}

/// `next` is the window once `nonce` has been accepted: its bit is set and
/// every other bit follows the nonce that it stands for.
pub open spec fn window_advanced(window: u64, max_nonce: u64, nonce: u64, next: (u64, u64)) -> bool {
    if nonce > max_nonce {
        let shift = nonce - max_nonce;
        &&& next.1 == nonce
        &&& forall|d: u64|
            d < 64 ==> (#[trigger] window_bit(next.0, d) <==> (d == 0 || (d >= shift && window_bit(
                window,
                (d - shift) as u64,
            ))))
    } else {
        &&& next.1 == max_nonce
        &&& forall|d: u64|
            d < 64 ==> (#[trigger] window_bit(next.0, d) <==> (d == max_nonce - nonce || window_bit(
                window,
                d,
            )))
    }
}

/// The window once `nonce` has been accepted.
pub open spec fn window_after(window: u64, max_nonce: u64, nonce: u64) -> (u64, u64) {
    if nonce > max_nonce {
        let shift = (nonce - max_nonce) as u64;
        (if shift >= 64 { 1 } else { (window << shift) | 1 }, nonce)
    } else {
        (window | (1u64 << ((max_nonce - nonce) as u64)), max_nonce)
    }
}

/// Accepting a nonce moves the bits as [`window_advanced`] says.
pub proof fn lemma_window_after(window: u64, max_nonce: u64, nonce: u64)
    requires
        fresh(window, max_nonce, nonce),
    ensures
        window_advanced(window, max_nonce, nonce, window_after(window, max_nonce, nonce)),
{
    if nonce > max_nonce {
        let shift = (nonce - max_nonce) as u64;
        if shift >= 64 {
            assert forall|d: u64| d < 64 implies (#[trigger] window_bit(1, d) <==> d == 0) by {
                lemma_one_bit(d);
            }
        } else {
            assert forall|d: u64| d < 64 implies (#[trigger] window_bit(
                (window << shift) | 1,
                d,
            ) <==> (d == 0 || (d >= shift && window_bit(window, (d - shift) as u64)))) by {
                lemma_shifted_bits(window, shift, d, (d - shift) as u64);
            }
        }
    } else {
        let distance = (max_nonce - nonce) as u64;
        assert forall|d: u64| d < 64 implies (#[trigger] window_bit(
            window | (1u64 << distance),
            d,
        ) <==> (d == distance || window_bit(window, d))) by {
            lemma_set_bit(window, distance, d);
        }
    }
}

proof fn lemma_shifted_bits(window: u64, shift: u64, d: u64, e: u64)
    requires
        shift < 64,
        d < 64,
        d >= shift ==> e == d - shift,
    ensures
        window_bit((window << shift) | 1, d) <==> (d == 0 || (d >= shift && window_bit(window, e))),
{
    if d >= shift {
        assert((((window << shift) | 1) >> d) & 1 == 1 <==> (d == 0 || (window >> e) & 1 == 1)) by (bit_vector)
            requires
                shift < 64,
                d < 64,
                e < 64,
                d == shift + e,
        ;
    } else {
        assert((((window << shift) | 1) >> d) & 1 == 1 <==> d == 0) by (bit_vector)
            requires
                shift < 64,
                d < shift,
        ;
    }
}

proof fn lemma_one_bit(d: u64)
    requires
        d < 64,
    ensures
        window_bit(1, d) <==> d == 0,
{
    assert((1u64 >> d) & 1 == 1 <==> d == 0) by (bit_vector)
        requires
            d < 64,
    ;
}

proof fn lemma_set_bit(window: u64, at: u64, d: u64)
    requires
        at < 64,
        d < 64,
    ensures
        window_bit(window | (1u64 << at), d) <==> (d == at || window_bit(window, d)),
{
    assert(((window | (1u64 << at)) >> d) & 1 == 1 <==> (d == at || (window >> d) & 1 == 1)) by (bit_vector)
        requires
            at < 64,
            d < 64,
    ;
}

proof fn lemma_test_bit(window: u64, at: u64)
    requires
        at < 64,
    ensures
        window & (1u64 << at) != 0 <==> window_bit(window, at),
{
    assert(window & (1u64 << at) != 0 <==> (window >> at) & 1 == 1) by (bit_vector)
        requires
            at < 64,
    ;
}

/// Whether `incoming` would be accepted; a replayed or too old nonce is refused
/// with [`Error::NoiseReplay`].
pub fn nonce_acceptable(window: u64, max_nonce: u64, incoming: u64) -> (r: Result<(), Error>)
    ensures
        r is Ok <==> fresh(window, max_nonce, incoming),
        r matches Err(e) ==> e@ == ErrorView::NoiseReplay(incoming as nat),
{
    if incoming > max_nonce {
        Ok(())
    } else {
        let distance: u64 = max_nonce - incoming;
        if distance >= REPLAY_WINDOW_BITS as u64 {
            Err(Error::NoiseReplay { nonce: incoming })
        } else {
            let bit: u64 = 1u64 << distance;
            proof {
                lemma_test_bit(window, distance);
            }
            if window & bit != 0 {
                Err(Error::NoiseReplay { nonce: incoming })
            } else {
                Ok(())
            }
        }
    }
}

/// The window after a nonce has been accepted.
pub fn advance_window(window: u64, max_nonce: u64, incoming: u64) -> (next: (u64, u64))
    requires
        fresh(window, max_nonce, incoming),
    ensures
        next == window_after(window, max_nonce, incoming),
        window_advanced(window, max_nonce, incoming, next),
{
    proof {
        lemma_window_after(window, max_nonce, incoming);
    }
    if incoming > max_nonce {
        let shift: u64 = incoming - max_nonce;
        let new_window: u64 = if shift >= REPLAY_WINDOW_BITS as u64 {
            1
        } else {
            (window << shift) | 1
        };
        (new_window, incoming)
    } else {
        let distance: u64 = max_nonce - incoming;
        let bit: u64 = 1u64 << distance;
        (window | bit, max_nonce)
    }
}

/// The replay window never accepts a nonce twice: once accepted it is not fresh.
pub proof fn accepted_nonce_is_spent(window: u64, max_nonce: u64, nonce: u64, next: (u64, u64))
    requires
        fresh(window, max_nonce, nonce),
        window_advanced(window, max_nonce, nonce, next),
    ensures
        !fresh(next.0, next.1, nonce),
{
    assert(window_bit(next.0, (next.1 - nonce) as u64));
}

/// A nonce that is not fresh stays so whatever is accepted afterwards.
pub proof fn spent_nonce_stays_spent(
    window: u64,
    max_nonce: u64,
    accepted: u64,
    next: (u64, u64),
    nonce: u64,
)
    requires
        fresh(window, max_nonce, accepted),
        window_advanced(window, max_nonce, accepted, next),
        !fresh(window, max_nonce, nonce),
    ensures
        !fresh(next.0, next.1, nonce),
{
    if next.1 - nonce < 64 {
        let d = (next.1 - nonce) as u64;
        assert(window_bit(next.0, d) <==> {
            if accepted > max_nonce {
                d == 0 || (d >= accepted - max_nonce && window_bit(
                    window,
                    (d - (accepted - max_nonce)) as u64,
                ))
            } else {
                d == max_nonce - accepted || window_bit(window, d)
            }
        });
    }
}

/// Accepting one nonce spends no other that is still inside the window.
pub proof fn fresh_nonce_stays_fresh(
    window: u64,
    max_nonce: u64,
    accepted: u64,
    next: (u64, u64),
    nonce: u64,
)
    requires
        fresh(window, max_nonce, accepted),
        window_advanced(window, max_nonce, accepted, next),
        fresh(window, max_nonce, nonce),
        nonce != accepted,
        nonce > next.1 || next.1 - nonce < 64,
    ensures
        fresh(next.0, next.1, nonce),
{
    if nonce <= next.1 {
        let d = (next.1 - nonce) as u64;
        assert(window_bit(next.0, d) <==> {
            if accepted > max_nonce {
                d == 0 || (d >= accepted - max_nonce && window_bit(
                    window,
                    (d - (accepted - max_nonce)) as u64,
                ))
            } else {
                d == max_nonce - accepted || window_bit(window, d)
            }
        });
    }
}

/// The meaning of a transport state.
pub struct TransportView {
    pub send_key: Seq<u8>,
    pub send_nonce: u64,
    pub recv_key: Seq<u8>,
    pub recv_max_nonce: u64,
    pub recv_replay_window: u64,
}

impl TransportView {
    /// The state of a session that has carried nothing yet.
    pub open spec fn initial(send_key: Seq<u8>, recv_key: Seq<u8>) -> TransportView {
        TransportView {
            send_key,
            send_nonce: 0,
            recv_key,
            recv_max_nonce: 0,
            recv_replay_window: 0,
        }
    }

    /// The datagram that carries a plaintext.
    pub open spec fn datagram(self, plaintext: Seq<u8>) -> Seq<u8> {
        be_bytes(self.send_nonce as nat, 8) + sealed(
            self.send_key,
            self.send_nonce as nat,
            Seq::empty(),
            plaintext,
        )
    }

    /// Why a plaintext cannot be sent, if it cannot.
    pub open spec fn send_error(self, plaintext: Seq<u8>) -> Option<ErrorView> {
        if plaintext.len() >= AEAD_PLAINTEXT_LIMIT {
            Some(ErrorView::NoiseDecrypt)
        } else if self.send_nonce == u64::MAX {
            Some(ErrorView::NoiseProtocol("send nonce counter exhausted"@))
        } else {
            None
        }
    }

    /// The state after one datagram went out.
    pub open spec fn sent(self) -> TransportView {
        TransportView { send_nonce: (self.send_nonce + 1) as u64, ..self }
    }

    /// Whether the receiving side would still take a nonce.
    pub open spec fn takes(self, nonce: u64) -> bool {
        fresh(self.recv_replay_window, self.recv_max_nonce, nonce)
    }

    /// What a datagram is received as.
    pub open spec fn received(self, datagram: Seq<u8>) -> Result<Seq<u8>, ErrorView> {
        if datagram.len() < TRANSPORT_OVERHEAD {
            Err(
                ErrorView::NoiseProtocol(
                    "transport datagram too short: "@ + decimal(datagram.len())
                        + " bytes, need at least 24"@,
                ),
            )
        } else {
            let nonce = datagram_nonce(datagram);
            if !self.takes(nonce) {
                Err(ErrorView::NoiseReplay(nonce as nat))
            } else {
                match opened(
                    self.recv_key,
                    nonce as nat,
                    Seq::empty(),
                    datagram.subrange(8, datagram.len() as int),
                ) {
                    Some(plaintext) => Ok(plaintext),
                    None => Err(ErrorView::NoiseDecrypt),
                }
            }
        }
    }

    /// The state after the datagram came in: a datagram that is refused leaves
    /// it alone, one that is accepted spends its nonce.
    pub open spec fn after(self, datagram: Seq<u8>) -> TransportView {
        match self.received(datagram) {
            Ok(_) => {
                let (window, max) = window_after(
                    self.recv_replay_window,
                    self.recv_max_nonce,
                    datagram_nonce(datagram),
                );
                TransportView { recv_replay_window: window, recv_max_nonce: max, ..self }
            },
            Err(_) => self,
        }
    }

    /// Two ends of one session: what either sends under its key the other
    /// opens under the same.
    pub open spec fn mirrors(self, other: TransportView) -> bool {
        self.send_key == other.recv_key && self.recv_key == other.send_key
    }
}

/// The nonce in front of a datagram.
pub open spec fn datagram_nonce(datagram: Seq<u8>) -> u64 {
    be_value(datagram.subrange(0, 8)) as u64
}

/// A datagram that was accepted is refused as a replay from then on.
pub proof fn datagram_is_accepted_once(session: TransportView, datagram: Seq<u8>)
    requires
        session.received(datagram) is Ok,
    ensures
        session.after(datagram).received(datagram) == Err::<Seq<u8>, ErrorView>(
            ErrorView::NoiseReplay(datagram_nonce(datagram) as nat),
        ),
{
    let after = session.after(datagram);
    lemma_window_after(
        session.recv_replay_window,
        session.recv_max_nonce,
        datagram_nonce(datagram),
    );
    accepted_nonce_is_spent(
        session.recv_replay_window,
        session.recv_max_nonce,
        datagram_nonce(datagram),
        (after.recv_replay_window, after.recv_max_nonce),
    );
}

/// A nonce that is spent stays refused whatever comes in.
pub proof fn replay_stays_refused(session: TransportView, datagram: Seq<u8>, nonce: u64)
    requires
        !session.takes(nonce),
    ensures
        !session.after(datagram).takes(nonce),
{
    if session.received(datagram) is Ok {
        let after = session.after(datagram);
        lemma_window_after(
            session.recv_replay_window,
            session.recv_max_nonce,
            datagram_nonce(datagram),
        );
        spent_nonce_stays_spent(
            session.recv_replay_window,
            session.recv_max_nonce,
            datagram_nonce(datagram),
            (after.recv_replay_window, after.recv_max_nonce),
            nonce,
        );
    }
}

/// Out of order arrival is fine: a datagram leaves every other nonce that is
/// inside the window acceptable.
pub proof fn other_nonces_stay_acceptable(session: TransportView, datagram: Seq<u8>, nonce: u64)
    requires
        session.takes(nonce),
        nonce != datagram_nonce(datagram),
        nonce > session.after(datagram).recv_max_nonce || session.after(datagram).recv_max_nonce
            - nonce < 64,
    ensures
        session.after(datagram).takes(nonce),
{
    if session.received(datagram) is Ok {
        let after = session.after(datagram);
        lemma_window_after(
            session.recv_replay_window,
            session.recv_max_nonce,
            datagram_nonce(datagram),
        );
        fresh_nonce_stays_fresh(
            session.recv_replay_window,
            session.recv_max_nonce,
            datagram_nonce(datagram),
            (after.recv_replay_window, after.recv_max_nonce),
            nonce,
        );
    }
}

/// A session after the handshake. Sending and receiving count nonces
/// independently of each other.
pub struct TransportState {
    pub(crate) send_key: [u8; 32],
    pub(crate) send_nonce: u64,
    pub(crate) recv_key: [u8; 32],
    pub(crate) recv_max_nonce: u64,
    pub(crate) recv_replay_window: u64,
}

impl View for TransportState {
    type V = TransportView;

    closed spec fn view(&self) -> TransportView {
        TransportView {
            send_key: self.send_key@,
            send_nonce: self.send_nonce,
            recv_key: self.recv_key@,
            recv_max_nonce: self.recv_max_nonce,
            recv_replay_window: self.recv_replay_window,
        }
    }
}

impl TransportState {
    /// A session that has carried nothing yet.
    pub fn new(send_key: [u8; 32], recv_key: [u8; 32]) -> (state: Self)
        ensures
            state@ == TransportView::initial(send_key@, recv_key@),
    {
        TransportState {
            send_key,
            send_nonce: 0,
            recv_key,
            recv_max_nonce: 0,
            recv_replay_window: 0,
        }
    }

    /// The nonce of the next datagram to send.
    pub fn send_nonce(&self) -> (nonce: u64)
        ensures
            nonce == self@.send_nonce,
    {
        self.send_nonce
    }

    /// The highest nonce accepted so far.
    pub fn recv_max_nonce(&self) -> (nonce: u64)
        ensures
            nonce == self@.recv_max_nonce,
    {
        self.recv_max_nonce
    }

    /// Encrypts `plaintext` into one datagram. Every other end of the session
    /// that still takes the nonce receives exactly the plaintext.
    pub fn encrypt(self, plaintext: &[u8]) -> (r: Result<(Self, Vec<u8>), Error>)
        ensures
            match r {
                Ok((next, datagram)) => {
                    &&& self@.send_error(plaintext@) is None
                    &&& datagram@ == self@.datagram(plaintext@)
                    &&& datagram@.len() == plaintext@.len() + TRANSPORT_OVERHEAD
                    &&& next@ == self@.sent()
                    &&& forall|end: TransportView| #[trigger]
                        end.mirrors(self@) && end.takes(self@.send_nonce) ==> end.received(
                            datagram@,
                        ) == Ok::<Seq<u8>, ErrorView>(plaintext@)
                },
                Err(e) => self@.send_error(plaintext@) == Some(e@),
            },
    {
        let nonce: u64 = self.send_nonce;
        let empty: [u8; 0] = [];
        assert(empty@ =~= Seq::<u8>::empty());
        let ciphertext = match aead_encrypt(&self.send_key, nonce, empty.as_slice(), plaintext) {
            Ok(ciphertext) => ciphertext,
            Err(e) => {
                return Err(e);
            },
        };
        if nonce == u64::MAX {
            return Err(
                Error::NoiseProtocol { reason: "send nonce counter exhausted".to_owned() },
            );
        }
        let mut datagram: Vec<u8> = Vec::new();
        append_be(&mut datagram, nonce as u128, TRANSPORT_NONCE_PREFIX_LEN);
        append(&mut datagram, ciphertext.as_slice());
        let next = TransportState { send_nonce: nonce + 1, ..self };
        proof {
            let prefix = be_bytes(nonce as nat, 8);
            lemma_be_bytes_len(nonce as nat, 8);
            lemma_pow256_widths();
            lemma_be_value_of_bytes(nonce as nat, 8);
            assert(datagram@ =~= prefix + ciphertext@);
            assert(datagram@.subrange(0, 8) =~= prefix);
            assert(datagram@.subrange(8, datagram@.len() as int) =~= ciphertext@);
        }
        Ok((next, datagram))
    }

    /// Checks and decrypts one datagram. The session survives a datagram that
    /// is refused, unchanged.
    pub fn decrypt(self, datagram: &[u8]) -> (r: (Self, Result<Vec<u8>, Error>))
        ensures
            r.0@ == self@.after(datagram@),
            match r.1 {
                Ok(plaintext) => self@.received(datagram@) == Ok::<Seq<u8>, ErrorView>(plaintext@)
                    && datagram@.len() == plaintext@.len() + TRANSPORT_OVERHEAD,
                Err(e) => self@.received(datagram@) == Err::<Seq<u8>, ErrorView>(e@),
            },
    {
        let total: usize = datagram.len();
        if total < TRANSPORT_OVERHEAD {
            let count = decimal_text(total as u64);
            let reason = join3(
                "transport datagram too short: ",
                count.as_str(),
                " bytes, need at least 24",
            );
            return (self, Err(Error::NoiseProtocol { reason }));
        }
        let nonce: u64 = read_nonce(datagram);
        match nonce_acceptable(self.recv_replay_window, self.recv_max_nonce, nonce) {
            Ok(()) => {},
            Err(e) => {
                return (self, Err(e));
            },
        }
        let empty: [u8; 0] = [];
        assert(empty@ =~= Seq::<u8>::empty());
        let ciphertext = slice_subrange(datagram, TRANSPORT_NONCE_PREFIX_LEN, total);
        match aead_decrypt(&self.recv_key, nonce, empty.as_slice(), ciphertext) {
            Err(e) => (self, Err(e)),
            Ok(plaintext) => {
                let (window, max) = advance_window(
                    self.recv_replay_window,
                    self.recv_max_nonce,
                    nonce,
                );
                let next = TransportState {
                    recv_max_nonce: max,
                    recv_replay_window: window,
                    ..self
                };
                (next, Ok(plaintext))
            },
        }
    }
}

/// Reads the nonce in front of a datagram.
fn read_nonce(datagram: &[u8]) -> (nonce: u64)
    requires
        datagram@.len() >= 8,
    ensures
        nonce == datagram_nonce(datagram@),
        nonce as nat == be_value(datagram@.subrange(0, 8)),
{
    let n: u128 = read_be(datagram, 0, 8);
    proof {
        lemma_pow256_widths();
    }
    n as u64
}

} // verus!
