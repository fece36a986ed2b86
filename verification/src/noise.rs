//! The Noise XX handshake `Noise_XX_25519_ChaChaPoly_BLAKE3` and the
//! authenticated transport that follows it.
//!
//! ```text
//! Initiator              -- write_e -->         InitiatorAfterE
//! InitiatorAfterE        -- read_response -->   InitiatorAfterResponse
//! InitiatorAfterResponse -- write_s -->         TransportState
//!
//! Responder              -- read_e -->          ResponderAfterE
//! ResponderAfterE        -- write_response -->  ResponderAfterResponse
//! ResponderAfterResponse -- read_s -->          TransportState
//! ```
//!
//! Messages two and three carry an encrypted trailer of the caller's choice.
pub mod handshake;
pub mod laws;
pub mod primitives;
pub mod symmetric;
pub mod transport;

pub use handshake::{
    Initiator, InitiatorAfterE, InitiatorAfterResponse, Responder, ResponderAfterE,
    ResponderAfterResponse, MESSAGE_1_LEN, MESSAGE_2_LEN, MESSAGE_3_LEN,
};
pub use primitives::{StaticKeypair, StaticPrivateKey, StaticPublicKey};
pub use transport::{
    TransportState, REPLAY_WINDOW_BITS, TRANSPORT_NONCE_PREFIX_LEN, TRANSPORT_OVERHEAD,
};
