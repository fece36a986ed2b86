//! Coded pubsub over the host: topics, frames, authenticators, and the
//! multiplexer that plays the source, decoder and relay roles.
//!
//! A frame is `topic length (1) || topic || k (4) || b (4) || commitment || tag
//! || piece (k + b)`, all numbers big-endian. The authenticator in use says how
//! many bytes its commitment and tag take.
pub mod auth;
pub mod codec;
pub mod event;
pub mod lattice;
pub mod laws;
pub mod model;
pub mod mux;
pub mod node;
pub mod node_laws;
pub mod peer_table;
pub mod state;
pub mod topic;

pub use auth::{
    KeyedHashAuthenticator, KeyedHashCommitment, KeyedHashTag, NullAuthenticator, PubsubAuth,
    SelfDelimiting, WireAuthenticator,
};
pub use codec::{decode, encode, PubsubFrame, WirePiece, MAX_TOPIC_LEN};
pub use event::MuxEvent;
pub use model::{KIND_APP, KIND_PUBSUB};
pub use mux::{decoder_path, relay_path, unused_relay_rng, PubsubMux};
pub use node::{DeliveredMessage, PubsubNode};
pub use peer_table::{PeerIndex, PeerTable};
pub use state::PubsubState;
pub use topic::Topic;
