//! A UDP-only peer-to-peer stack: Noise sessions, identities, a
//! connection-managing host, coded pubsub, a Kademlia table and the
//! multiplexer that joins them, as state machines without I/O.
pub mod activity;
pub mod addr;
pub mod bytes;
pub mod crypto;
pub mod error;
pub mod failure;
pub mod formats;
pub mod host;
pub mod identity;
pub mod kad;
pub mod mux;
pub mod noise;
pub mod ordered_map;
pub mod peer_id;
pub mod pubsub;
pub mod rlnc;
pub mod text;
