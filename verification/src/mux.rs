//! One host for several protocols: the first byte of every plaintext says whose
//! it is.
//!
//! - [`KIND_APP`]: raw application data.
//! - [`KIND_PUBSUB`]: a pubsub frame.
//! - [`KIND_KAD`]: a Kademlia frame.
//! - [`KIND_RENDEZVOUS`]: a rendezvous frame; its protocol is the caller's.
//! - [`KIND_RPC`]: an RPC envelope, handed on as it is.
pub mod event;
pub mod laws;
pub mod node;

pub use event::{Inbound, MultiProtocolEvent, RendezvousEvent};
pub use node::{
    absorb_lookup_event, absorb_search_event, lift_kad_event, lift_pubsub_event,
    lift_rendezvous_event, MultiProtocolNode, KIND_APP, KIND_KAD, KIND_PUBSUB,
    KIND_RENDEZVOUS, KIND_RPC,
};
