//! The host: handshakes in flight, established sessions, and what each inbound
//! datagram does to them. The socket is the caller's; a step hands out the
//! datagrams to send.
pub mod capacity;
pub mod cookie;
pub mod event;
pub mod fanout;
pub mod host;
pub mod laws;
pub mod link;
pub mod model;
pub mod state;

pub use capacity::Capacity;
pub use event::HostEvent;
pub use host::Host;
