//! Kademlia: identifiers, the XOR metric, k-buckets, the routing table, the wire
//! frames, iterative lookups, and the node that answers its peers.
pub mod bucket;
pub mod codec;
pub mod distance;
pub mod event;
pub mod laws;
pub mod lookup;
pub mod node;
pub mod node_id;
pub mod node_laws;
pub mod rounds;
pub mod routing_table;
pub mod search_laws;

pub use bucket::{Bucket, InsertOutcome, DEFAULT_K};
pub use codec::{
    decode, encode, Frame, Opcode, ENTRY_V4_LEN, ENTRY_V6_LEN, MAX_PEERS_PER_RESP,
};
pub use distance::Distance;
pub use event::KadEvent;
pub use lookup::{Lookup, LookupConfig, LookupEntry, LookupStatus};
pub use node::KademliaNode;
pub use node_id::{NodeId, NODE_ID_BITS, NODE_ID_LEN};
pub use rounds::{Round, RoundAction, Search};
pub use routing_table::RoutingTable;
