# libp2p_cat

A verified libp2p-style stack over UDP: Noise XX sessions bound to Ed25519
identities, a connection-managing host with stateless source-address validation,
Kademlia, and coded pubsub, all multiplexed over one session per peer.

- `src/` is the library. It does no I/O: a step takes a datagram and gives back
  the next state, an event, and the datagrams to send. Every public
  function has a contract over a mathematical model, and Verus proves it.
- `app/` puts the nodes at real UDP sockets.
- `tests/` runs nodes against each other in memory.

| Module     | What it holds                                                      |
|------------|--------------------------------------------------------------------|
| `noise`    | key agreement, symmetric state, handshake, transport, replay window |
| `identity` | Ed25519 keypairs and signed static keys                             |
| `host`     | handshakes with cookies, sessions, caps, eviction                   |
| `kad`      | identifiers, distances, buckets, routing table, frames, lookups     |
| `pubsub`   | topics, authenticators, frames, sources, decoders, relays           |
| `mux`      | all protocols behind one kind byte                                  |
| `crypto`   | calls into BLAKE3, ChaCha20-Poly1305, X25519 and Ed25519            |
| `rlnc`     | calls into random linear network coding                             |

The contracts of `crypto`, `rlnc` and `pubsub::topic::utf8_string` on outside
functions are trusted; everything else is proved.
