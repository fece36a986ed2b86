//! Peers by number, each with its address and session.
use vstd::prelude::*;
use vstd::string::StringExecFns;
use crate::addr::{addr_text, UdpAddr};
use crate::error::{Error, ErrorView};
use crate::noise::transport::{TransportState, TransportView};
use crate::ordered_map::OrderedMap;
use crate::text::{decimal, with_number};

verus! {

/// The number of a peer.
#[derive(Clone, Copy, Debug, PartialEq, Eq, Structural)]
pub struct PeerIndex {
    pub index: usize,
}

impl PeerIndex {
    /// The number.
    pub fn value(self) -> (n: usize)
        ensures
            n == self.index,
    {
        self.index
    }
}

/// A peer's address and session.
struct PeerEntry {
    addr: UdpAddr,
    transport: TransportState,
}

/// The meaning of a peer's entry.
pub struct PeerEntryView {
    pub addr: UdpAddr,
    pub transport: TransportView,
}

impl View for PeerEntry {
    type V = PeerEntryView;

    closed spec fn view(&self) -> PeerEntryView {
        PeerEntryView { addr: self.addr, transport: self.transport@ }
    }
}

/// The meaning of a peer table: the peers by number, and for each address the
/// number of the peer that registered there last.
pub struct PeerTableView {
    pub peers: Seq<PeerEntryView>,
    pub numbers: Map<UdpAddr, usize>,
}

impl PeerTableView {
    /// Every address leads to a peer at that address, and every peer's address
    /// leads to one.
    pub open spec fn valid(self) -> bool {
        &&& forall|a: UdpAddr| #[trigger]
            self.numbers.dom().contains(a) ==> self.numbers[a] < self.peers.len()
                && self.peers[self.numbers[a] as int].addr == a
        &&& forall|i: int|
            0 <= i < self.peers.len() ==> self.numbers.dom().contains(
                (#[trigger] self.peers[i]).addr,
            )
    }

    /// The table with one more peer.
    pub open spec fn added(self, addr: UdpAddr, transport: TransportView) -> PeerTableView {
        PeerTableView {
            peers: self.peers.push(PeerEntryView { addr, transport }),
            numbers: self.numbers.insert(addr, self.peers.len() as usize),
        }
    }

    /// The table with a peer's session replaced.
    pub open spec fn with_session(self, i: int, transport: TransportView) -> PeerTableView {
        PeerTableView {
            peers: self.peers.update(i, PeerEntryView { transport, ..self.peers[i] }),
            ..self
        }
    }

    /// Why nothing can be sent to a peer, if nothing can.
    pub open spec fn encrypt_error(self, peer: PeerIndex, plaintext: Seq<u8>) -> Option<ErrorView> {
        if peer.index >= self.peers.len() {
            Some(
                ErrorView::PubsubProtocol(
                    "encrypt_for: unknown peer index "@ + decimal(peer.index as nat),
                ),
            )
        } else {
            self.peers[peer.index as int].transport.send_error(plaintext)
        }
    }

    /// What a datagram from an address says, or why it is refused.
    pub open spec fn received(self, from: UdpAddr, datagram: Seq<u8>) -> Result<Seq<u8>, ErrorView> {
        if !self.numbers.dom().contains(from) {
            Err(
                ErrorView::PubsubProtocol(
                    "decrypt_from: no peer registered at address "@ + addr_text(from),
                ),
            )
        } else {
            self.peers[self.numbers[from] as int].transport.received(datagram)
        }
    }

    /// The table after a datagram from a registered address was accepted.
    pub open spec fn after(self, from: UdpAddr, datagram: Seq<u8>) -> PeerTableView {
        let i = self.numbers[from] as int;
        self.with_session(i, self.peers[i].transport.after(datagram))
    }
}

/// Peers and their sessions.
pub struct PeerTable {
    peers: Vec<PeerEntry>,
    addr_to_index: OrderedMap<UdpAddr, usize>,
}

impl View for PeerTable {
    type V = PeerTableView;

    closed spec fn view(&self) -> PeerTableView {
        PeerTableView {
            peers: self.peers@.map_values(|p: PeerEntry| p@),
            numbers: self.addr_to_index.map(),
        }
    }
}

impl PeerTable {
    #[verifier::type_invariant]
    spec fn well_formed(&self) -> bool {
        self@.valid()
    }

    /// A table without peers.
    pub fn new() -> (table: Self)
        ensures
            table@ == (PeerTableView { peers: Seq::empty(), numbers: Map::empty() }),
    {
        let peers: Vec<PeerEntry> = Vec::new();
        assert(peers@.map_values(|p: PeerEntry| p@) =~= Seq::<PeerEntryView>::empty());
        PeerTable { peers, addr_to_index: OrderedMap::new() }
    }

    /// The number of peers.
    pub fn len(&self) -> (n: usize)
        ensures
            n == self@.peers.len(),
    {
        self.peers.len()
    }

    /// Whether there is no peer.
    pub fn is_empty(&self) -> (r: bool)
        ensures
            r == (self@.peers.len() == 0),
    {
        self.peers.len() == 0
    }

    /// The numbers of all peers, ascending from zero.
    pub fn peer_indices(&self) -> (indices: Vec<PeerIndex>)
        ensures
            indices@ == Seq::new(self@.peers.len(), |i: int| PeerIndex { index: i as usize }),
    {
        let mut indices: Vec<PeerIndex> = Vec::new();
        let mut i: usize = 0;
        while i < self.peers.len()
            invariant
                i <= self.peers@.len(),
                indices@ == Seq::new(i as nat, |j: int| PeerIndex { index: j as usize }),
            decreases self.peers@.len() - i,
        {
            indices.push(PeerIndex { index: i });
            assert(indices@ =~= Seq::new((i + 1) as nat, |j: int| PeerIndex { index: j as usize }));
            i = i + 1;
        }
        indices
    }

    /// The address of a peer, if there is such a peer.
    pub fn addr_of(&self, peer: PeerIndex) -> (r: Option<UdpAddr>)
        ensures
            match r {
                Some(addr) => peer.index < self@.peers.len() && addr
                    == self@.peers[peer.index as int].addr,
                None => peer.index >= self@.peers.len(),
            },
    {
        if peer.index < self.peers.len() {
            Some(self.peers[peer.index].addr)
        } else {
            None
        }
    }

    /// Adds a peer under the next number.
    pub fn add(self, addr: UdpAddr, transport: TransportState) -> (r: (Self, PeerIndex))
        ensures
            r.0@ == self@.added(addr, transport@),
            r.1.index == self@.peers.len(),
    {
        proof {
            use_type_invariant(&self);
        }
        let ghost before = self@;
        let PeerTable { peers, addr_to_index } = self;
        let index: usize = peers.len();
        let mut peers = peers;
        let ghost old_peers = peers@;
        let entry = PeerEntry { addr, transport };
        peers.push(entry);
        let addr_to_index = addr_to_index.insert(addr, index);
        proof {
            let next = before.added(addr, transport@);
            assert(peers@.map_values(|p: PeerEntry| p@) =~= next.peers);
            assert forall|a: UdpAddr| #[trigger] next.numbers.dom().contains(a) implies next.numbers[a]
                < next.peers.len() && next.peers[next.numbers[a] as int].addr == a by {
                if a != addr {
                    assert(before.numbers.dom().contains(a));
                }
            }
            assert forall|i: int| 0 <= i < next.peers.len() implies next.numbers.dom().contains(
                (#[trigger] next.peers[i]).addr,
            ) by {
                if i < before.peers.len() {
                    assert(next.peers[i] == before.peers[i]);
                }
            }
        }
        (PeerTable { peers, addr_to_index }, PeerIndex { index })
    }

    /// Takes the session of a peer out of its table.
    fn take(self, i: usize) -> (r: (Vec<PeerEntry>, OrderedMap<UdpAddr, usize>, PeerEntry))
        requires
            i < self@.peers.len(),
        ensures
            r.0@.map_values(|p: PeerEntry| p@) == self@.peers.remove(i as int),
            r.1.map() == self@.numbers,
            r.2@ == self@.peers[i as int],
            self@.valid(),
    {
        proof {
            use_type_invariant(&self);
        }
        let ghost before = self@;
        let PeerTable { peers, addr_to_index } = self;
        let mut peers = peers;
        let entry = peers.remove(i);
        assert(peers@.map_values(|p: PeerEntry| p@) =~= before.peers.remove(i as int));
        (peers, addr_to_index, entry)
    }

    /// Puts a session back into its table.
    fn put(
        peers: Vec<PeerEntry>,
        addr_to_index: OrderedMap<UdpAddr, usize>,
        i: usize,
        entry: PeerEntry,
        Ghost(before): Ghost<PeerTableView>,
    ) -> (r: Self)
        requires
            before.valid(),
            i < before.peers.len(),
            peers@.map_values(|p: PeerEntry| p@) == before.peers.remove(i as int),
            addr_to_index.map() == before.numbers,
            entry@.addr == before.peers[i as int].addr,
        ensures
            r@ == before.with_session(i as int, entry@.transport),
    {
        let mut peers = peers;
        let ghost others = peers@;
        assert(others.len() == others.map_values(|p: PeerEntry| p@).len());
        peers.insert(i, entry);
        proof {
            let next = before.with_session(i as int, entry@.transport);
            let views = peers@.map_values(|p: PeerEntry| p@);
            assert forall|j: int| 0 <= j < next.peers.len() implies views[j] == next.peers[j] by {
                if j < i {
                    assert(others.map_values(|p: PeerEntry| p@)[j] == before.peers[j]);
                } else if j > i {
                    assert(others.map_values(|p: PeerEntry| p@)[j - 1] == before.peers[j]);
                }
            }
            assert(views =~= next.peers);
            assert forall|a: UdpAddr| #[trigger] next.numbers.dom().contains(a) implies next.numbers[a]
                < next.peers.len() && next.peers[next.numbers[a] as int].addr == a by {
                assert(before.numbers.dom().contains(a));
            }
            assert forall|j: int| 0 <= j < next.peers.len() implies next.numbers.dom().contains(
                (#[trigger] next.peers[j]).addr,
            ) by {
                assert(next.peers[j].addr == before.peers[j].addr);
            }
        }
        PeerTable { peers, addr_to_index }
    }

    /// Encrypts a plaintext for a peer.
    pub fn encrypt_for(self, peer: PeerIndex, plaintext: &[u8]) -> (r: Result<
        (Self, UdpAddr, Vec<u8>),
        Error,
    >)
        ensures
            match r {
                Ok((table, addr, datagram)) => {
                    let session = self@.peers[peer.index as int].transport;
                    &&& self@.encrypt_error(peer, plaintext@) is None
                    &&& table@ == self@.with_session(peer.index as int, session.sent())
                    &&& addr == self@.peers[peer.index as int].addr
                    &&& datagram@ == session.datagram(plaintext@)
                },
                Err(e) => self@.encrypt_error(peer, plaintext@) == Some(e@),
            },
    {
        if peer.index >= self.peers.len() {
            return Err(
                Error::PubsubProtocol {
                    reason: with_number("encrypt_for: unknown peer index ", peer.index as u64),
                },
            );
        }
        let ghost before = self@;
        let (peers, addr_to_index, entry) = self.take(peer.index);
        let PeerEntry { addr, transport } = entry;
        match transport.encrypt(plaintext) {
            Err(e) => Err(e),
            Ok((transport, datagram)) => {
                let table = PeerTable::put(
                    peers,
                    addr_to_index,
                    peer.index,
                    PeerEntry { addr, transport },
                    Ghost(before),
                );
                Ok((table, addr, datagram))
            },
        }
    }

    /// Decrypts a datagram from a registered address.
    pub fn decrypt_from(self, from: UdpAddr, datagram: &[u8]) -> (r: Result<
        (Self, PeerIndex, Vec<u8>),
        Error,
    >)
        ensures
            match r {
                Ok((table, peer, plaintext)) => {
                    &&& self@.received(from, datagram@) == Ok::<Seq<u8>, ErrorView>(plaintext@)
                    &&& table@ == self@.after(from, datagram@)
                    &&& peer.index == self@.numbers[from]
                },
                Err(e) => self@.received(from, datagram@) == Err::<Seq<u8>, ErrorView>(e@),
            },
    {
        proof {
            use_type_invariant(&self);
        }
        let key: usize = match self.addr_to_index.get(&from) {
            Some(key) => *key,
            None => {
                let text = from.describe();
                return Err(
                    Error::PubsubProtocol {
                        reason: "decrypt_from: no peer registered at address ".to_owned().concat(
                            text.as_str(),
                        ),
                    },
                );
            },
        };
        let ghost before = self@;
        let (peers, addr_to_index, entry) = self.take(key);
        let PeerEntry { addr, transport } = entry;
        match transport.decrypt(datagram) {
            (_, Err(e)) => Err(e),
            (transport, Ok(plaintext)) => {
                let table = PeerTable::put(
                    peers,
                    addr_to_index,
                    key,
                    PeerEntry { addr, transport },
                    Ghost(before),
                );
                Ok((table, PeerIndex { index: key }, plaintext))
            },
        }
    }
}

impl Default for PeerTable {
    fn default() -> (table: Self)
        ensures
            table@ == (PeerTableView { peers: Seq::empty(), numbers: Map::empty() }),
    {
        PeerTable::new()
    }
}

} // verus!
