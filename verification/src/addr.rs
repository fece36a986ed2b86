//! UDP addresses as plain numbers.
use vstd::prelude::*;
use vstd::string::StringExecFns;
use crate::bytes::{append_be, be_bytes, lemma_be_bytes_len};
use crate::ordered_map::OrderedKey;
use crate::text::{decimal, decimal_text, hex, hex_text};

verus! {

/// A UDP socket address. An IP address is the number that its octets spell,
/// most significant first.
#[derive(Clone, Copy, Debug, PartialEq, Eq, Structural)]
pub enum UdpAddr {
    /// An IPv4 address and port.
    V4 { ip: u32, port: u16 },
    /// An IPv6 address and port, with flow information and scope.
    V6 { ip6: u128, port: u16, flowinfo: u32, scope_id: u32 },
}

impl UdpAddr {
    /// The IPv4 address `a.b.c.d` with `port`.
    pub fn v4(octets: [u8; 4], port: u16) -> (addr: UdpAddr)
        ensures
            addr == (UdpAddr::V4 {
                ip: (octets[0] * 0x100_0000 + octets[1] * 0x1_0000 + octets[2] * 0x100
                    + octets[3]) as u32,
                port,
            }),
    {
        let ip: u32 = octets[0] as u32 * 0x100_0000 + octets[1] as u32 * 0x1_0000
            + octets[2] as u32 * 0x100 + octets[3] as u32;
        UdpAddr::V4 { ip, port }
    }

    /// The order on addresses: IPv4 first, then by address, port, flow
    /// information and scope.
    pub open spec fn lt(a: UdpAddr, b: UdpAddr) -> bool {
        match (a, b) {
            (UdpAddr::V4 { ip: ia, port: pa }, UdpAddr::V4 { ip: ib, port: pb }) => ia < ib || (ia
                == ib && pa < pb),
            (UdpAddr::V4 { .. }, UdpAddr::V6 { .. }) => true,
            (UdpAddr::V6 { .. }, UdpAddr::V4 { .. }) => false,
            (
                UdpAddr::V6 { ip6: ia, port: pa, flowinfo: fa, scope_id: sa },
                UdpAddr::V6 { ip6: ib, port: pb, flowinfo: fb, scope_id: sb },
            ) => ia < ib || (ia == ib && (pa < pb || (pa == pb && (fa < fb || (fa == fb && sa
                < sb))))),
        }
    }
}

/// The eight groups of an IPv6 address, from the group at `i` on.
pub open spec fn v6_groups(octets: Seq<u8>, i: int) -> Seq<char>
    decreases 8 - i,
{
    let group = hex(octets.subrange(2 * i, 2 * i + 2));
    if i >= 7 {
        group
    } else {
        group + ":"@ + v6_groups(octets, i + 1)
    }
}

/// An address in words: `a.b.c.d:port`, or the eight groups of an IPv6 address
/// in brackets.
pub open spec fn addr_text(addr: UdpAddr) -> Seq<char> {
    match addr {
        UdpAddr::V4 { ip, port } => decimal((ip / 0x100_0000) as nat) + "."@ + decimal(
            ((ip / 0x1_0000) % 0x100) as nat,
        ) + "."@ + decimal(((ip / 0x100) % 0x100) as nat) + "."@ + decimal((ip % 0x100) as nat)
            + ":"@ + decimal(port as nat),
        UdpAddr::V6 { ip6, port, .. } => "["@ + v6_groups(be_bytes(ip6 as nat, 16), 0) + "]:"@
            + decimal(port as nat),
    }
}

/// Writes the groups of an IPv6 address from the group at `i` on.
fn v6_groups_text(octets: &[u8], i: usize) -> (text: String)
    requires
        octets@.len() == 16,
        i <= 7,
    ensures
        text@ == v6_groups(octets@, i as int),
    decreases 8 - i,
{
    let group = hex_text(vstd::slice::slice_subrange(octets, 2 * i, 2 * i + 2));
    if i >= 7 {
        group
    } else {
        let rest = v6_groups_text(octets, i + 1);
        group.concat(":").concat(rest.as_str())
    }
}

impl UdpAddr {
    /// The address in words.
    pub fn describe(&self) -> (text: String)
        ensures
            text@ == addr_text(*self),
    {
        match *self {
            UdpAddr::V4 { ip, port } => {
                let a = decimal_text((ip / 0x100_0000) as u64);
                let b = decimal_text(((ip / 0x1_0000) % 0x100) as u64);
                let c = decimal_text(((ip / 0x100) % 0x100) as u64);
                let d = decimal_text((ip % 0x100) as u64);
                let p = decimal_text(port as u64);
                a.concat(".").concat(b.as_str()).concat(".").concat(c.as_str()).concat(".").concat(
                    d.as_str(),
                ).concat(":").concat(p.as_str())
            },
            UdpAddr::V6 { ip6, port, .. } => {
                let mut octets: Vec<u8> = Vec::new();
                append_be(&mut octets, ip6, 16);
                proof {
                    lemma_be_bytes_len(ip6 as nat, 16);
                    assert(octets@ =~= be_bytes(ip6 as nat, 16));
                }
                let groups = v6_groups_text(octets.as_slice(), 0);
                let p = decimal_text(port as u64);
                "[".to_owned().concat(groups.as_str()).concat("]:").concat(p.as_str())
            },
        }
    }
}

impl View for UdpAddr {
    type V = UdpAddr;

    open spec fn view(&self) -> UdpAddr {
        *self
    }
}

impl OrderedKey for UdpAddr {
    open spec fn precedes(a: UdpAddr, b: UdpAddr) -> bool {
        UdpAddr::lt(a, b)
    }

    proof fn irreflexive(a: UdpAddr) {
    }

    proof fn transitive(a: UdpAddr, b: UdpAddr, c: UdpAddr) {
    }

    proof fn total(a: UdpAddr, b: UdpAddr) {
    }

    fn before(&self, other: &UdpAddr) -> (r: bool) {
        match (*self, *other) {
            (UdpAddr::V4 { ip: ia, port: pa }, UdpAddr::V4 { ip: ib, port: pb }) => ia < ib || (ia
                == ib && pa < pb),
            (UdpAddr::V4 { .. }, UdpAddr::V6 { .. }) => true,
            (UdpAddr::V6 { .. }, UdpAddr::V4 { .. }) => false,
            (
                UdpAddr::V6 { ip6: ia, port: pa, flowinfo: fa, scope_id: sa },
                UdpAddr::V6 { ip6: ib, port: pb, flowinfo: fb, scope_id: sb },
            ) => ia < ib || (ia == ib && (pa < pb || (pa == pb && (fa < fb || (fa == fb && sa
                < sb))))),
        }
    }

    fn copy_key(&self) -> (copy: UdpAddr) {
        *self
    }
}

/// One datagram to hand to the socket.
#[derive(Debug)]
pub struct Outbound {
    /// Where it goes.
    pub addr: UdpAddr,
    /// Its bytes.
    pub datagram: Vec<u8>,
}

/// What an [`Outbound`] says.
pub struct OutboundView {
    pub addr: UdpAddr,
    pub datagram: Seq<u8>,
}

impl View for Outbound {
    type V = OutboundView;

    open spec fn view(&self) -> OutboundView {
        OutboundView { addr: self.addr, datagram: self.datagram@ }
    }
}

} // verus!
