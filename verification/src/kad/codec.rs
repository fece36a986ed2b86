//! The wire frames of the Kademlia protocol.
//!
//! A frame is one opcode byte and a body: nothing for the two pings, 32 bytes
//! for a lookup request, and for its response a count byte and that many
//! entries. An entry is a 32-byte identifier, an address kind, the octets of the
//! address, and the port, all numbers big-endian.
use vstd::prelude::*;
use vstd::slice::slice_subrange;
use vstd::string::StringExecFns;
use crate::addr::UdpAddr;
use crate::bytes::{
    append, append_be, array32, be_bytes, be_value, lemma_be_bytes_len, lemma_be_bytes_of_value, lemma_be_value_bound, lemma_be_value_of_bytes, lemma_pow256_widths, read_be,
};
use crate::error::{Error, ErrorView};
use crate::kad::bucket::{copy_peers, Peers};
use crate::kad::node_id::{
    node_id_is_its_bytes, node_id_len, node_id_of, node_id_of_bytes, NodeId, NODE_ID_LEN,
};
use crate::text::{decimal, decimal_text, hex_byte, hex_byte_text, join3, with_number};

verus! {

/// The largest number of peers in one response.
pub const MAX_PEERS_PER_RESP: usize = 255;

/// Length of an entry with an IPv4 address.
pub const ENTRY_V4_LEN: usize = 39;

/// Length of an entry with an IPv6 address.
pub const ENTRY_V6_LEN: usize = 51;

/// What kind of frame follows.
#[derive(Clone, Copy, Debug, PartialEq, Eq, Hash, Structural)]
pub enum Opcode {
    PingReq,
    PingResp,
    FindNodeReq,
    FindNodeResp,
}

impl Opcode {
    /// The byte of an opcode.
    pub open spec fn byte(self) -> u8 {
        match self {
            Opcode::PingReq => 0x00,
            Opcode::PingResp => 0x01,
            Opcode::FindNodeReq => 0x02,
            Opcode::FindNodeResp => 0x03,
        }
    }

    /// The byte of the opcode.
    pub fn to_byte(self) -> (byte: u8)
        ensures
            byte == self.byte(),
    {
        match self {
            Opcode::PingReq => 0x00,
            Opcode::PingResp => 0x01,
            Opcode::FindNodeReq => 0x02,
            Opcode::FindNodeResp => 0x03,
        }
    }

    /// The opcode of a byte; a byte above three has none.
    pub fn from_byte(byte: u8) -> (r: Result<Self, Error>)
        ensures
            match r {
                Ok(op) => op.byte() == byte,
                Err(e) => byte > 3 && e@ == ErrorView::PubsubProtocol(
                    "unknown kad opcode 0x"@ + hex_byte(byte),
                ),
            },
    {
        match byte {
            0x00 => Ok(Opcode::PingReq),
            0x01 => Ok(Opcode::PingResp),
            0x02 => Ok(Opcode::FindNodeReq),
            0x03 => Ok(Opcode::FindNodeResp),
            n => {
                let digits = hex_byte_text(n);
                Err(
                    Error::PubsubProtocol {
                        reason: "unknown kad opcode 0x".to_owned().concat(digits.as_str()),
                    },
                )
            },
        }
    }
}

/// A frame.
#[derive(Debug, PartialEq, Eq)]
pub enum Frame {
    PingReq,
    PingResp,
    FindNodeReq { target: NodeId },
    FindNodeResp { peers: Vec<(NodeId, UdpAddr)> },
}

/// The meaning of a frame.
pub enum FrameView {
    PingReq,
    PingResp,
    FindNodeReq { target: NodeId },
    FindNodeResp { peers: Peers },
}

impl Clone for Frame {
    fn clone(&self) -> (copy: Self)
        ensures
            copy@ == self@,
    {
        match self {
            Frame::PingReq => Frame::PingReq,
            Frame::PingResp => Frame::PingResp,
            Frame::FindNodeReq { target } => Frame::FindNodeReq { target: *target },
            Frame::FindNodeResp { peers } => Frame::FindNodeResp { peers: copy_peers(peers) },
        }
    }
}

impl View for Frame {
    type V = FrameView;

    open spec fn view(&self) -> FrameView {
        match self {
            Frame::PingReq => FrameView::PingReq,
            Frame::PingResp => FrameView::PingResp,
            Frame::FindNodeReq { target } => FrameView::FindNodeReq { target: *target },
            Frame::FindNodeResp { peers } => FrameView::FindNodeResp { peers: peers@ },
        }
    }
}

// ----------------------------------------------------------- the encoding

/// The bytes of an address.
pub open spec fn addr_wire(addr: UdpAddr) -> Seq<u8> {
    match addr {
        UdpAddr::V4 { ip, port } => seq![0x04u8] + be_bytes(ip as nat, 4) + be_bytes(
            port as nat,
            2,
        ),
        UdpAddr::V6 { ip6, port, .. } => seq![0x06u8] + be_bytes(ip6 as nat, 16) + be_bytes(
            port as nat,
            2,
        ),
    }
}

/// The bytes of an entry.
pub open spec fn entry_wire(entry: (NodeId, UdpAddr)) -> Seq<u8> {
    entry.0@ + addr_wire(entry.1)
}

/// The bytes of a list of entries.
pub open spec fn entries_wire(peers: Peers) -> Seq<u8>
    decreases peers.len(),
{
    if peers.len() == 0 {
        Seq::empty()
    } else {
        entry_wire(peers[0]) + entries_wire(peers.drop_first())
    }
}

impl FrameView {
    /// The bytes of the frame, or why it has none: a response names at most 255
    /// peers.
    pub open spec fn wire(self) -> Result<Seq<u8>, ErrorView> {
        match self {
            FrameView::PingReq => Ok(seq![0x00u8]),
            FrameView::PingResp => Ok(seq![0x01u8]),
            FrameView::FindNodeReq { target } => Ok(seq![0x02u8] + target@),
            FrameView::FindNodeResp { peers } => if peers.len() <= 255 {
                Ok(seq![0x03u8, peers.len() as u8] + entries_wire(peers))
            } else {
                Err(
                    ErrorView::PubsubProtocol(
                        "FindNodeResp peer count "@ + decimal(peers.len())
                            + " exceeds the 1-byte cap of 255"@,
                    ),
                )
            },
        }
    }

    /// The frame with the parts of its addresses that the wire leaves out set to
    /// zero.
    pub open spec fn normalized(self) -> FrameView {
        match self {
            FrameView::FindNodeResp { peers } => FrameView::FindNodeResp {
                peers: normal_peers(peers),
            },
            _ => self,
        }
    }
}

/// The address without flow information and scope.
pub open spec fn normal_addr(addr: UdpAddr) -> UdpAddr {
    match addr {
        UdpAddr::V4 { .. } => addr,
        UdpAddr::V6 { ip6, port, .. } => UdpAddr::V6 { ip6, port, flowinfo: 0, scope_id: 0 },
    }
}

/// The peers with their addresses without flow information and scope.
pub open spec fn normal_peers(peers: Peers) -> Peers {
    peers.map_values(|e: (NodeId, UdpAddr)| (e.0, normal_addr(e.1)))
}

/// Appends the bytes of an address.
fn encode_addr(out: &mut Vec<u8>, addr: &UdpAddr)
    ensures
        final(out)@ == old(out)@ + addr_wire(*addr),
{
    match *addr {
        UdpAddr::V4 { ip, port } => {
            out.push(0x04);
            append_be(out, ip as u128, 4);
            append_be(out, port as u128, 2);
        },
        UdpAddr::V6 { ip6, port, .. } => {
            out.push(0x06);
            append_be(out, ip6, 16);
            append_be(out, port as u128, 2);
        },
    }
    assert(out@ =~= old(out)@ + addr_wire(*addr));
}

/// Appends the bytes of an entry.
fn encode_entry(out: &mut Vec<u8>, id: &NodeId, addr: &UdpAddr)
    ensures
        final(out)@ == old(out)@ + entry_wire((*id, *addr)),
{
    append(out, id.as_bytes().as_slice());
    encode_addr(out, addr);
    assert(out@ =~= old(out)@ + entry_wire((*id, *addr)));
}

/// The bytes of a response.
fn encode_find_node_resp(peers: &Vec<(NodeId, UdpAddr)>) -> (r: Result<Vec<u8>, Error>)
    ensures
        match r {
            Ok(bytes) => FrameView::FindNodeResp { peers: peers@ }.wire() == Ok::<
                Seq<u8>,
                ErrorView,
            >(bytes@),
            Err(e) => FrameView::FindNodeResp { peers: peers@ }.wire() == Err::<Seq<u8>, ErrorView>(
                e@,
            ),
        },
{
    if peers.len() > MAX_PEERS_PER_RESP {
        let count = decimal_text(peers.len() as u64);
        return Err(
            Error::PubsubProtocol {
                reason: join3(
                    "FindNodeResp peer count ",
                    count.as_str(),
                    " exceeds the 1-byte cap of 255",
                ),
            },
        );
    }
    let mut out: Vec<u8> = Vec::new();
    out.push(0x03);
    out.push(peers.len() as u8);
    let ghost head = seq![0x03u8, peers@.len() as u8];
    assert(out@ =~= head);
    let mut i: usize = 0;
    assert(peers@.skip(0) =~= peers@);
    while i < peers.len()
        invariant
            i <= peers@.len(),
            out@ + entries_wire(peers@.skip(i as int)) == head + entries_wire(peers@),
        decreases peers@.len() - i,
    {
        let (id, addr) = peers[i];
        let ghost before = out@;
        encode_entry(&mut out, &id, &addr);
        proof {
            let rest = peers@.skip(i as int);
            assert(rest[0] == peers@[i as int]);
            assert(rest.drop_first() =~= peers@.skip(i + 1));
            assert(out@ + entries_wire(peers@.skip(i + 1)) =~= before + entries_wire(rest));
        }
        i = i + 1;
    }
    assert(peers@.skip(i as int) =~= Peers::empty());
    assert(out@ + entries_wire(Peers::empty()) =~= out@);
    Ok(out)
}

/// The bytes of a frame.
pub fn encode(frame: &Frame) -> (r: Result<Vec<u8>, Error>)
    ensures
        match r {
            Ok(bytes) => frame@.wire() == Ok::<Seq<u8>, ErrorView>(bytes@),
            Err(e) => frame@.wire() == Err::<Seq<u8>, ErrorView>(e@),
        },
{
    match frame {
        Frame::PingReq => {
            let mut out: Vec<u8> = Vec::new();
            out.push(Opcode::PingReq.to_byte());
            assert(out@ =~= seq![0x00u8]);
            Ok(out)
        },
        Frame::PingResp => {
            let mut out: Vec<u8> = Vec::new();
            out.push(Opcode::PingResp.to_byte());
            assert(out@ =~= seq![0x01u8]);
            Ok(out)
        },
        Frame::FindNodeReq { target } => {
            let mut out: Vec<u8> = Vec::new();
            out.push(Opcode::FindNodeReq.to_byte());
            append(&mut out, target.as_bytes().as_slice());
            assert(out@ =~= seq![0x02u8] + target@);
            Ok(out)
        },
        Frame::FindNodeResp { peers } => encode_find_node_resp(peers),
    }
}

// ----------------------------------------------------------- the decoding

/// The address at the front of a buffer and its length, or what is wrong.
pub open spec fn parse_addr(buf: Seq<u8>) -> Result<(UdpAddr, int), Seq<char>> {
    if buf.len() == 0 {
        Err("addr kind byte missing"@)
    } else if buf[0] == 0x04 {
        if buf.len() < 5 {
            Err("V4 addr needs 4 IP bytes"@)
        } else if buf.len() < 7 {
            Err("V4 addr needs 2 port bytes"@)
        } else {
            Ok(
                (
                    UdpAddr::V4 {
                        ip: be_value(buf.subrange(1, 5)) as u32,
                        port: be_value(buf.subrange(5, 7)) as u16,
                    },
                    7,
                ),
            )
        }
    } else if buf[0] == 0x06 {
        if buf.len() < 17 {
            Err("V6 addr needs 16 IP bytes"@)
        } else if buf.len() < 19 {
            Err("V6 addr needs 2 port bytes"@)
        } else {
            Ok(
                (
                    UdpAddr::V6 {
                        ip6: be_value(buf.subrange(1, 17)) as u128,
                        port: be_value(buf.subrange(17, 19)) as u16,
                        flowinfo: 0,
                        scope_id: 0,
                    },
                    19,
                ),
            )
        }
    } else {
        Err("unknown addr kind 0x"@ + hex_byte(buf[0]))
    }
}

/// The entry at the front of a buffer and its length, or what is wrong.
pub open spec fn parse_entry(buf: Seq<u8>) -> Result<((NodeId, UdpAddr), int), Seq<char>> {
    if buf.len() < 32 {
        Err("entry NodeId needs 32 bytes, got "@ + decimal(buf.len()))
    } else {
        match parse_addr(buf.skip(32)) {
            Err(reason) => Err(reason),
            Ok((addr, used)) => Ok(((node_id_of(buf.take(32)), addr), 32 + used)),
        }
    }
}

/// The entries from number `idx` on, read from `offset`, and where they end.
pub open spec fn parse_entries(buf: Seq<u8>, offset: int, idx: nat, count: nat) -> Result<
    (Peers, int),
    Seq<char>,
>
    decreases count - idx,
{
    if idx >= count {
        Ok((Peers::empty(), offset))
    } else {
        match parse_entry(buf.skip(offset)) {
            Err(reason) => Err(
                "FindNodeResp entry "@ + decimal(idx) + " decode failed: "@
                    + ErrorView::PubsubProtocol(reason).text(),
            ),
            Ok((entry, used)) => match parse_entries(buf, offset + used, idx + 1, count) {
                Err(reason) => Err(reason),
                Ok((rest, end)) => Ok((seq![entry] + rest, end)),
            },
        }
    }
}

/// The response that a body spells, or what is wrong.
pub open spec fn parse_find_node_resp(body: Seq<u8>) -> Result<FrameView, Seq<char>> {
    if body.len() == 0 {
        Err("FindNodeResp missing count byte"@)
    } else {
        let count = body[0] as nat;
        let buf = body.skip(1);
        match parse_entries(buf, 0, 0, count) {
            Err(reason) => Err(reason),
            Ok((peers, end)) => if buf.len() == end {
                Ok(FrameView::FindNodeResp { peers })
            } else {
                Err(
                    "FindNodeResp has "@ + decimal((buf.len() - end) as nat)
                        + " unexpected trailing bytes after "@ + decimal(count) + " entries"@,
                )
            },
        }
    }
}

/// The frame that a byte string spells, or what is wrong.
pub open spec fn parse_reason(bytes: Seq<u8>) -> Result<FrameView, Seq<char>> {
    if bytes.len() == 0 {
        Err("kad frame is empty"@)
    } else {
        let body = bytes.skip(1);
        if bytes[0] == 0x00 || bytes[0] == 0x01 {
            if body.len() == 0 {
                Ok(if bytes[0] == 0x00 { FrameView::PingReq } else { FrameView::PingResp })
            } else {
                Err(
                    (if bytes[0] == 0x00 { "PingReq"@ } else { "PingResp"@ })
                        + " expects an empty body, got "@ + decimal(body.len()) + " bytes"@,
                )
            }
        } else if bytes[0] == 0x02 {
            if body.len() < 32 {
                Err("FindNodeReq needs 32 bytes, got "@ + decimal(body.len()))
            } else if body.len() > 32 {
                Err(
                    "FindNodeReq has "@ + decimal((body.len() - 32) as nat)
                        + " unexpected trailing bytes"@,
                )
            } else {
                Ok(FrameView::FindNodeReq { target: node_id_of(body) })
            }
        } else if bytes[0] == 0x03 {
            parse_find_node_resp(body)
        } else {
            Err("unknown kad opcode 0x"@ + hex_byte(bytes[0]))
        }
    }
}

/// The frame that a byte string spells, or the error.
pub open spec fn parse(bytes: Seq<u8>) -> Result<FrameView, ErrorView> {
    match parse_reason(bytes) {
        Ok(frame) => Ok(frame),
        Err(reason) => Err(ErrorView::PubsubProtocol(reason)),
    }
}

fn protocol_error(reason: String) -> (e: Error)
    ensures
        e@ == ErrorView::PubsubProtocol(reason@),
{
    Error::PubsubProtocol { reason }
}

/// Reads 32 bytes as an identifier.
fn read_node_id(bytes: &[u8]) -> (id: NodeId)
    requires
        bytes@.len() == 32,
    ensures
        id == node_id_of(bytes@),
        id@ == bytes@,
{
    let id = NodeId::from_bytes(array32(bytes));
    proof {
        node_id_of_bytes(bytes@);
        node_id_is_its_bytes(id, node_id_of(bytes@));
    }
    id
}

/// Reads the address at the front of a buffer.
fn decode_addr(buf: &[u8]) -> (r: Result<(UdpAddr, usize), String>)
    ensures
        match r {
            Ok((addr, used)) => parse_addr(buf@) == Ok::<(UdpAddr, int), Seq<char>>(
                (addr, used as int),
            ) && used <= buf@.len(),
            Err(reason) => parse_addr(buf@) == Err::<(UdpAddr, int), Seq<char>>(reason@),
        },
{
    let n: usize = buf.len();
    if n == 0 {
        return Err("addr kind byte missing".to_owned());
    }
    let kind: u8 = buf[0];
    proof {
        lemma_pow256_widths();
    }
    if kind == 0x04 {
        if n < 5 {
            Err("V4 addr needs 4 IP bytes".to_owned())
        } else if n < 7 {
            Err("V4 addr needs 2 port bytes".to_owned())
        } else {
            let ip: u128 = read_be(buf, 1, 4);
            let port: u128 = read_be(buf, 5, 2);
            Ok((UdpAddr::V4 { ip: ip as u32, port: port as u16 }, 7))
        }
    } else if kind == 0x06 {
        if n < 17 {
            Err("V6 addr needs 16 IP bytes".to_owned())
        } else if n < 19 {
            Err("V6 addr needs 2 port bytes".to_owned())
        } else {
            let ip6: u128 = read_be(buf, 1, 16);
            let port: u128 = read_be(buf, 17, 2);
            Ok((UdpAddr::V6 { ip6, port: port as u16, flowinfo: 0, scope_id: 0 }, 19))
        }
    } else {
        let digits = hex_byte_text(kind);
        Err("unknown addr kind 0x".to_owned().concat(digits.as_str()))
    }
}

/// Reads the entry at the front of a buffer.
fn decode_entry(buf: &[u8]) -> (r: Result<((NodeId, UdpAddr), usize), String>)
    ensures
        match r {
            Ok((entry, used)) => parse_entry(buf@) == Ok::<((NodeId, UdpAddr), int), Seq<char>>(
                (entry, used as int),
            ) && used <= buf@.len(),
            Err(reason) => parse_entry(buf@) == Err::<((NodeId, UdpAddr), int), Seq<char>>(reason@),
        },
{
    let n: usize = buf.len();
    if n < NODE_ID_LEN {
        return Err(with_number("entry NodeId needs 32 bytes, got ", n as u64));
    }
    let id_bytes = slice_subrange(buf, 0, NODE_ID_LEN);
    let rest = slice_subrange(buf, NODE_ID_LEN, n);
    assert(id_bytes@ =~= buf@.take(32));
    assert(rest@ =~= buf@.skip(32));
    let id = read_node_id(id_bytes);
    match decode_addr(rest) {
        Err(reason) => Err(reason),
        Ok((addr, used)) => Ok(((id, addr), NODE_ID_LEN + used)),
    }
}

/// Reads `count` entries and says where they end.
fn decode_entries(buf: &[u8], count: usize) -> (r: Result<(Vec<(NodeId, UdpAddr)>, usize), String>)
    ensures
        match r {
            Ok((peers, end)) => parse_entries(buf@, 0, 0, count as nat) == Ok::<
                (Peers, int),
                Seq<char>,
            >((peers@, end as int)) && end <= buf@.len() && peers@.len() == count,
            Err(reason) => parse_entries(buf@, 0, 0, count as nat) == Err::<(Peers, int), Seq<char>>(
                reason@,
            ),
        },
{
    let mut peers: Vec<(NodeId, UdpAddr)> = Vec::new();
    let mut offset: usize = 0;
    let mut idx: usize = 0;
    proof {
        match parse_entries(buf@, 0, 0, count as nat) {
            Ok((rest, end)) => {
                assert(peers@ + rest =~= rest);
            },
            Err(_) => {},
        }
    }
    while idx < count
        invariant
            idx <= count,
            offset <= buf@.len(),
            peers@.len() == idx,
            parse_entries(buf@, 0, 0, count as nat) == (match parse_entries(
                buf@,
                offset as int,
                idx as nat,
                count as nat,
            ) {
                Ok((rest, end)) => Ok::<(Peers, int), Seq<char>>((peers@ + rest, end)),
                Err(reason) => Err(reason),
            }),
        decreases count - idx,
    {
        let chunk = slice_subrange(buf, offset, buf.len());
        assert(chunk@ =~= buf@.skip(offset as int));
        match decode_entry(chunk) {
            Err(reason) => {
                let number = decimal_text(idx as u64);
                let inner = protocol_error(reason).describe();
                return Err(
                    "FindNodeResp entry ".to_owned().concat(number.as_str()).concat(
                        " decode failed: ",
                    ).concat(inner.as_str()),
                );
            },
            Ok((entry, used)) => {
                let ghost before = peers@;
                peers.push(entry);
                proof {
                    match parse_entries(buf@, offset + used, (idx + 1) as nat, count as nat) {
                        Ok((rest, end)) => {
                            assert(before + (seq![entry] + rest) =~= peers@ + rest);
                        },
                        Err(_) => {},
                    }
                }
                offset = offset + used;
                idx = idx + 1;
            },
        }
    }
    assert(peers@ + Peers::empty() =~= peers@);
    Ok((peers, offset))
}

/// Reads the body of a response.
fn decode_find_node_resp(body: &[u8]) -> (r: Result<Frame, String>)
    ensures
        match r {
            Ok(frame) => parse_find_node_resp(body@) == Ok::<FrameView, Seq<char>>(frame@),
            Err(reason) => parse_find_node_resp(body@) == Err::<FrameView, Seq<char>>(reason@),
        },
{
    if body.len() == 0 {
        return Err("FindNodeResp missing count byte".to_owned());
    }
    let count: usize = body[0] as usize;
    let buf = slice_subrange(body, 1, body.len());
    assert(buf@ =~= body@.skip(1));
    match decode_entries(buf, count) {
        Err(reason) => Err(reason),
        Ok((peers, end)) => {
            let trailing: usize = buf.len() - end;
            if trailing == 0 {
                Ok(Frame::FindNodeResp { peers })
            } else {
                let rest = decimal_text(trailing as u64);
                let number = decimal_text(count as u64);
                Err(
                    "FindNodeResp has ".to_owned().concat(rest.as_str()).concat(
                        " unexpected trailing bytes after ",
                    ).concat(number.as_str()).concat(" entries"),
                )
            }
        },
    }
}

/// Reads the body of a lookup request.
fn decode_find_node_req(body: &[u8]) -> (r: Result<Frame, String>)
    ensures
        match r {
            Ok(frame) => body@.len() == 32 && frame@ == (FrameView::FindNodeReq {
                target: node_id_of(body@),
            }),
            Err(reason) => body@.len() != 32 && reason@ == if body@.len() < 32 {
                "FindNodeReq needs 32 bytes, got "@ + decimal(body@.len())
            } else {
                "FindNodeReq has "@ + decimal((body@.len() - 32) as nat)
                    + " unexpected trailing bytes"@
            },
        },
{
    let n: usize = body.len();
    if n < NODE_ID_LEN {
        Err(with_number("FindNodeReq needs 32 bytes, got ", n as u64))
    } else if n > NODE_ID_LEN {
        let rest = decimal_text((n - NODE_ID_LEN) as u64);
        Err(join3("FindNodeReq has ", rest.as_str(), " unexpected trailing bytes"))
    } else {
        Ok(Frame::FindNodeReq { target: read_node_id(body) })
    }
}

/// Reads the body of a ping, which is empty.
fn decode_no_body(request: bool, body: &[u8]) -> (r: Result<Frame, String>)
    ensures
        match r {
            Ok(frame) => body@.len() == 0 && frame@ == if request {
                FrameView::PingReq
            } else {
                FrameView::PingResp
            },
            Err(reason) => body@.len() != 0 && reason@ == (if request {
                "PingReq"@
            } else {
                "PingResp"@
            }) + " expects an empty body, got "@ + decimal(body@.len()) + " bytes"@,
        },
{
    if body.len() == 0 {
        Ok(if request { Frame::PingReq } else { Frame::PingResp })
    } else {
        let count = decimal_text(body.len() as u64);
        let name = if request { "PingReq" } else { "PingResp" };
        Err(
            name.to_owned().concat(" expects an empty body, got ").concat(count.as_str()).concat(
                " bytes",
            ),
        )
    }
}

/// Reads a frame.
pub fn decode(bytes: &[u8]) -> (r: Result<Frame, Error>)
    ensures
        match r {
            Ok(frame) => parse(bytes@) == Ok::<FrameView, ErrorView>(frame@),
            Err(e) => parse(bytes@) == Err::<FrameView, ErrorView>(e@),
        },
{
    if bytes.len() == 0 {
        return Err(protocol_error("kad frame is empty".to_owned()));
    }
    let opcode = match Opcode::from_byte(bytes[0]) {
        Ok(opcode) => opcode,
        Err(e) => {
            return Err(e);
        },
    };
    let body = slice_subrange(bytes, 1, bytes.len());
    assert(body@ =~= bytes@.skip(1));
    let outcome = match opcode {
        Opcode::PingReq => decode_no_body(true, body),
        Opcode::PingResp => decode_no_body(false, body),
        Opcode::FindNodeReq => decode_find_node_req(body),
        Opcode::FindNodeResp => decode_find_node_resp(body),
    };
    match outcome {
        Ok(frame) => Ok(frame),
        Err(reason) => Err(protocol_error(reason)),
    }
}

// --------------------------------------------------------------- the laws

/// An address survives the wire, but for flow information and scope.
proof fn lemma_addr_round_trip(addr: UdpAddr, rest: Seq<u8>)
    ensures
        parse_addr(addr_wire(addr) + rest) == Ok::<(UdpAddr, int), Seq<char>>(
            (normal_addr(addr), addr_wire(addr).len() as int),
        ),
{
    broadcast use lemma_be_bytes_len;

    lemma_pow256_widths();
    let buf = addr_wire(addr) + rest;
    match addr {
        UdpAddr::V4 { ip, port } => {
            assert(buf.subrange(1, 5) =~= be_bytes(ip as nat, 4));
            assert(buf.subrange(5, 7) =~= be_bytes(port as nat, 2));
            lemma_be_value_of_bytes(ip as nat, 4);
            lemma_be_value_of_bytes(port as nat, 2);
        },
        UdpAddr::V6 { ip6, port, .. } => {
            assert(buf.subrange(1, 17) =~= be_bytes(ip6 as nat, 16));
            assert(buf.subrange(17, 19) =~= be_bytes(port as nat, 2));
            lemma_be_value_of_bytes(ip6 as nat, 16);
            lemma_be_value_of_bytes(port as nat, 2);
        },
    }
}

/// An entry survives the wire.
proof fn lemma_entry_round_trip(entry: (NodeId, UdpAddr), rest: Seq<u8>)
    ensures
        parse_entry(entry_wire(entry) + rest) == Ok::<((NodeId, UdpAddr), int), Seq<char>>(
            ((entry.0, normal_addr(entry.1)), entry_wire(entry).len() as int),
        ),
{
    broadcast use node_id_len;

    let buf = entry_wire(entry) + rest;
    assert(buf.take(32) =~= entry.0@);
    assert(buf.skip(32) =~= addr_wire(entry.1) + rest);
    node_id_of_bytes(buf.take(32));
    node_id_is_its_bytes(node_id_of(buf.take(32)), entry.0);
    lemma_addr_round_trip(entry.1, rest);
}

/// A list of entries survives the wire.
proof fn lemma_entries_round_trip(front: Seq<u8>, peers: Peers, idx: nat)
    ensures
        parse_entries(front + entries_wire(peers), front.len() as int, idx, idx + peers.len())
            == Ok::<(Peers, int), Seq<char>>(
            (normal_peers(peers), (front + entries_wire(peers)).len() as int),
        ),
    decreases peers.len(),
{
    let buf = front + entries_wire(peers);
    if peers.len() == 0 {
        assert(normal_peers(peers) =~= Peers::empty());
    } else {
        let entry = peers[0];
        let rest = peers.drop_first();
        assert(buf.skip(front.len() as int) =~= entry_wire(entry) + entries_wire(rest));
        lemma_entry_round_trip(entry, entries_wire(rest));
        let next = front + entry_wire(entry);
        assert(next + entries_wire(rest) =~= buf);
        lemma_entries_round_trip(next, rest, idx + 1);
        assert(seq![(entry.0, normal_addr(entry.1))] + normal_peers(rest) =~= normal_peers(peers));
    }
}

/// Every frame survives the wire, but for the flow information and scope of its
/// addresses, which do not travel.
pub proof fn frame_round_trip(frame: FrameView)
    requires
        frame.wire() is Ok,
    ensures
        parse(frame.wire()->Ok_0) == Ok::<FrameView, ErrorView>(frame.normalized()),
{
    broadcast use node_id_len;

    let bytes = frame.wire()->Ok_0;
    match frame {
        FrameView::FindNodeReq { target } => {
            assert(bytes.skip(1) =~= target@);
            node_id_of_bytes(bytes.skip(1));
            node_id_is_its_bytes(node_id_of(bytes.skip(1)), target);
        },
        FrameView::FindNodeResp { peers } => {
            let body = bytes.skip(1);
            assert(body =~= seq![peers.len() as u8] + entries_wire(peers));
            let buf = body.skip(1);
            assert(buf =~= entries_wire(peers));
            assert(Seq::<u8>::empty() + entries_wire(peers) =~= entries_wire(peers));
            lemma_entries_round_trip(Seq::empty(), peers, 0);
        },
        _ => {
            assert(bytes.skip(1) =~= Seq::<u8>::empty());
        },
    }
}

/// The address at the front of a buffer is written as it was read.
proof fn lemma_addr_canonical(buf: Seq<u8>)
    ensures
        parse_addr(buf) matches Ok((addr, used)) ==> 0 < used <= buf.len() && buf.take(used)
            == addr_wire(addr),
{
    broadcast use lemma_be_bytes_len;

    lemma_pow256_widths();
    if let Ok((addr, used)) = parse_addr(buf) {
        let ip_end = if used == 7 { 5int } else { 17int };
        let ip = buf.subrange(1, ip_end);
        let port = buf.subrange(ip_end, used);
        lemma_be_value_bound(ip);
        lemma_be_value_bound(port);
        lemma_be_bytes_of_value(ip);
        lemma_be_bytes_of_value(port);
        assert(buf.take(used) =~= seq![buf[0]] + ip + port);
    }
}

/// The entry at the front of a buffer is written as it was read.
proof fn lemma_entry_canonical(buf: Seq<u8>)
    ensures
        parse_entry(buf) matches Ok((entry, used)) ==> 0 < used <= buf.len() && buf.take(used)
            == entry_wire(entry),
{
    if let Ok((entry, used)) = parse_entry(buf) {
        let rest = buf.skip(32);
        lemma_addr_canonical(rest);
        node_id_of_bytes(buf.take(32));
        assert(buf.take(used) =~= buf.take(32) + rest.take(used - 32));
    }
}

/// The entries of a buffer are written as they were read.
proof fn lemma_entries_canonical(buf: Seq<u8>, offset: int, idx: nat, count: nat)
    requires
        0 <= offset <= buf.len(),
        idx <= count,
    ensures
        parse_entries(buf, offset, idx, count) matches Ok((peers, end)) ==> {
            &&& peers.len() == count - idx
            &&& offset <= end <= buf.len()
            &&& buf.subrange(offset, end) == entries_wire(peers)
        },
    decreases count - idx,
{
    if let Ok((peers, end)) = parse_entries(buf, offset, idx, count) {
        if idx < count {
            let rest_buf = buf.skip(offset);
            lemma_entry_canonical(rest_buf);
            let (entry, used) = parse_entry(rest_buf)->Ok_0;
            lemma_entries_canonical(buf, offset + used, idx + 1, count);
            let rest = parse_entries(buf, offset + used, idx + 1, count)->Ok_0.0;
            assert(peers == seq![entry] + rest);
            assert(peers.drop_first() =~= rest);
            assert(rest_buf.take(used) =~= buf.subrange(offset, offset + used));
            assert(buf.subrange(offset, end) =~= buf.subrange(offset, offset + used)
                + buf.subrange(offset + used, end));
        } else {
            assert(buf.subrange(offset, end) =~= Seq::<u8>::empty());
        }
    }
}

/// The wire form is canonical: a frame that was read is written as the very bytes
/// that it was read from.
pub proof fn frames_are_canonical(bytes: Seq<u8>)
    ensures
        parse(bytes) matches Ok(frame) ==> frame.wire() == Ok::<Seq<u8>, ErrorView>(bytes),
{
    if let Ok(frame) = parse(bytes) {
        let body = bytes.skip(1);
        assert(bytes =~= seq![bytes[0]] + body);
        match frame {
            FrameView::FindNodeReq { target } => {
                node_id_of_bytes(body);
            },
            FrameView::FindNodeResp { peers } => {
                let buf = body.skip(1);
                lemma_entries_canonical(buf, 0, 0, body[0] as nat);
                assert(buf.subrange(0, buf.len() as int) =~= buf);
                assert(bytes =~= seq![0x03u8, body[0]] + buf);
            },
            _ => {
                assert(body =~= Seq::<u8>::empty());
            },
        }
    }
}

} // verus!
