//! The wire frames of pubsub.
use vstd::prelude::*;
use vstd::slice::{slice_subrange, slice_to_vec};
use vstd::string::StringExecFns;
use vstd::utf8::{encode_utf8_valid_utf8, valid_utf8};
use crate::bytes::{
    append, append_be, be_bytes, be_value, copy_range, lemma_be_bytes_len, lemma_be_value_of_bytes,
    lemma_pow256_widths, read_be,
};
use crate::error::{Error, ErrorView};
use crate::pubsub::auth::{SelfDelimiting, WireAuthenticator};
use crate::pubsub::topic::{is_topic, topic_complaint, utf8_string, Topic};
use crate::rlnc::{CodedPiece, PieceView};
use crate::text::{decimal, decimal_text, join3};

verus! {

/// The largest number of bytes in a topic name.
pub const MAX_TOPIC_LEN: usize = 255;

/// A piece with the commitment to its generation and its tag.
pub struct WirePiece<A: WireAuthenticator> {
    commitment: A::Commitment,
    piece: CodedPiece,
    tag: A::Tag,
}

/// The meaning of a [`WirePiece`].
pub struct WirePieceView {
    pub commitment: Seq<u8>,
    pub piece: PieceView,
    pub tag: Seq<u8>,
}

impl<A: WireAuthenticator> View for WirePiece<A> {
    type V = WirePieceView;

    closed spec fn view(&self) -> WirePieceView {
        WirePieceView {
            commitment: A::commitment_bytes(self.commitment),
            piece: self.piece@,
            tag: A::tag_bytes(self.tag),
        }
    }
}

/// Whether bytes are those of some commitment and some tag.
pub open spec fn spelled_by<A: WireAuthenticator>(
    commitment: Seq<u8>,
    tag: Seq<u8>,
    c: A::Commitment,
    t: A::Tag,
) -> bool {
    commitment == A::commitment_bytes(c) && tag == A::tag_bytes(t)
}

impl<A: WireAuthenticator> WirePiece<A> {
    /// Puts a piece together.
    pub fn new(commitment: A::Commitment, piece: CodedPiece, tag: A::Tag) -> (w: Self)
        ensures
            w@ == (WirePieceView {
                commitment: A::commitment_bytes(commitment),
                piece: piece@,
                tag: A::tag_bytes(tag),
            }),
    {
        WirePiece { commitment, piece, tag }
    }

    /// The commitment.
    pub fn commitment(&self) -> (c: &A::Commitment)
        ensures
            A::commitment_bytes(*c) == self@.commitment,
    {
        &self.commitment
    }

    /// The piece.
    pub fn piece(&self) -> (p: &CodedPiece)
        ensures
            p@ == self@.piece,
    {
        &self.piece
    }

    /// The tag.
    pub fn tag(&self) -> (t: &A::Tag)
        ensures
            A::tag_bytes(*t) == self@.tag,
    {
        &self.tag
    }
}

/// A frame: topic, shape of the generation, and the bytes of the piece.
#[derive(Debug)]
pub struct PubsubFrame {
    pub topic: Topic,
    /// Number of original pieces.
    pub piece_count: u32,
    /// Length of a piece.
    pub piece_byte_len: u32,
    /// Coefficients and data.
    pub piece_bytes: Vec<u8>,
}

impl Clone for PubsubFrame {
    fn clone(&self) -> (copy: Self)
        ensures
            copy.topic@ == self.topic@,
            copy.piece_count == self.piece_count,
            copy.piece_byte_len == self.piece_byte_len,
            copy.piece_bytes@ == self.piece_bytes@,
    {
        PubsubFrame {
            topic: self.topic.clone(),
            piece_count: self.piece_count,
            piece_byte_len: self.piece_byte_len,
            piece_bytes: slice_to_vec(self.piece_bytes.as_slice()),
        }
    }
}

/// The meaning of a frame with its piece.
pub struct PubsubFrameView {
    pub topic: Seq<u8>,
    pub k: nat,
    pub b: nat,
    pub wire: WirePieceView,
}

impl PubsubFrameView {
    /// The frame of a topic around a piece.
    pub open spec fn around(topic: Seq<u8>, wire: WirePieceView) -> PubsubFrameView {
        PubsubFrameView { topic, k: wire.piece.coding.len(), b: wire.piece.data.len(), wire }
    }

    /// Everything in front of commitment, tag and piece.
    pub open spec fn header(self) -> Seq<u8> {
        seq![self.topic.len() as u8] + self.topic + be_bytes(self.k, 4) + be_bytes(self.b, 4)
    }

    /// The bytes of the frame.
    pub open spec fn bytes(self) -> Seq<u8> {
        self.header() + self.wire.commitment + self.wire.tag + self.wire.piece.wire()
    }

    /// Why the frame has no bytes, if it has none: its shape does not fit.
    pub open spec fn shape_error(self) -> Option<ErrorView> {
        if self.k > u32::MAX {
            Some(
                ErrorView::PubsubProtocol(
                    "piece_count "@ + decimal(self.k) + " exceeds u32 range"@,
                ),
            )
        } else if self.b > u32::MAX {
            Some(
                ErrorView::PubsubProtocol(
                    "piece_byte_len "@ + decimal(self.b) + " exceeds u32 range"@,
                ),
            )
        } else {
            None
        }
    }
}

/// The bytes of a frame. Fails only where a number of its shape does not fit
/// into 32 bits.
pub fn encode<A: WireAuthenticator>(
    topic: &Topic,
    piece_count: usize,
    piece_byte_len: usize,
    wire_piece: &WirePiece<A>,
) -> (r: Result<Vec<u8>, Error>)
    ensures
        ({
            let frame = PubsubFrameView {
                topic: topic@,
                k: piece_count as nat,
                b: piece_byte_len as nat,
                wire: wire_piece@,
            };
            match r {
                Ok(bytes) => frame.shape_error() is None && bytes@ == frame.bytes(),
                Err(e) => frame.shape_error() == Some(e@),
            }
        }),
{
    let topic_bytes = topic.as_bytes();
    if piece_count > u32::MAX as usize {
        let n = decimal_text(piece_count as u64);
        return Err(
            Error::PubsubProtocol { reason: join3("piece_count ", n.as_str(), " exceeds u32 range") },
        );
    }
    if piece_byte_len > u32::MAX as usize {
        let n = decimal_text(piece_byte_len as u64);
        return Err(
            Error::PubsubProtocol {
                reason: join3("piece_byte_len ", n.as_str(), " exceeds u32 range"),
            },
        );
    }
    let mut out: Vec<u8> = Vec::new();
    out.push(topic_bytes.len() as u8);
    append(&mut out, topic_bytes);
    append_be(&mut out, piece_count as u128, 4);
    append_be(&mut out, piece_byte_len as u128, 4);
    let commitment = A::commitment_to_vec(&wire_piece.commitment);
    append(&mut out, commitment.as_slice());
    let tag = A::tag_to_vec(&wire_piece.tag);
    append(&mut out, tag.as_slice());
    append(&mut out, wire_piece.piece.coding_vector.as_slice());
    append(&mut out, wire_piece.piece.data.as_slice());
    assert(out@ =~= (PubsubFrameView {
        topic: topic@,
        k: piece_count as nat,
        b: piece_byte_len as nat,
        wire: wire_piece@,
    }).bytes());
    Ok(out)
}

/// What is wrong with a frame.
pub open spec fn complaint(reason: Seq<char>) -> Result<PubsubFrameView, ErrorView> {
    Err(ErrorView::PubsubProtocol(reason))
}

/// The topic that bytes spell, or what is wrong.
pub open spec fn parse_topic(bytes: Seq<u8>) -> Option<ErrorView> {
    if !valid_utf8(bytes) {
        Some(ErrorView::PubsubProtocol("topic slice is not valid UTF-8"@))
    } else if !is_topic(bytes) {
        Some(topic_complaint(bytes))
    } else {
        None
    }
}

/// What follows the header: commitment, tag and piece.
pub open spec fn parse_body<A: WireAuthenticator>(
    topic: Seq<u8>,
    k: nat,
    b: nat,
    body: Seq<u8>,
) -> Result<PubsubFrameView, ErrorView> {
    match A::commitment_extent(body) {
        None => complaint("frame missing commitment"@),
        Some(n) => {
            let commitment = body.take(n as int);
            let after = body.skip(n as int);
            match A::commitment_complaint(commitment) {
                Some(reason) => complaint(reason),
                None => match A::tag_extent(after) {
                    None => complaint("frame missing tag"@),
                    Some(m) => {
                        let tag = after.take(m as int);
                        let piece = after.skip(m as int);
                        match A::tag_complaint(tag) {
                            Some(reason) => complaint(reason),
                            None => if piece.len() != k + b {
                                Err(
                                    ErrorView::RlncLayer(
                                        "piece size mismatch: expected "@ + decimal(k + b)
                                            + ", got "@ + decimal(piece.len()),
                                    ),
                                )
                            } else {
                                Ok(
                                    PubsubFrameView {
                                        topic,
                                        k,
                                        b,
                                        wire: WirePieceView {
                                            commitment,
                                            piece: PieceView {
                                                coding: piece.take(k as int),
                                                data: piece.skip(k as int),
                                            },
                                            tag,
                                        },
                                    },
                                )
                            },
                        }
                    },
                },
            }
        },
    }
}

/// The frame that bytes spell, or what is wrong.
pub open spec fn parse<A: WireAuthenticator>(bytes: Seq<u8>) -> Result<PubsubFrameView, ErrorView> {
    if bytes.len() == 0 {
        complaint("frame missing topic length byte"@)
    } else {
        let t = bytes[0] as int;
        if bytes.len() < t + 9 {
            complaint(
                "frame too short: "@ + decimal(bytes.len()) + " bytes, header needs "@ + decimal(
                    (t + 9) as nat,
                ),
            )
        } else {
            let topic = bytes.subrange(1, 1 + t);
            match parse_topic(topic) {
                Some(e) => Err(e),
                None => parse_body::<A>(
                    topic,
                    be_value(bytes.subrange(1 + t, 5 + t)),
                    be_value(bytes.subrange(5 + t, 9 + t)),
                    bytes.skip(9 + t),
                ),
            }
        }
    }
}

/// Reads the topic of a frame.
fn decode_topic(bytes: &[u8]) -> (r: Result<Topic, Error>)
    ensures
        match r {
            Ok(topic) => parse_topic(bytes@) is None && topic@ == bytes@,
            Err(e) => parse_topic(bytes@) == Some(e@),
        },
{
    match utf8_string(slice_to_vec(bytes)) {
        None => Err(
            Error::PubsubProtocol { reason: "topic slice is not valid UTF-8".to_owned() },
        ),
        Some(name) => {
            proof {
                encode_utf8_valid_utf8(name@);
            }
            Topic::new(name)
        },
    }
}

fn complain<T>(reason: &str) -> (r: Result<T, Error>)
    ensures
        r matches Err(e) && e@ == ErrorView::PubsubProtocol(reason@),
{
    Err(Error::PubsubProtocol { reason: reason.to_owned() })
}

/// Reads what follows the header of a frame.
fn decode_body<A: WireAuthenticator>(k: u32, b: u32, body: &[u8], Ghost(topic): Ghost<Seq<u8>>) -> (r:
    Result<(WirePiece<A>, Vec<u8>), Error>)
    ensures
        match r {
            Ok((wire, piece_bytes)) => parse_body::<A>(topic, k as nat, b as nat, body@) == Ok::<
                PubsubFrameView,
                ErrorView,
            >(PubsubFrameView { topic, k: k as nat, b: b as nat, wire: wire@ }) && piece_bytes@
                == wire@.piece.wire(),
            Err(e) => parse_body::<A>(topic, k as nat, b as nat, body@) == Err::<
                PubsubFrameView,
                ErrorView,
            >(e@),
        },
{
    let n: usize = match A::commitment_width(body) {
        Some(n) => n,
        None => {
            return complain("frame missing commitment");
        },
    };
    let commitment_bytes = slice_subrange(body, 0, n);
    assert(commitment_bytes@ =~= body@.take(n as int));
    let after = slice_subrange(body, n, body.len());
    assert(after@ =~= body@.skip(n as int));
    let commitment = match A::commitment_from_bytes(commitment_bytes) {
        Ok(c) => c,
        Err(e) => {
            return Err(e);
        },
    };
    let m: usize = match A::tag_width(after) {
        Some(m) => m,
        None => {
            return complain("frame missing tag");
        },
    };
    let tag_bytes = slice_subrange(after, 0, m);
    assert(tag_bytes@ =~= after@.take(m as int));
    let piece = slice_subrange(after, m, after.len());
    assert(piece@ =~= after@.skip(m as int));
    let tag = match A::tag_from_bytes(tag_bytes) {
        Ok(t) => t,
        Err(e) => {
            return Err(e);
        },
    };
    let wanted: u64 = k as u64 + b as u64;
    if piece.len() as u64 != wanted {
        let expected = decimal_text(wanted);
        let got = decimal_text(piece.len() as u64);
        return Err(
            Error::RlncLayer {
                reason: "piece size mismatch: expected ".to_owned().concat(
                    expected.as_str(),
                ).concat(", got ").concat(got.as_str()),
            },
        );
    }
    let split: usize = k as usize;
    let coding_vector = copy_range(piece, 0, split);
    let data = copy_range(piece, split, piece.len());
    let piece_bytes = slice_to_vec(piece);
    assert(coding_vector@ =~= piece@.take(k as int));
    assert(data@ =~= piece@.skip(k as int));
    assert(coding_vector@ + data@ =~= piece@);
    Ok((WirePiece { commitment, piece: CodedPiece { coding_vector, data }, tag }, piece_bytes))
}

/// Reads a frame.
pub fn decode<A: WireAuthenticator>(bytes: &[u8]) -> (r: Result<(PubsubFrame, WirePiece<A>), Error>)
    ensures
        match r {
            Ok((frame, wire)) => parse::<A>(bytes@) == Ok::<PubsubFrameView, ErrorView>(
                PubsubFrameView {
                    topic: frame.topic@,
                    k: frame.piece_count as nat,
                    b: frame.piece_byte_len as nat,
                    wire: wire@,
                },
            ) && frame.piece_bytes@ == wire@.piece.wire(),
            Err(e) => parse::<A>(bytes@) == Err::<PubsubFrameView, ErrorView>(e@),
        },
{
    let len: usize = bytes.len();
    if len == 0 {
        return complain("frame missing topic length byte");
    }
    let t: usize = bytes[0] as usize;
    let header_end: usize = t + 9;
    if len < header_end {
        let got = decimal_text(len as u64);
        let needed = decimal_text(header_end as u64);
        return Err(
            Error::PubsubProtocol {
                reason: "frame too short: ".to_owned().concat(got.as_str()).concat(
                    " bytes, header needs ",
                ).concat(needed.as_str()),
            },
        );
    }
    let topic = match decode_topic(slice_subrange(bytes, 1, 1 + t)) {
        Ok(topic) => topic,
        Err(e) => {
            return Err(e);
        },
    };
    proof {
        lemma_pow256_widths();
    }
    let k: u128 = read_be(bytes, 1 + t, 4);
    let b: u128 = read_be(bytes, 5 + t, 4);
    let body = slice_subrange(bytes, header_end, len);
    assert(body@ =~= bytes@.skip(9 + t as int));
    match decode_body::<A>(k as u32, b as u32, body, Ghost(topic@)) {
        Err(e) => Err(e),
        Ok((wire, piece_bytes)) => Ok(
            (
                PubsubFrame {
                    topic,
                    piece_count: k as u32,
                    piece_byte_len: b as u32,
                    piece_bytes,
                },
                wire,
            ),
        ),
    }
}

/// Printable bytes are valid UTF-8.
proof fn lemma_topic_is_utf8(name: Seq<u8>)
    requires
        forall|i: int| 0 <= i < name.len() ==> 0x21 <= #[trigger] name[i] <= 0x7E,
    ensures
        valid_utf8(name),
    decreases name.len(),
{
    if name.len() > 0 {
        assert(name[0] <= 0x7E);
        let rest = vstd::utf8::pop_first_scalar(name);
        broadcast use vstd::utf8::utf8_byte_ranges_bitwise;

        assert(vstd::utf8::is_leading_byte_width_1(name[0]));
        assert(vstd::utf8::valid_first_scalar(name));
        assert(rest =~= name.skip(1));
        assert forall|i: int| 0 <= i < rest.len() implies 0x21 <= #[trigger] rest[i] <= 0x7E by {
            assert(rest[i] == name[i + 1]);
        }
        lemma_topic_is_utf8(rest);
    }
}

/// Every frame whose piece has the announced shape survives the wire.
pub proof fn frame_round_trip<A: SelfDelimiting>(
    frame: PubsubFrameView,
    c: A::Commitment,
    t: A::Tag,
)
    requires
        is_topic(frame.topic),
        frame.shape_error() is None,
        frame.wire.piece.coding.len() == frame.k,
        frame.wire.piece.data.len() == frame.b,
        spelled_by::<A>(frame.wire.commitment, frame.wire.tag, c, t),
    ensures
        parse::<A>(frame.bytes()) == Ok::<PubsubFrameView, ErrorView>(frame),
{
    broadcast use lemma_be_bytes_len;

    let bytes = frame.bytes();
    let n = frame.topic.len() as int;
    let piece = frame.wire.piece.wire();
    let after = frame.wire.tag + piece;
    let body = frame.wire.commitment + after;
    assert(bytes[0] == n as u8);
    assert(bytes.subrange(1, 1 + n) =~= frame.topic);
    assert(bytes.subrange(1 + n, 5 + n) =~= be_bytes(frame.k, 4));
    assert(bytes.subrange(5 + n, 9 + n) =~= be_bytes(frame.b, 4));
    assert(bytes.skip(9 + n) =~= body);
    lemma_pow256_widths();
    lemma_be_value_of_bytes(frame.k, 4);
    lemma_be_value_of_bytes(frame.b, 4);
    lemma_topic_is_utf8(frame.topic);
    A::commitment_survives(c, after);
    A::tag_survives(t, piece);
    assert(body.take(frame.wire.commitment.len() as int) =~= frame.wire.commitment);
    assert(body.skip(frame.wire.commitment.len() as int) =~= after);
    assert(after.take(frame.wire.tag.len() as int) =~= frame.wire.tag);
    assert(after.skip(frame.wire.tag.len() as int) =~= piece);
    assert(piece.take(frame.k as int) =~= frame.wire.piece.coding);
    assert(piece.skip(frame.k as int) =~= frame.wire.piece.data);
}

} // verus!
