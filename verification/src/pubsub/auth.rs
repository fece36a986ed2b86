//! Authenticators: what a source commits to, how it tags its pieces, and how
//! commitments and tags look on the wire.
use vstd::prelude::*;
use vstd::slice::slice_to_vec;
use rlnc_cat_rs::coding::piece::OriginalData;
use crate::bytes::array32;
use crate::crypto::{blake3_hash, blake3_keyed_hash};
use crate::error::{Error, ErrorView};
use crate::rlnc::{
    joined, keyed_commit, keyed_tag, keyed_verify, original_pieces, CodedPiece, PieceView,
};
use crate::text::{decimal, with_number};

verus! {

/// The blocks of an authenticator in a frame.
pub enum Block {
    Commitment,
    Tag,
}

/// The value at `input` of a function that belongs to `S` and of which nothing is
/// known.
pub open spec fn undisclosed<S, In, Out>(input: In) -> Out {
    let function = arbitrary::<spec_fn(Option<S>, In) -> Out>();
    function(None, input)
}

/// The wire side of an authenticator. Both blocks are read cursor style: from
/// what follows, an authenticator tells how many bytes are its own.
///
/// The spec functions describe an implementation, and its methods have to follow
/// them. An implementation outside verified code leaves them at their defaults,
/// which say nothing. What is proved of a node then holds with any functions that
/// describe such an implementation; that there are some is for its author to see
/// to: what a method returns depends on nothing but its arguments, taken by their
/// bytes, and what is written is what is read.
pub trait WireAuthenticator: Sized {
    /// What a source commits to.
    type Commitment;

    /// What a piece is tagged with.
    type Tag;

    /// The bytes of a commitment.
    open spec fn commitment_bytes(commitment: Self::Commitment) -> Seq<u8> {
        undisclosed::<Self, _, _>((Block::Commitment, commitment))
    }

    /// The bytes of a tag.
    open spec fn tag_bytes(tag: Self::Tag) -> Seq<u8> {
        undisclosed::<Self, _, _>((Block::Tag, tag))
    }

    /// How many of the bytes are a commitment, where there are enough.
    open spec fn commitment_extent(bytes: Seq<u8>) -> Option<nat> {
        undisclosed::<Self, _, _>((Block::Commitment, bytes))
    }

    /// How many of the bytes are a tag, where there are enough.
    open spec fn tag_extent(bytes: Seq<u8>) -> Option<nat> {
        undisclosed::<Self, _, _>((Block::Tag, bytes))
    }

    /// Why bytes are no commitment, if they are none.
    open spec fn commitment_complaint(bytes: Seq<u8>) -> Option<Seq<char>> {
        undisclosed::<Self, _, _>((Block::Commitment, bytes))
    }

    /// Why bytes are no tag, if they are none.
    open spec fn tag_complaint(bytes: Seq<u8>) -> Option<Seq<char>> {
        undisclosed::<Self, _, _>((Block::Tag, bytes))
    }

    /// The bytes of the commitment to the given pieces.
    open spec fn commits(&self, pieces: Seq<Seq<u8>>) -> Seq<u8> {
        undisclosed::<Self, _, _>((*self, pieces))
    }

    /// The bytes of the tag of a piece.
    open spec fn tags(&self, commitment: Seq<u8>, piece: PieceView) -> Seq<u8> {
        undisclosed::<Self, _, _>((*self, commitment, piece))
    }

    /// Whether a tag is accepted.
    open spec fn accepts(&self, commitment: Seq<u8>, piece: PieceView, tag: Seq<u8>) -> bool {
        undisclosed::<Self, _, _>((*self, commitment, piece, tag))
    }

    /// Commits to a generation.
    fn commit(&self, original: &OriginalData) -> (commitment: Self::Commitment)
        ensures
            Self::commitment_bytes(commitment) == self.commits(original_pieces(*original)),
    ;

    /// Tags a piece.
    fn tag(&self, commitment: &Self::Commitment, piece: &CodedPiece) -> (tag: Self::Tag)
        ensures
            Self::tag_bytes(tag) == self.tags(Self::commitment_bytes(*commitment), piece@),
    ;

    /// Checks the tag of a piece.
    fn verify(
        &self,
        commitment: &Self::Commitment,
        piece: &CodedPiece,
        tag: &Self::Tag,
    ) -> (r: Result<(), String>)
        ensures
            r is Ok <==> self.accepts(
                Self::commitment_bytes(*commitment),
                piece@,
                Self::tag_bytes(*tag),
            ),
            r matches Err(e) ==> e@ == "authenticator rejected the piece"@,
    ;

    /// A copy of a commitment.
    fn copy_commitment(commitment: &Self::Commitment) -> (copy: Self::Commitment)
        ensures
            Self::commitment_bytes(copy) == Self::commitment_bytes(*commitment),
    ;

    /// How many of the bytes are a commitment.
    fn commitment_width(bytes: &[u8]) -> (r: Option<usize>)
        ensures
            match r {
                Some(n) => n <= bytes@.len() && Self::commitment_extent(bytes@) == Some(n as nat),
                None => Self::commitment_extent(bytes@) is None,
            },
    ;

    /// How many of the bytes are a tag.
    fn tag_width(bytes: &[u8]) -> (r: Option<usize>)
        ensures
            match r {
                Some(n) => n <= bytes@.len() && Self::tag_extent(bytes@) == Some(n as nat),
                None => Self::tag_extent(bytes@) is None,
            },
    ;

    /// The bytes of a commitment.
    fn commitment_to_vec(commitment: &Self::Commitment) -> (bytes: Vec<u8>)
        ensures
            bytes@ == Self::commitment_bytes(*commitment),
    ;

    /// The commitment that bytes spell.
    fn commitment_from_bytes(bytes: &[u8]) -> (r: Result<Self::Commitment, Error>)
        ensures
            match r {
                Ok(c) => Self::commitment_complaint(bytes@) is None && Self::commitment_bytes(c)
                    == bytes@,
                Err(e) => Self::commitment_complaint(bytes@) matches Some(reason) && e@
                    == ErrorView::PubsubProtocol(reason),
            },
    ;

    /// The bytes of a tag.
    fn tag_to_vec(tag: &Self::Tag) -> (bytes: Vec<u8>)
        ensures
            bytes@ == Self::tag_bytes(*tag),
    ;

    /// The tag that bytes spell.
    fn tag_from_bytes(bytes: &[u8]) -> (r: Result<Self::Tag, Error>)
        ensures
            match r {
                Ok(t) => Self::tag_complaint(bytes@) is None && Self::tag_bytes(t) == bytes@,
                Err(e) => Self::tag_complaint(bytes@) matches Some(reason) && e@
                    == ErrorView::PubsubProtocol(reason),
            },
    ;
}

/// An authenticator whose blocks tell their own length: whatever follows them,
/// they are read back.
pub trait SelfDelimiting: WireAuthenticator {
    /// A commitment is read back from the front of what follows.
    proof fn commitment_survives(commitment: Self::Commitment, rest: Seq<u8>)
        ensures
            Self::commitment_extent(Self::commitment_bytes(commitment) + rest) == Some(
                Self::commitment_bytes(commitment).len(),
            ),
            Self::commitment_complaint(Self::commitment_bytes(commitment)) is None,
    ;

    /// A tag is read back from the front of what follows.
    proof fn tag_survives(tag: Self::Tag, rest: Seq<u8>)
        ensures
            Self::tag_extent(Self::tag_bytes(tag) + rest) == Some(Self::tag_bytes(tag).len()),
            Self::tag_complaint(Self::tag_bytes(tag)) is None,
    ;
}

/// What the multiplexer needs of its authenticator.
pub trait PubsubAuth: WireAuthenticator {

}

impl<A: WireAuthenticator> PubsubAuth for A {

}

// ------------------------------------------------------------------- none

/// No authentication: commitments and tags are empty, every piece is accepted.
#[derive(Clone, Copy, Debug, PartialEq, Eq)]
pub struct NullAuthenticator;

impl WireAuthenticator for NullAuthenticator {
    type Commitment = ();

    type Tag = ();

    open spec fn commitment_bytes(commitment: ()) -> Seq<u8> {
        Seq::empty()
    }

    open spec fn tag_bytes(tag: ()) -> Seq<u8> {
        Seq::empty()
    }

    open spec fn commitment_extent(bytes: Seq<u8>) -> Option<nat> {
        Some(0)
    }

    open spec fn tag_extent(bytes: Seq<u8>) -> Option<nat> {
        Some(0)
    }

    open spec fn commitment_complaint(bytes: Seq<u8>) -> Option<Seq<char>> {
        if bytes.len() == 0 {
            None
        } else {
            Some("NullAuthenticator commitment must be 0 bytes, got "@ + decimal(bytes.len()))
        }
    }

    open spec fn tag_complaint(bytes: Seq<u8>) -> Option<Seq<char>> {
        if bytes.len() == 0 {
            None
        } else {
            Some("NullAuthenticator tag must be 0 bytes, got "@ + decimal(bytes.len()))
        }
    }

    open spec fn commits(&self, pieces: Seq<Seq<u8>>) -> Seq<u8> {
        Seq::empty()
    }

    open spec fn tags(&self, commitment: Seq<u8>, piece: PieceView) -> Seq<u8> {
        Seq::empty()
    }

    open spec fn accepts(&self, commitment: Seq<u8>, piece: PieceView, tag: Seq<u8>) -> bool {
        true
    }

    fn commit(&self, original: &OriginalData) -> (commitment: ()) {
    }

    fn tag(&self, commitment: &(), piece: &CodedPiece) -> (tag: ()) {
    }

    fn verify(&self, commitment: &(), piece: &CodedPiece, tag: &()) -> (r: Result<(), String>) {
        Ok(())
    }

    fn copy_commitment(commitment: &()) -> (copy: ()) {
    }

    fn commitment_width(bytes: &[u8]) -> (r: Option<usize>) {
        Some(0)
    }

    fn tag_width(bytes: &[u8]) -> (r: Option<usize>) {
        Some(0)
    }

    fn commitment_to_vec(commitment: &()) -> (bytes: Vec<u8>) {
        let bytes: Vec<u8> = Vec::new();
        assert(bytes@ =~= Seq::<u8>::empty());
        bytes
    }

    fn commitment_from_bytes(bytes: &[u8]) -> (r: Result<(), Error>) {
        if bytes.len() == 0 {
            assert(bytes@ =~= Seq::<u8>::empty());
            Ok(())
        } else {
            Err(
                Error::PubsubProtocol {
                    reason: with_number(
                        "NullAuthenticator commitment must be 0 bytes, got ",
                        bytes.len() as u64,
                    ),
                },
            )
        }
    }

    fn tag_to_vec(tag: &()) -> (bytes: Vec<u8>) {
        let bytes: Vec<u8> = Vec::new();
        assert(bytes@ =~= Seq::<u8>::empty());
        bytes
    }

    fn tag_from_bytes(bytes: &[u8]) -> (r: Result<(), Error>) {
        if bytes.len() == 0 {
            assert(bytes@ =~= Seq::<u8>::empty());
            Ok(())
        } else {
            Err(
                Error::PubsubProtocol {
                    reason: with_number(
                        "NullAuthenticator tag must be 0 bytes, got ",
                        bytes.len() as u64,
                    ),
                },
            )
        }
    }
}

impl SelfDelimiting for NullAuthenticator {
    proof fn commitment_survives(commitment: (), rest: Seq<u8>) {
    }

    proof fn tag_survives(tag: (), rest: Seq<u8>) {
    }
}

// ------------------------------------------------------------- keyed hash

/// The commitment of a [`KeyedHashAuthenticator`].
#[derive(Clone, Copy, Debug, PartialEq, Eq)]
pub struct KeyedHashCommitment {
    bytes: [u8; 32],
}

impl View for KeyedHashCommitment {
    type V = Seq<u8>;

    closed spec fn view(&self) -> Seq<u8> {
        self.bytes@
    }
}

impl KeyedHashCommitment {
    /// Wraps raw bytes.
    pub fn from_bytes(bytes: [u8; 32]) -> (c: Self)
        ensures
            c@ == bytes@,
    {
        KeyedHashCommitment { bytes }
    }

    /// The raw bytes.
    pub fn as_bytes(&self) -> (bytes: &[u8; 32])
        ensures
            bytes@ == self@,
    {
        &self.bytes
    }
}

/// The tag of a [`KeyedHashAuthenticator`].
#[derive(Clone, Copy, Debug, PartialEq, Eq)]
pub struct KeyedHashTag {
    bytes: [u8; 32],
}

impl View for KeyedHashTag {
    type V = Seq<u8>;

    closed spec fn view(&self) -> Seq<u8> {
        self.bytes@
    }
}

impl KeyedHashTag {
    /// Wraps raw bytes.
    pub fn from_bytes(bytes: [u8; 32]) -> (t: Self)
        ensures
            t@ == bytes@,
    {
        KeyedHashTag { bytes }
    }

    /// The raw bytes.
    pub fn as_bytes(&self) -> (bytes: &[u8; 32])
        ensures
            bytes@ == self@,
    {
        &self.bytes
    }
}

/// A keyed hash over commitment and piece, under a key that all parties share.
pub struct KeyedHashAuthenticator {
    key: [u8; 32],
}

impl View for KeyedHashAuthenticator {
    type V = Seq<u8>;

    /// The shared key.
    closed spec fn view(&self) -> Seq<u8> {
        self.key@
    }
}

impl KeyedHashAuthenticator {
    /// The authenticator with a shared key.
    pub fn new(key: [u8; 32]) -> (auth: Self)
        ensures
            auth@ == key@,
    {
        KeyedHashAuthenticator { key }
    }
}

/// 32 bytes at the front, where there are as many.
pub open spec fn extent_32(bytes: Seq<u8>) -> Option<nat> {
    if bytes.len() >= 32 {
        Some(32)
    } else {
        None
    }
}

impl WireAuthenticator for KeyedHashAuthenticator {
    type Commitment = KeyedHashCommitment;

    type Tag = KeyedHashTag;

    open spec fn commitment_bytes(commitment: KeyedHashCommitment) -> Seq<u8> {
        commitment@
    }

    open spec fn tag_bytes(tag: KeyedHashTag) -> Seq<u8> {
        tag@
    }

    open spec fn commitment_extent(bytes: Seq<u8>) -> Option<nat> {
        extent_32(bytes)
    }

    open spec fn tag_extent(bytes: Seq<u8>) -> Option<nat> {
        extent_32(bytes)
    }

    open spec fn commitment_complaint(bytes: Seq<u8>) -> Option<Seq<char>> {
        if bytes.len() == 32 {
            None
        } else {
            Some(
                "KeyedHashAuthenticator commitment must be 32 bytes, got "@ + decimal(bytes.len()),
            )
        }
    }

    open spec fn tag_complaint(bytes: Seq<u8>) -> Option<Seq<char>> {
        if bytes.len() == 32 {
            None
        } else {
            Some("KeyedHashAuthenticator tag must be 32 bytes, got "@ + decimal(bytes.len()))
        }
    }

    open spec fn commits(&self, pieces: Seq<Seq<u8>>) -> Seq<u8> {
        blake3_hash(joined(pieces))
    }

    open spec fn tags(&self, commitment: Seq<u8>, piece: PieceView) -> Seq<u8> {
        blake3_keyed_hash(self@, commitment + piece.wire())
    }

    open spec fn accepts(&self, commitment: Seq<u8>, piece: PieceView, tag: Seq<u8>) -> bool {
        tag == self.tags(commitment, piece)
    }

    fn commit(&self, original: &OriginalData) -> (commitment: KeyedHashCommitment) {
        KeyedHashCommitment { bytes: keyed_commit(&self.key, original) }
    }

    fn tag(&self, commitment: &KeyedHashCommitment, piece: &CodedPiece) -> (tag: KeyedHashTag) {
        KeyedHashTag { bytes: keyed_tag(&self.key, &commitment.bytes, piece) }
    }

    fn verify(
        &self,
        commitment: &KeyedHashCommitment,
        piece: &CodedPiece,
        tag: &KeyedHashTag,
    ) -> (r: Result<(), String>) {
        if keyed_verify(&self.key, &commitment.bytes, piece, &tag.bytes) {
            Ok(())
        } else {
            Err("authenticator rejected the piece".to_owned())
        }
    }

    fn copy_commitment(commitment: &KeyedHashCommitment) -> (copy: KeyedHashCommitment) {
        *commitment
    }

    fn commitment_width(bytes: &[u8]) -> (r: Option<usize>) {
        if bytes.len() >= 32 {
            Some(32)
        } else {
            None
        }
    }

    fn tag_width(bytes: &[u8]) -> (r: Option<usize>) {
        if bytes.len() >= 32 {
            Some(32)
        } else {
            None
        }
    }

    fn commitment_to_vec(commitment: &KeyedHashCommitment) -> (bytes: Vec<u8>) {
        slice_to_vec(commitment.bytes.as_slice())
    }

    fn commitment_from_bytes(bytes: &[u8]) -> (r: Result<KeyedHashCommitment, Error>) {
        if bytes.len() == 32 {
            Ok(KeyedHashCommitment { bytes: array32(bytes) })
        } else {
            Err(
                Error::PubsubProtocol {
                    reason: with_number(
                        "KeyedHashAuthenticator commitment must be 32 bytes, got ",
                        bytes.len() as u64,
                    ),
                },
            )
        }
    }

    fn tag_to_vec(tag: &KeyedHashTag) -> (bytes: Vec<u8>) {
        slice_to_vec(tag.bytes.as_slice())
    }

    fn tag_from_bytes(bytes: &[u8]) -> (r: Result<KeyedHashTag, Error>) {
        if bytes.len() == 32 {
            Ok(KeyedHashTag { bytes: array32(bytes) })
        } else {
            Err(
                Error::PubsubProtocol {
                    reason: with_number(
                        "KeyedHashAuthenticator tag must be 32 bytes, got ",
                        bytes.len() as u64,
                    ),
                },
            )
        }
    }
}

impl SelfDelimiting for KeyedHashAuthenticator {
    proof fn commitment_survives(commitment: KeyedHashCommitment, rest: Seq<u8>) {
        assert(commitment.bytes@.len() == 32);
    }

    proof fn tag_survives(tag: KeyedHashTag, rest: Seq<u8>) {
        assert(tag.bytes@.len() == 32);
    }
}

/// A piece that a keyed-hash authenticator has tagged is accepted by every
/// authenticator with the same key.
pub proof fn keyed_tags_are_accepted(
    source: KeyedHashAuthenticator,
    verifier: KeyedHashAuthenticator,
    commitment: Seq<u8>,
    piece: PieceView,
)
    requires
        source@ == verifier@,
    ensures
        verifier.accepts(commitment, piece, source.tags(commitment, piece)),
{
}

} // verus!
