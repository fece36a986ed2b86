//! Random linear network coding. Encoding, decoding and recoding are calls into
//! an outside crate; the contracts here say what the rest of the library relies
//! on. A vector over GF(2^8) is its bytes.
use vstd::prelude::*;
use rlnc_cat_rs::auth::{Authenticator, KeyedHashAuthenticator, KeyedHashCommitment, KeyedHashTag};
use rlnc_cat_rs::coding::decode::DecoderState;
use rlnc_cat_rs::coding::encode::encode_with_vector;
use rlnc_cat_rs::coding::piece::{CodedPiece as OuterPiece, CodingVector, OriginalData};
use rlnc_cat_rs::coding::recode::Recoder;
use rlnc_cat_rs::vector::GfVec;
use crate::crypto::{blake3_hash, blake3_keyed_hash};
use crate::text::decimal;

verus! {

// ---------------------------------------------------------- outside types

/// A generation of original data, split into pieces.
#[verifier::external_type_specification]
#[verifier::external_body]
pub struct ExOriginalData(OriginalData);

/// A decoder: a matrix that grows by one row for each piece.
#[verifier::external_type_specification]
#[verifier::external_body]
pub struct ExDecoderState(DecoderState);

/// A recoder: a list of pieces.
#[verifier::external_type_specification]
#[verifier::external_body]
pub struct ExRecoder(Recoder);

/// The pieces of a generation.
pub uninterp spec fn original_pieces(original: OriginalData) -> Seq<Seq<u8>>;

/// The rows of a decoder's matrix: the coefficients of a combination, then its
/// data.
pub uninterp spec fn decoder_rows(decoder: DecoderState) -> Seq<Seq<u8>>;

/// The number of pieces that a decoder needs and the length of each.
pub uninterp spec fn decoder_shape(decoder: DecoderState) -> (nat, nat);

/// The pieces of a recoder: coefficients and data.
pub uninterp spec fn recoder_pieces(recoder: Recoder) -> Seq<(Seq<u8>, Seq<u8>)>;

/// The number of coefficients and the length of the data of a recoder's pieces.
pub uninterp spec fn recoder_shape(recoder: Recoder) -> (nat, nat);

/// The linear combination of vectors over GF(2^8).
pub uninterp spec fn gf_combine(coefficients: Seq<u8>, vectors: Seq<Seq<u8>>) -> Seq<u8>;

/// The reduced row echelon form of a matrix over GF(2^8).
pub uninterp spec fn reduced_rows(rows: Seq<Seq<u8>>) -> Seq<Seq<u8>>;

/// The rank of the first `k` columns of a matrix over GF(2^8).
pub uninterp spec fn coding_rank(rows: Seq<Seq<u8>>, k: nat) -> nat;

// ---------------------------------------------------------------- meaning

/// Byte strings one after the other.
pub open spec fn joined(pieces: Seq<Seq<u8>>) -> Seq<u8>
    decreases pieces.len(),
{
    if pieces.len() == 0 {
        Seq::empty()
    } else {
        joined(pieces.drop_last()) + pieces.last()
    }
}

/// `k` pieces of length `b`.
pub open spec fn shaped(pieces: Seq<Seq<u8>>, k: nat, b: nat) -> bool {
    pieces.len() == k && forall|i: int| 0 <= i < k ==> (#[trigger] pieces[i]).len() == b
}

/// Byte `0x81` stands at `p`, and only zeros after it.
pub open spec fn marker_at(bytes: Seq<u8>, p: int) -> bool {
    0 <= p < bytes.len() && bytes[p] == 0x81 && forall|q: int|
        p < q < bytes.len() ==> bytes[q] == 0
}

/// The data in front of the boundary marker, where there is one.
pub open spec fn unpadded(bytes: Seq<u8>) -> Option<Seq<u8>> {
    if exists|p: int| marker_at(bytes, p) {
        Some(bytes.take(choose|p: int| marker_at(bytes, p)))
    } else {
        None
    }
}

/// Data, a boundary marker and zeros.
pub open spec fn padded(bytes: Seq<u8>, data: Seq<u8>) -> bool {
    data.len() < bytes.len() && bytes.take(data.len() as int) == data && marker_at(
        bytes,
        data.len() as int,
    )
}

/// What is padded is found again.
pub proof fn padding_is_undone(bytes: Seq<u8>, data: Seq<u8>)
    requires
        padded(bytes, data),
    ensures
        unpadded(bytes) == Some(data),
{
    let p = data.len() as int;
    assert(marker_at(bytes, p));
    let q = choose|q: int| marker_at(bytes, q);
    assert(marker_at(bytes, q));
    if p < q {
        assert(bytes[q] == 0);
    } else if q < p {
        assert(bytes[p] == 0);
    }
}

/// Whether a vector depends linearly on the given ones: it is zero, or a
/// combination of them.
pub open spec fn spanned(v: Seq<u8>, vectors: Seq<Seq<u8>>) -> bool {
    v == Seq::new(v.len(), |i: int| 0u8) || exists|c: Seq<u8>|
        0 < c.len() == vectors.len() && #[trigger] gf_combine(c, vectors) == v
}

/// Whether two lists of vectors of length `k` span the same space.
pub open spec fn same_span(a: Seq<Seq<u8>>, b: Seq<Seq<u8>>, k: nat) -> bool {
    forall|v: Seq<u8>| v.len() == k ==> (#[trigger] spanned(v, a) <==> spanned(v, b))
}

/// The coefficients of pieces.
pub open spec fn codings(pieces: Seq<PieceView>) -> Seq<Seq<u8>> {
    pieces.map_values(|p: PieceView| p.coding)
}

/// A coded piece: coefficients, and the combination of the original pieces that
/// they describe.
pub struct PieceView {
    pub coding: Seq<u8>,
    pub data: Seq<u8>,
}

impl PieceView {
    /// The piece on the wire.
    pub open spec fn wire(self) -> Seq<u8> {
        self.coding + self.data
    }

    /// Whether the piece is the combination of the given pieces that it claims
    /// to be.
    pub open spec fn explained_by(self, originals: Seq<Seq<u8>>) -> bool {
        self.data == gf_combine(self.coding, originals)
    }
}

/// The meaning of a decoder.
pub struct DecoderView {
    /// The number of pieces.
    pub k: nat,
    /// The length of a piece.
    pub b: nat,
    pub rows: Seq<Seq<u8>>,
}

/// The meaning of a decoder.
pub open spec fn decoder_view(decoder: DecoderState) -> DecoderView {
    DecoderView {
        k: decoder_shape(decoder).0,
        b: decoder_shape(decoder).1,
        rows: decoder_rows(decoder),
    }
}

/// Why a piece does not fit where `k` coefficients and `b` bytes are wanted, if
/// it does not.
pub open spec fn misfit(piece: PieceView, k: nat, b: nat) -> Option<Seq<char>> {
    if piece.coding.len() != k {
        Some(
            "coding vector length mismatch: expected "@ + decimal(k) + ", got "@ + decimal(
                piece.coding.len(),
            ),
        )
    } else if piece.data.len() != b {
        Some(
            "piece size mismatch: expected "@ + decimal(b) + ", got "@ + decimal(piece.data.len()),
        )
    } else {
        None
    }
}

impl DecoderView {
    /// A decoder without pieces.
    pub open spec fn empty(k: nat, b: nat) -> DecoderView {
        DecoderView { k, b, rows: Seq::empty() }
    }

    /// The number of linearly independent pieces.
    pub open spec fn rank(self) -> nat {
        coding_rank(self.rows, self.k)
    }

    /// The coefficients of the rows.
    pub open spec fn codings(self) -> Seq<Seq<u8>> {
        self.rows.map_values(|row: Seq<u8>| row.take(self.k as int))
    }

    /// Whether the rank tells dependent pieces from independent ones: it grows by
    /// one with a piece that does not depend on the rows, and stays with one that
    /// does.
    pub open spec fn discerning(self) -> bool {
        forall|piece: PieceView| #[trigger]
            misfit(piece, self.k, self.b) is None ==> {
                let next = self.absorbed(piece).rank();
                &&& self.rank() <= next <= self.rank() + 1
                &&& next <= self.k
                &&& next == self.rank() <==> spanned(piece.coding, self.codings())
            }
    }

    /// Whether the data can be decoded.
    pub open spec fn complete(self) -> bool {
        self.rank() >= self.k
    }

    /// The decoder with one more piece.
    pub open spec fn absorbed(self, piece: PieceView) -> DecoderView {
        DecoderView { rows: reduced_rows(self.rows.push(piece.wire())), ..self }
    }

    /// Whether every row is the combination of the given pieces that it claims
    /// to be.
    pub open spec fn explained_by(self, originals: Seq<Seq<u8>>) -> bool {
        forall|i: int|
            0 <= i < self.rows.len() ==> (#[trigger] self.rows[i]).len() == self.k + self.b
                && self.rows[i].skip(self.k as int) == gf_combine(
                self.rows[i].take(self.k as int),
                originals,
            )
    }

    /// The data of the first `k` rows.
    pub open spec fn solution(self) -> Seq<Seq<u8>> {
        self.rows.take(self.k as int).map_values(|row: Seq<u8>| row.skip(self.k as int))
    }

    /// What the decoder decodes to, or why it does not.
    pub open spec fn decoded(self) -> Result<Seq<u8>, Seq<char>> {
        if !self.complete() {
            Err(
                "insufficient pieces: need "@ + decimal(self.k) + ", received "@ + decimal(
                    self.rank(),
                ),
            )
        } else {
            match unpadded(joined(self.solution())) {
                Some(data) => Ok(data),
                None => Err("boundary marker not found or padding is invalid"@),
            }
        }
    }
}

/// The meaning of a recoder.
pub struct RecoderView {
    pub k: nat,
    pub b: nat,
    pub pieces: Seq<PieceView>,
}

/// The meaning of a recoder.
pub open spec fn recoder_view(recoder: Recoder) -> RecoderView {
    RecoderView {
        k: recoder_shape(recoder).0,
        b: recoder_shape(recoder).1,
        pieces: recoder_pieces(recoder).map_values(
            |p: (Seq<u8>, Seq<u8>)| PieceView { coding: p.0, data: p.1 },
        ),
    }
}

impl RecoderView {
    /// A recoder without pieces.
    pub open spec fn empty(k: nat, b: nat) -> RecoderView {
        RecoderView { k, b, pieces: Seq::empty() }
    }

    /// The recoder with one more piece.
    pub open spec fn added(self, piece: PieceView) -> RecoderView {
        RecoderView { pieces: self.pieces.push(piece), ..self }
    }

    /// The combination of the stored pieces.
    pub open spec fn combined(self, coefficients: Seq<u8>) -> PieceView {
        PieceView {
            coding: gf_combine(coefficients, self.pieces.map_values(|p: PieceView| p.coding)),
            data: gf_combine(coefficients, self.pieces.map_values(|p: PieceView| p.data)),
        }
    }

    /// Whether every stored piece is the combination of the given pieces that it
    /// claims to be.
    pub open spec fn explained_by(self, originals: Seq<Seq<u8>>) -> bool {
        forall|i: int|
            0 <= i < self.pieces.len() ==> (#[trigger] self.pieces[i]).explained_by(originals)
    }

    /// Why the stored pieces cannot be combined, if they cannot.
    pub open spec fn recode_error(self, coefficients: Seq<u8>) -> Option<Seq<char>> {
        if self.pieces.len() == 0 {
            Some("insufficient pieces: need 1, received 0"@)
        } else if coefficients.len() != self.pieces.len() {
            Some(
                "dimension mismatch: expected "@ + decimal(coefficients.len()) + ", got "@
                    + decimal(self.pieces.len()),
            )
        } else {
            None
        }
    }
}

/// A coded piece.
#[derive(Debug, PartialEq, Eq)]
pub struct CodedPiece {
    pub coding_vector: Vec<u8>,
    pub data: Vec<u8>,
}

impl View for CodedPiece {
    type V = PieceView;

    open spec fn view(&self) -> PieceView {
        PieceView { coding: self.coding_vector@, data: self.data@ }
    }
}

// ---------------------------------------------------------- outside calls

/// Calls `OriginalData::piece_count` and `OriginalData::piece_byte_len`. A
/// generation has at least one piece, and its pieces are equally long.
#[verifier::external_body]
pub(crate) fn original_shape(original: &OriginalData) -> (r: (usize, usize))
    ensures
        shaped(original_pieces(*original), r.0 as nat, r.1 as nat),
        r.0 >= 1,
{
    (original.piece_count(), original.piece_byte_len())
}

/// Calls [`encode_with_vector`]. A vector with one coefficient for each piece
/// gives their combination; any other is refused.
#[verifier::external_body]
pub(crate) fn encode_piece(original: &OriginalData, coefficients: &Vec<u8>) -> (r: Result<
    CodedPiece,
    String,
>)
    ensures
        match r {
            Ok(piece) => {
                &&& coefficients@.len() == original_pieces(*original).len()
                &&& piece@.coding == coefficients@
                &&& piece@.data == gf_combine(coefficients@, original_pieces(*original))
                &&& piece@.data.len() == original_pieces(*original)[0].len()
            },
            Err(e) => coefficients@.len() != original_pieces(*original).len() && e@
                == "coding vector length mismatch: expected "@ + decimal(
                original_pieces(*original).len(),
            ) + ", got "@ + decimal(coefficients@.len()),
        },
{
    encode_with_vector(original, CodingVector::from_bytes(coefficients))
        .map(|p| CodedPiece {
            coding_vector: p.coding_vector().as_vec().to_bytes(),
            data: p.data().to_bytes(),
        })
        .map_err(|e| e.to_string())
}

/// Calls `DecoderState::new`: an empty decoder of the given shape, whose rank is
/// zero and grows with every piece that has a coefficient.
#[verifier::external_body]
pub(crate) fn new_decoder(k: usize, b: usize) -> (decoder: DecoderState)
    requires
        k + b <= usize::MAX,
    ensures
        decoder_shape(decoder) == (k as nat, b as nat),
        decoder_rows(decoder) == Seq::<Seq<u8>>::empty(),
        coding_rank(decoder_rows(decoder), k as nat) == 0,
        decoder_view(decoder).discerning(),
{
    DecoderState::new(k, b)
}

/// Calls `DecoderState::absorb` on a copy. A piece that fits becomes a row of
/// the matrix, which is reduced again. The rank is that of the coefficients: it
/// stays where the piece depends on the rows, and otherwise grows by one; the
/// same holds of the next piece. It is never larger than the number of pieces.
/// The rows span what they spanned before and the new coefficients. Rows that
/// are combinations of some original pieces stay so when a combination of the
/// same pieces is added.
#[verifier::external_body]
pub(crate) fn absorb_piece(decoder: &DecoderState, piece: &CodedPiece) -> (r: Result<
    DecoderState,
    String,
>)
    ensures
        match r {
            Ok(next) => {
                let before = decoder_view(*decoder);
                let after = decoder_view(next);
                &&& misfit(piece@, before.k, before.b) is None
                &&& decoder_shape(next) == decoder_shape(*decoder)
                &&& decoder_rows(next) == reduced_rows(
                    decoder_rows(*decoder).push(piece@.wire()),
                )
                &&& before.rank() <= after.rank() <= before.rank() + 1
                &&& after.rank() <= after.k
                &&& after.rank() == before.rank() <==> spanned(piece@.coding, before.codings())
                &&& after.discerning()
                &&& spanned(piece@.coding, after.codings())
                &&& forall|v: Seq<u8>|
                    v.len() == before.k && #[trigger] spanned(v, before.codings()) ==> spanned(
                        v,
                        after.codings(),
                    )
                &&& forall|vectors: Seq<Seq<u8>>|
                    (forall|i: int|
                        0 <= i < vectors.len() ==> (#[trigger] vectors[i]).len() == before.k)
                        && #[trigger] same_span(vectors, before.codings(), before.k) ==> same_span(
                        vectors.push(piece@.coding),
                        after.codings(),
                        before.k,
                    )
                &&& forall|originals: Seq<Seq<u8>>|
                    shaped(originals, before.k, before.b) && #[trigger] before.explained_by(
                        originals,
                    ) && piece@.explained_by(originals) ==> after.explained_by(originals)
            },
            Err(e) => misfit(
                piece@,
                decoder_view(*decoder).k,
                decoder_view(*decoder).b,
            ) == Some(e@),
        },
{
    let vector = CodingVector::from_bytes(&piece.coding_vector);
    let outer = OuterPiece::new(vector, GfVec::from_bytes(&piece.data));
    decoder.clone().absorb(&outer).map_err(|e| e.to_string())
}

/// Calls `DecoderState::useful_count`: the rank.
#[verifier::external_body]
pub(crate) fn useful_count(decoder: &DecoderState) -> (n: usize)
    ensures
        n == decoder_view(*decoder).rank(),
{
    decoder.useful_count()
}

/// Calls `DecoderState::is_complete`: whether the rank reaches the number of
/// pieces.
#[verifier::external_body]
pub(crate) fn is_complete(decoder: &DecoderState) -> (r: bool)
    ensures
        r == decoder_view(*decoder).complete(),
{
    decoder.is_complete()
}

/// Calls `DecoderState::decode`: the data of the first rows, up to the boundary
/// marker. Where all rows are combinations of some original pieces and the
/// decoder is complete, that is the data of the original pieces.
#[verifier::external_body]
pub(crate) fn decode_data(decoder: DecoderState) -> (r: Result<Vec<u8>, String>)
    ensures
        match r {
            Ok(data) => decoder_view(decoder).decoded() == Ok::<Seq<u8>, Seq<char>>(data@),
            Err(e) => decoder_view(decoder).decoded() == Err::<Seq<u8>, Seq<char>>(e@),
        },
        forall|originals: Seq<Seq<u8>>|
            decoder_view(decoder).complete() && shaped(
                originals,
                decoder_view(decoder).k,
                decoder_view(decoder).b,
            ) && #[trigger] decoder_view(decoder).explained_by(originals) ==> match unpadded(
                joined(originals),
            ) {
                Some(data) => r matches Ok(d) && d@ == data,
                None => r is Err,
            },
{
    decoder.decode().map_err(|e| e.to_string())
}

/// Calls `Recoder::new`: an empty recoder of the given shape.
#[verifier::external_body]
pub(crate) fn new_recoder(k: usize, b: usize) -> (recoder: Recoder)
    ensures
        recoder_shape(recoder) == (k as nat, b as nat),
        recoder_pieces(recoder) == Seq::<(Seq<u8>, Seq<u8>)>::empty(),
{
    Recoder::new(k, b)
}

/// Calls `Recoder::add_piece` on a copy: a piece that fits is stored last.
#[verifier::external_body]
pub(crate) fn add_piece(recoder: &Recoder, piece: &CodedPiece) -> (r: Result<Recoder, String>)
    ensures
        match r {
            Ok(next) => {
                &&& misfit(piece@, recoder_view(*recoder).k, recoder_view(*recoder).b) is None
                &&& recoder_shape(next) == recoder_shape(*recoder)
                &&& recoder_pieces(next) == recoder_pieces(*recoder).push(
                    (piece@.coding, piece@.data),
                )
            },
            Err(e) => misfit(
                piece@,
                recoder_view(*recoder).k,
                recoder_view(*recoder).b,
            ) == Some(e@),
        },
{
    let vector = CodingVector::from_bytes(&piece.coding_vector);
    let outer = OuterPiece::new(vector, GfVec::from_bytes(&piece.data));
    recoder.clone().add_piece(&outer).map_err(|e| e.to_string())
}

/// Calls `Recoder::stored_count`: the number of stored pieces.
#[verifier::external_body]
pub(crate) fn stored_count(recoder: &Recoder) -> (n: usize)
    ensures
        n == recoder_view(*recoder).pieces.len(),
{
    recoder.stored_count()
}

/// Calls `Recoder::recode_one` with the given coefficients: the combination of
/// the stored pieces, of the same shape. A combination of combinations of some
/// original pieces is one of these pieces too.
#[verifier::external_body]
pub(crate) fn recode(recoder: &Recoder, coefficients: &Vec<u8>) -> (r: Result<CodedPiece, String>)
    ensures
        match r {
            Ok(piece) => {
                let view = recoder_view(*recoder);
                &&& view.recode_error(coefficients@) is None
                &&& piece@ == view.combined(coefficients@)
                &&& misfit(piece@, view.k, view.b) is None
                &&& forall|originals: Seq<Seq<u8>>|
                    shaped(originals, view.k, view.b) && #[trigger] view.explained_by(originals)
                        ==> piece@.explained_by(originals)
            },
            Err(e) => recoder_view(*recoder).recode_error(coefficients@) == Some(e@),
        },
{
    let bytes = coefficients.clone();
    recoder
        .recode_one(move |_| Ok(bytes))
        .run()
        .map(|p| CodedPiece {
            coding_vector: p.coding_vector().as_vec().to_bytes(),
            data: p.data().to_bytes(),
        })
        .map_err(|e| e.to_string())
}

/// Calls `KeyedHashAuthenticator::commit`: the BLAKE3 hash of the pieces.
#[verifier::external_body]
pub(crate) fn keyed_commit(key: &[u8; 32], original: &OriginalData) -> (commitment: [u8; 32])
    ensures
        commitment@ == blake3_hash(joined(original_pieces(*original))),
{
    *KeyedHashAuthenticator::new(*key).commit(original).as_bytes()
}

/// Calls `KeyedHashAuthenticator::tag`: the BLAKE3 keyed hash of commitment,
/// coefficients and data.
#[verifier::external_body]
pub(crate) fn keyed_tag(key: &[u8; 32], commitment: &[u8; 32], piece: &CodedPiece) -> (tag: [u8; 32])
    ensures
        tag@ == blake3_keyed_hash(key@, commitment@ + piece@.wire()),
{
    let vector = CodingVector::from_bytes(&piece.coding_vector);
    let outer = OuterPiece::new(vector, GfVec::from_bytes(&piece.data));
    let commitment = KeyedHashCommitment::from(*commitment);
    *KeyedHashAuthenticator::new(*key).tag(&commitment, &outer).as_bytes()
}

/// Calls `KeyedHashAuthenticator::verify`: whether the tag is the one that the
/// key gives.
#[verifier::external_body]
pub(crate) fn keyed_verify(
    key: &[u8; 32],
    commitment: &[u8; 32],
    piece: &CodedPiece,
    tag: &[u8; 32],
) -> (ok: bool)
    ensures
        ok == (tag@ == blake3_keyed_hash(key@, commitment@ + piece@.wire())),
{
    let vector = CodingVector::from_bytes(&piece.coding_vector);
    let outer = OuterPiece::new(vector, GfVec::from_bytes(&piece.data));
    let commitment = KeyedHashCommitment::from(*commitment);
    let tag = KeyedHashTag::from(*tag);
    KeyedHashAuthenticator::new(*key).verify(&commitment, &outer, &tag).is_ok()
}

} // verus!
