//! A static key signed by an identity, the trailer of a handshake.
use vstd::prelude::*;
use vstd::string::StringExecFns;
use crate::bytes::concat;
use crate::crypto::{
    ed25519_is_neutral, ed25519_public, ed25519_signature, ed25519_verify, ed25519_verify_error,
};
use crate::error::{Error, ErrorView};
use crate::identity::keypair::{
    point_complaint, Ed25519Keypair, Ed25519PublicKey, Ed25519Signature, DOMAIN_TAG,
};
use crate::noise::primitives::StaticPublicKey;
use crate::peer_id::{peer_id_bytes, PeerId};
use crate::text::{decimal, with_number};

verus! {

/// What is signed for a static key.
pub open spec fn signed_input_of(static_pub: Seq<u8>) -> Seq<u8> {
    DOMAIN_TAG@ + static_pub
}

/// The bytes that are signed for a static key.
fn signed_input(static_pub: &StaticPublicKey) -> (input: Vec<u8>)
    ensures
        input@ == signed_input_of(static_pub@),
{
    let tag = DOMAIN_TAG;
    concat(tag.as_slice(), static_pub.as_bytes().as_slice())
}

/// The meaning of a binding: an Ed25519 public key and a signature.
pub struct SignedStaticKeyView {
    pub public_key: Seq<u8>,
    pub signature: Seq<u8>,
}

impl SignedStaticKeyView {
    /// The 96 bytes of the binding on the wire.
    pub open spec fn wire(self) -> Seq<u8> {
        self.public_key + self.signature
    }

    /// What 96 wire bytes say.
    pub open spec fn parse(bytes: Seq<u8>) -> Result<SignedStaticKeyView, ErrorView> {
        if bytes.len() == 96 {
            Ok(
                SignedStaticKeyView {
                    public_key: bytes.subrange(0, 32),
                    signature: bytes.subrange(32, 96),
                },
            )
        } else {
            Err(
                ErrorView::IdentityVerify(
                    "SignedStaticKey wire payload needs 96 bytes, got "@ + decimal(bytes.len()),
                ),
            )
        }
    }

    /// Why the binding does not hold for a static key, if it does not.
    pub open spec fn verify_error(self, static_pub: Seq<u8>) -> Option<ErrorView> {
        match point_complaint(self.public_key) {
            Some(e) => Some(e),
            None => match ed25519_verify_error(
                self.public_key,
                signed_input_of(static_pub),
                self.signature,
            ) {
                Some(e) => Some(
                    ErrorView::IdentityVerify("ed25519 signature did not verify: "@ + e),
                ),
                None => None,
            },
        }
    }

    /// The binding of an identity to a static key.
    pub open spec fn of(seed: Seq<u8>, static_pub: Seq<u8>) -> SignedStaticKeyView {
        SignedStaticKeyView {
            public_key: ed25519_public(seed),
            signature: ed25519_signature(seed, signed_input_of(static_pub)),
        }
    }
}

/// A binding survives the wire.
pub proof fn wire_round_trip(binding: SignedStaticKeyView)
    requires
        binding.public_key.len() == 32,
        binding.signature.len() == 64,
    ensures
        binding.wire().len() == 96,
        SignedStaticKeyView::parse(binding.wire()) == Ok::<SignedStaticKeyView, ErrorView>(binding),
{
    assert(binding.wire().subrange(0, 32) =~= binding.public_key);
    assert(binding.wire().subrange(32, 96) =~= binding.signature);
}

/// An Ed25519 identity's consent to the use of a Noise static key.
#[derive(Clone, Copy, Debug, PartialEq, Eq)]
pub struct SignedStaticKey {
    public_key: Ed25519PublicKey,
    signature: Ed25519Signature,
}

impl View for SignedStaticKey {
    type V = SignedStaticKeyView;

    closed spec fn view(&self) -> SignedStaticKeyView {
        SignedStaticKeyView { public_key: self.public_key@, signature: self.signature@ }
    }
}

impl SignedStaticKey {
    /// Length on the wire: 32 bytes of key and 64 of signature.
    pub const WIRE_LEN: usize = 96;

    /// Binds `static_pub` to the identity `keypair`. The binding verifies
    /// unless the signature starts with the neutral element of the curve.
    pub fn create(keypair: &Ed25519Keypair, static_pub: &StaticPublicKey) -> (r: Result<
        Self,
        Error,
    >)
        ensures
            r matches Ok(signed) && signed@ == SignedStaticKeyView::of(keypair@, static_pub@) && (
            !ed25519_is_neutral(signed@.signature.take(32)) ==> signed@.verify_error(static_pub@)
                is None),
    {
        let input = signed_input(static_pub);
        match keypair.try_sign(input.as_slice()) {
            Ok(signature) => Ok(SignedStaticKey { public_key: *keypair.public(), signature }),
            Err(e) => Err(e),
        }
    }

    /// The asserted public key; to be trusted only once the binding verifies.
    pub fn public_key(&self) -> (key: &Ed25519PublicKey)
        ensures
            key@ == self@.public_key,
    {
        &self.public_key
    }

    /// The signature.
    pub fn signature(&self) -> (signature: &Ed25519Signature)
        ensures
            signature@ == self@.signature,
    {
        &self.signature
    }

    /// Checks the binding against a static key and hands out the identity and
    /// its peer identifier.
    pub fn verify(&self, static_pub: &StaticPublicKey) -> (r: Result<
        (Ed25519PublicKey, PeerId),
        Error,
    >)
        ensures
            match r {
                Ok((key, id)) => self@.verify_error(static_pub@) is None && key@
                    == self@.public_key && id@ == peer_id_bytes(self@.public_key),
                Err(e) => self@.verify_error(static_pub@) == Some(e@),
            },
    {
        match self.public_key.verifying_key() {
            Ok(()) => {},
            Err(e) => {
                return Err(e);
            },
        }
        let input = signed_input(static_pub);
        match ed25519_verify(
            self.public_key.as_bytes(),
            input.as_slice(),
            self.signature.as_bytes(),
        ) {
            Ok(()) => Ok((self.public_key, self.public_key.peer_id())),
            Err(e) => Err(
                Error::IdentityVerify {
                    reason: "ed25519 signature did not verify: ".to_owned().concat(e.as_str()),
                },
            ),
        }
    }

    /// The wire bytes of the binding.
    pub fn to_bytes(&self) -> (bytes: [u8; 96])
        ensures
            bytes@ == self@.wire(),
    {
        let mut bytes: [u8; 96] = [0u8; 96];
        let pk = self.public_key.as_bytes();
        let sig = self.signature.as_bytes();
        let mut i: usize = 0;
        while i < 96
            invariant
                i <= 96,
                pk@ == self@.public_key,
                sig@ == self@.signature,
                forall|j: int| 0 <= j < i ==> bytes@[j] == self@.wire()[j],
            decreases 96 - i,
        {
            bytes[i] = if i < 32 { pk[i] } else { sig[i - 32] };
            i = i + 1;
        }
        assert(bytes@ =~= self@.wire());
        bytes
    }

    /// Reads a binding from the wire. Any other length than
    /// [`SignedStaticKey::WIRE_LEN`] is refused; key and signature are not
    /// checked here.
    pub fn from_bytes(bytes: &[u8]) -> (r: Result<Self, Error>)
        ensures
            match r {
                Ok(signed) => SignedStaticKeyView::parse(bytes@) == Ok::<
                    SignedStaticKeyView,
                    ErrorView,
                >(signed@),
                Err(e) => SignedStaticKeyView::parse(bytes@) == Err::<
                    SignedStaticKeyView,
                    ErrorView,
                >(e@),
            },
    {
        if bytes.len() != 96 {
            return Err(
                Error::IdentityVerify {
                    reason: with_number(
                        "SignedStaticKey wire payload needs 96 bytes, got ",
                        bytes.len() as u64,
                    ),
                },
            );
        }
        let mut pk: [u8; 32] = [0u8; 32];
        let mut sig: [u8; 64] = [0u8; 64];
        let mut i: usize = 0;
        while i < 96
            invariant
                i <= 96,
                bytes@.len() == 96,
                forall|j: int| 0 <= j < i && j < 32 ==> pk@[j] == bytes@[j],
                forall|j: int| 0 <= j < i - 32 ==> sig@[j] == bytes@[j + 32],
            decreases 96 - i,
        {
            if i < 32 {
                pk[i] = bytes[i];
            } else {
                sig[i - 32] = bytes[i];
            }
            i = i + 1;
        }
        assert(pk@ =~= bytes@.subrange(0, 32));
        assert(sig@ =~= bytes@.subrange(32, 96));
        Ok(
            SignedStaticKey {
                public_key: Ed25519PublicKey::from_bytes(pk),
                signature: Ed25519Signature::from_bytes(sig),
            },
        )
    }
}

} // verus!
