//! The Noise symmetric state over keyed BLAKE3 and ChaCha20-Poly1305.
use vstd::prelude::*;
use vstd::slice::slice_to_vec;
use crate::bytes::{be_bytes, concat, lemma_be_bytes_len};
use crate::crypto::{
    aead_open, aead_seal, blake3_hash, blake3_keyed_xof64, hash, keyed_xof64, open, seal,
    AEAD_PLAINTEXT_LIMIT, AEAD_TAG_LEN,
};
use crate::error::{Error, ErrorView};
use crate::noise::primitives::DhOutput;

verus! {

/// `Noise_XX_25519_ChaChaPoly_BLAKE3`, the first chaining key and hash.
pub const PROTOCOL_NAME: [u8; 32] = [
    0x4e, 0x6f, 0x69, 0x73, 0x65, 0x5f, 0x58, 0x58, 0x5f, 0x32, 0x35, 0x35, 0x31, 0x39, 0x5f, 0x43,
    0x68, 0x61, 0x43, 0x68, 0x61, 0x50, 0x6f, 0x6c, 0x79, 0x5f, 0x42, 0x4c, 0x41, 0x4b, 0x45, 0x33,
];

/// The AEAD nonce of a counter: four zero bytes, then the counter with its
/// least significant byte first.
pub open spec fn nonce_bytes(counter: nat) -> Seq<u8> {
    seq![0u8, 0u8, 0u8, 0u8] + be_bytes(counter, 8).reverse()
}

/// The two keys that keyed BLAKE3 derives from an input.
pub open spec fn derived_keys(key: Seq<u8>, input: Seq<u8>) -> (Seq<u8>, Seq<u8>) {
    let out = blake3_keyed_xof64(key, input);
    (out.subrange(0, 32), out.subrange(32, 64))
}

/// The ciphertext of a message under a counter.
pub open spec fn sealed(key: Seq<u8>, counter: nat, aad: Seq<u8>, plaintext: Seq<u8>) -> Seq<u8> {
    aead_seal(key, nonce_bytes(counter), aad, plaintext)
}

/// What a ciphertext opens to under a counter; one that is too long opens to
/// nothing.
pub open spec fn opened(key: Seq<u8>, counter: nat, aad: Seq<u8>, ciphertext: Seq<u8>) -> Option<
    Seq<u8>,
> {
    if ciphertext.len() < AEAD_PLAINTEXT_LIMIT + AEAD_TAG_LEN {
        aead_open(key, nonce_bytes(counter), aad, ciphertext)
    } else {
        None
    }
}

/// The meaning of a symmetric state.
pub struct SymmetricView {
    pub chaining_key: Seq<u8>,
    pub hash: Seq<u8>,
    pub cipher_key: Option<Seq<u8>>,
    pub nonce: nat,
}

impl SymmetricView {
    /// The state before the first message.
    pub open spec fn initial() -> SymmetricView {
        SymmetricView {
            chaining_key: PROTOCOL_NAME@,
            hash: PROTOCOL_NAME@,
            cipher_key: None,
            nonce: 0,
        }
    }

    /// Absorbs data into the running hash.
    pub open spec fn mix_hash(self, data: Seq<u8>) -> SymmetricView {
        SymmetricView { hash: blake3_hash(self.hash + data), ..self }
    }

    /// Absorbs a secret into the chaining key and starts a fresh cipher key.
    pub open spec fn mix_key(self, input: Seq<u8>) -> SymmetricView {
        let (chaining_key, cipher_key) = derived_keys(self.chaining_key, input);
        SymmetricView { chaining_key, cipher_key: Some(cipher_key), nonce: 0, ..self }
    }

    /// The bytes that stand for a plaintext on the wire.
    pub open spec fn ciphertext(self, plaintext: Seq<u8>) -> Seq<u8> {
        match self.cipher_key {
            None => plaintext,
            Some(key) => sealed(key, self.nonce, self.hash, plaintext),
        }
    }

    /// The plaintext that wire bytes stand for, where they authenticate.
    pub open spec fn plaintext(self, ciphertext: Seq<u8>) -> Option<Seq<u8>> {
        match self.cipher_key {
            None => Some(ciphertext),
            Some(key) => opened(key, self.nonce, self.hash, ciphertext),
        }
    }

    /// The state after a ciphertext went out or came in.
    pub open spec fn after(self, ciphertext: Seq<u8>) -> SymmetricView {
        match self.cipher_key {
            None => self.mix_hash(ciphertext),
            Some(_) => SymmetricView { nonce: self.nonce + 1, ..self }.mix_hash(ciphertext),
        }
    }

    /// The transport keys: from the initiator, and to it.
    pub open spec fn split(self) -> (Seq<u8>, Seq<u8>) {
        derived_keys(self.chaining_key, Seq::empty())
    }
}

/// Chaining key, running hash and current cipher key of a handshake.
pub struct SymmetricState {
    pub(crate) chaining_key: [u8; 32],
    pub(crate) hash: [u8; 32],
    pub(crate) cipher_key: Option<[u8; 32]>,
    pub(crate) nonce: u64,
}

impl View for SymmetricState {
    type V = SymmetricView;

    closed spec fn view(&self) -> SymmetricView {
        SymmetricView {
            chaining_key: self.chaining_key@,
            hash: self.hash@,
            cipher_key: match self.cipher_key {
                Some(key) => Some(key@),
                None => None,
            },
            nonce: self.nonce as nat,
        }
    }
}

impl Clone for SymmetricState {
    fn clone(&self) -> (copy: Self)
        ensures
            copy == *self,
    {
        SymmetricState {
            chaining_key: self.chaining_key,
            hash: self.hash,
            cipher_key: self.cipher_key,
            nonce: self.nonce,
        }
    }
}

impl SymmetricState {
    /// The state before the first message.
    pub fn initialize() -> (state: Self)
        ensures
            state@ == SymmetricView::initial(),
    {
        let state = SymmetricState {
            chaining_key: PROTOCOL_NAME,
            hash: PROTOCOL_NAME,
            cipher_key: None,
            nonce: 0,
        };
        state
    }

    /// Absorbs `data` into the running hash.
    pub fn mix_hash(self, data: &[u8]) -> (next: Self)
        ensures
            next@ == self@.mix_hash(data@),
    {
        let input = concat(self.hash.as_slice(), data);
        let next = SymmetricState { hash: hash(input.as_slice()), ..self };
        next
    }

    /// Absorbs a Diffie-Hellman output and starts a fresh cipher key.
    pub fn mix_key(self, input: &DhOutput) -> (next: Self)
        ensures
            next@ == self@.mix_key(input@),
    {
        let (chaining_key, cipher_key) = kdf_two(&self.chaining_key, input.as_bytes().as_slice());
        SymmetricState { chaining_key, cipher_key: Some(cipher_key), nonce: 0, hash: self.hash }
    }

    /// Encrypts `plaintext` (or passes it through before the first key) and
    /// absorbs the ciphertext. Fails only on a message too long to encrypt.
    pub fn encrypt_and_hash(self, plaintext: &[u8]) -> (r: Result<(Self, Vec<u8>), Error>)
        requires
            self@.nonce < u64::MAX,
        ensures
            match r {
                Ok((next, ciphertext)) => {
                    &&& self@.cipher_key is Some ==> plaintext@.len() < AEAD_PLAINTEXT_LIMIT
                    &&& ciphertext@ == self@.ciphertext(plaintext@)
                    &&& next@ == self@.after(ciphertext@)
                    &&& self@.plaintext(ciphertext@) == Some(plaintext@)
                    &&& ciphertext@.len() == plaintext@.len() + if self@.cipher_key is Some {
                        AEAD_TAG_LEN as int
                    } else {
                        0
                    }
                },
                Err(e) => e@ == ErrorView::NoiseDecrypt && self@.cipher_key is Some
                    && plaintext@.len() >= AEAD_PLAINTEXT_LIMIT,
            },
    {
        match self.cipher_key {
            None => {
                let ciphertext = slice_to_vec(plaintext);
                let next = self.mix_hash(ciphertext.as_slice());
                Ok((next, ciphertext))
            },
            Some(key) => {
                match aead_encrypt(&key, self.nonce, self.hash.as_slice(), plaintext) {
                    Ok(ciphertext) => {
                        let stepped = SymmetricState { nonce: self.nonce + 1, ..self };
                        let next = stepped.mix_hash(ciphertext.as_slice());
                        Ok((next, ciphertext))
                    },
                    Err(e) => Err(e),
                }
            },
        }
    }

    /// Decrypts `ciphertext` (or passes it through before the first key) and
    /// absorbs it. Fails exactly when it does not authenticate.
    pub fn decrypt_and_hash(self, ciphertext: &[u8]) -> (r: Result<(Self, Vec<u8>), Error>)
        requires
            self@.nonce < u64::MAX,
        ensures
            match r {
                Ok((next, plaintext)) => {
                    &&& self@.plaintext(ciphertext@) == Some(plaintext@)
                    &&& next@ == self@.after(ciphertext@)
                    &&& ciphertext@.len() == plaintext@.len() + if self@.cipher_key is Some {
                        AEAD_TAG_LEN as int
                    } else {
                        0
                    }
                },
                Err(e) => e@ == ErrorView::NoiseDecrypt && self@.plaintext(ciphertext@) is None,
            },
    {
        match self.cipher_key {
            None => {
                let plaintext = slice_to_vec(ciphertext);
                let next = self.mix_hash(ciphertext);
                Ok((next, plaintext))
            },
            Some(key) => {
                match aead_decrypt(&key, self.nonce, self.hash.as_slice(), ciphertext) {
                    Ok(plaintext) => {
                        let stepped = SymmetricState { nonce: self.nonce + 1, ..self };
                        let next = stepped.mix_hash(ciphertext);
                        Ok((next, plaintext))
                    },
                    Err(e) => Err(e),
                }
            },
        }
    }

    /// The two transport keys: from the initiator, and to it.
    pub fn split(self) -> (keys: ([u8; 32], [u8; 32]))
        ensures
            (keys.0@, keys.1@) == self@.split(),
    {
        let empty: [u8; 0] = [];
        let keys = kdf_two(&self.chaining_key, empty.as_slice());
        assert(empty@ =~= Seq::<u8>::empty());
        keys
    }
}

/// Derives two keys from `input` under `key`.
pub fn kdf_two(key: &[u8; 32], input: &[u8]) -> (keys: ([u8; 32], [u8; 32]))
    ensures
        (keys.0@, keys.1@) == derived_keys(key@, input@),
{
    let out = keyed_xof64(key, input);
    let mut first: [u8; 32] = [0u8; 32];
    let mut second: [u8; 32] = [0u8; 32];
    let mut i: usize = 0;
    while i < 32
        invariant
            i <= 32,
            forall|j: int| 0 <= j < i ==> first@[j] == out@[j] && second@[j] == out@[j + 32],
        decreases 32 - i,
    {
        first[i] = out[i];
        second[i] = out[i + 32];
        i = i + 1;
    }
    assert(first@ =~= out@.subrange(0, 32));
    assert(second@ =~= out@.subrange(32, 64));
    (first, second)
}

/// The AEAD nonce of a counter.
fn chacha_nonce(counter: u64) -> (nonce: [u8; 12])
    ensures
        nonce@ == nonce_bytes(counter as nat),
{
    let mut nonce: [u8; 12] = [0u8; 12];
    let mut rest: u64 = counter;
    let mut i: usize = 4;
    let ghost all = be_bytes(counter as nat, 8);
    proof {
        lemma_be_bytes_len(counter as nat, 8);
        assert(all.subrange(0, 8) =~= all);
    }
    while i < 12
        invariant
            4 <= i <= 12,
            all == be_bytes(counter as nat, 8),
            all.len() == 8,
            be_bytes(rest as nat, (12 - i) as nat) == all.subrange(0, 12 - i),
            forall|j: int| 0 <= j < 4 ==> nonce@[j] == 0,
            forall|j: int| 4 <= j < i ==> nonce@[j] == all[11 - j],
        decreases 12 - i,
    {
        proof {
            let whole = be_bytes(rest as nat, (12 - i) as nat);
            let head = be_bytes((rest / 256) as nat, (11 - i) as nat);
            lemma_be_bytes_len((rest / 256) as nat, (11 - i) as nat);
            assert(whole == head.push((rest as nat % 256) as u8));
            assert(whole.last() == all[11 - i]);
            assert(head =~= all.subrange(0, 11 - i)) by {
                assert forall|k: int| 0 <= k < head.len() implies head[k] == all[k] by {
                    assert(whole[k] == all.subrange(0, 12 - i)[k]);
                }
            }
        }
        nonce[i] = (rest % 256) as u8;
        rest = rest / 256;
        i = i + 1;
    }
    assert(nonce@ =~= nonce_bytes(counter as nat));
    nonce
}

/// Encrypts and authenticates `plaintext` under `key` and a counter. Fails
/// exactly on a message too long to encrypt.
pub fn aead_encrypt(key: &[u8; 32], nonce: u64, aad: &[u8], plaintext: &[u8]) -> (r: Result<
    Vec<u8>,
    Error,
>)
    ensures
        match r {
            Ok(c) => {
                &&& plaintext@.len() < AEAD_PLAINTEXT_LIMIT
                &&& c@ == sealed(key@, nonce as nat, aad@, plaintext@)
                &&& c@.len() == plaintext@.len() + AEAD_TAG_LEN
                &&& opened(key@, nonce as nat, aad@, c@) == Some(plaintext@)
            },
            Err(e) => e@ == ErrorView::NoiseDecrypt && plaintext@.len() >= AEAD_PLAINTEXT_LIMIT,
        },
{
    if plaintext.len() as u64 >= AEAD_PLAINTEXT_LIMIT {
        return Err(Error::NoiseDecrypt);
    }
    match seal(key, &chacha_nonce(nonce), aad, plaintext) {
        Ok(c) => Ok(c),
        Err(()) => Err(Error::NoiseDecrypt),
    }
}

/// Checks and decrypts `ciphertext` under `key` and a counter.
pub fn aead_decrypt(key: &[u8; 32], nonce: u64, aad: &[u8], ciphertext: &[u8]) -> (r: Result<
    Vec<u8>,
    Error,
>)
    ensures
        match r {
            Ok(p) => opened(key@, nonce as nat, aad@, ciphertext@) == Some(p@)
                && ciphertext@.len() == p@.len() + AEAD_TAG_LEN,
            Err(e) => e@ == ErrorView::NoiseDecrypt && opened(
                key@,
                nonce as nat,
                aad@,
                ciphertext@,
            ) is None,
        },
{
    if ciphertext.len() as u64 >= AEAD_PLAINTEXT_LIMIT + AEAD_TAG_LEN as u64 {
        return Err(Error::NoiseDecrypt);
    }
    match open(key, &chacha_nonce(nonce), aad, ciphertext) {
        Ok(p) => Ok(p),
        Err(()) => Err(Error::NoiseDecrypt),
    }
}

} // verus!
