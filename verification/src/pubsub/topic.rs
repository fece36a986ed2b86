//! Topic names.
use vstd::prelude::*;
use vstd::utf8::{encode_utf8, valid_utf8};
use crate::bytes::{
    bytes_before, lemma_lex_irreflexive, lemma_lex_total, lemma_lex_transitive, lex_before,
    same_bytes,
};
use crate::error::{Error, ErrorView};
use crate::ordered_map::OrderedKey;
use crate::pubsub::codec::MAX_TOPIC_LEN;
use crate::text::{decimal, with_number};

verus! {

/// Whether a byte is a printable ASCII character other than the space.
pub open spec fn printable(b: u8) -> bool {
    0x21 <= b <= 0x7E
}

/// Whether a byte string is a topic name: 1 to 255 printable bytes.
pub open spec fn is_topic(name: Seq<u8>) -> bool {
    1 <= name.len() <= 255 && forall|i: int| 0 <= i < name.len() ==> printable(#[trigger] name[i])
}

/// What is wrong with a byte string that is not a topic name.
pub open spec fn topic_complaint(name: Seq<u8>) -> ErrorView {
    ErrorView::PubsubProtocol(
        "topic must be 1..=255 printable ASCII bytes, got "@ + decimal(name.len()),
    )
}

/// A topic name.
#[derive(Debug, PartialEq, Eq, Hash, PartialOrd, Ord)]
pub struct Topic {
    name: String,
}

impl View for Topic {
    type V = Seq<u8>;

    /// The bytes of the name.
    closed spec fn view(&self) -> Seq<u8> {
        encode_utf8(self.name@)
    }
}

impl Clone for Topic {
    fn clone(&self) -> (copy: Self)
        ensures
            copy@ == self@,
    {
        proof {
            use_type_invariant(self);
        }
        Topic { name: self.name.clone() }
    }
}

impl OrderedKey for Topic {
    open spec fn precedes(a: Seq<u8>, b: Seq<u8>) -> bool {
        lex_before(a, b)
    }

    proof fn irreflexive(a: Seq<u8>) {
        lemma_lex_irreflexive(a);
    }

    proof fn transitive(a: Seq<u8>, b: Seq<u8>, c: Seq<u8>) {
        lemma_lex_transitive(a, b, c);
    }

    proof fn total(a: Seq<u8>, b: Seq<u8>) {
        lemma_lex_total(a, b);
    }

    fn before(&self, other: &Self) -> (r: bool) {
        bytes_before(self.name.as_str().as_bytes(), other.name.as_str().as_bytes())
    }

    fn copy_key(&self) -> (copy: Self) {
        self.clone()
    }
}

impl Topic {
    #[verifier::type_invariant]
    spec fn valid(&self) -> bool {
        is_topic(self@)
    }

    /// Checks a name.
    pub fn new(name: String) -> (r: Result<Self, Error>)
        ensures
            match r {
                Ok(topic) => is_topic(encode_utf8(name@)) && topic@ == encode_utf8(name@),
                Err(e) => !is_topic(encode_utf8(name@)) && e@ == topic_complaint(
                    encode_utf8(name@),
                ),
            },
    {
        let bytes = name.as_str().as_bytes();
        let len: usize = bytes.len();
        let mut fine = len > 0 && len <= MAX_TOPIC_LEN;
        let mut i: usize = 0;
        while i < len
            invariant
                i <= len == bytes@.len(),
                fine == (1 <= len <= 255 && forall|j: int|
                    0 <= j < i ==> printable(#[trigger] bytes@[j])),
            decreases len - i,
        {
            let b: u8 = bytes[i];
            if b < 0x21 || b > 0x7E {
                assert(!printable(bytes@[i as int]));
                fine = false;
            }
            i = i + 1;
        }
        if fine {
            Ok(Topic { name })
        } else {
            Err(
                Error::PubsubProtocol {
                    reason: with_number(
                        "topic must be 1..=255 printable ASCII bytes, got ",
                        len as u64,
                    ),
                },
            )
        }
    }

    /// The name.
    pub fn as_str(&self) -> (name: &str)
        ensures
            encode_utf8(name@) == self@,
    {
        self.name.as_str()
    }

    /// The bytes of the name.
    pub fn as_bytes(&self) -> (bytes: &[u8])
        ensures
            bytes@ == self@,
            is_topic(self@),
    {
        proof {
            use_type_invariant(self);
        }
        self.name.as_str().as_bytes()
    }

    /// Whether two topics have the same name.
    pub fn same(&self, other: &Self) -> (r: bool)
        ensures
            r == (self@ == other@),
    {
        same_bytes(self.as_bytes(), other.as_bytes())
    }
}

impl vstd::std_specs::convert::TryFromSpecImpl<&str> for Topic {
    open spec fn obeys_try_from_spec() -> bool {
        false
    }

    open spec fn try_from_spec(s: &str) -> Result<Self, Error> {
        arbitrary()
    }
}

impl TryFrom<&str> for Topic {
    type Error = Error;

    fn try_from(s: &str) -> (r: Result<Self, Error>)
        ensures
            match r {
                Ok(topic) => is_topic(encode_utf8(s@)) && topic@ == encode_utf8(s@),
                Err(e) => !is_topic(encode_utf8(s@)) && e@ == topic_complaint(encode_utf8(s@)),
            },
    {
        Topic::new(s.to_owned())
    }
}

impl vstd::std_specs::convert::TryFromSpecImpl<String> for Topic {
    open spec fn obeys_try_from_spec() -> bool {
        false
    }

    open spec fn try_from_spec(s: String) -> Result<Self, Error> {
        arbitrary()
    }
}

impl TryFrom<String> for Topic {
    type Error = Error;

    fn try_from(s: String) -> (r: Result<Self, Error>)
        ensures
            match r {
                Ok(topic) => is_topic(encode_utf8(s@)) && topic@ == encode_utf8(s@),
                Err(e) => !is_topic(encode_utf8(s@)) && e@ == topic_complaint(encode_utf8(s@)),
            },
    {
        Topic::new(s)
    }
}

/// Calls [`String::from_utf8`]: valid UTF-8 becomes the string that it encodes,
/// anything else is refused.
#[verifier::external_body]
pub(crate) fn utf8_string(bytes: Vec<u8>) -> (r: Option<String>)
    ensures
        match r {
            Some(s) => encode_utf8(s@) == bytes@,
            None => !valid_utf8(bytes@),
        },
{
    String::from_utf8(bytes).ok()
}

} // verus!
