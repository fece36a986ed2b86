//! The one error type of the stack.
use vstd::prelude::*;
use crate::text::{decimal, join3, with_number};

verus! {

/// Everything that can go wrong in the stack.
#[derive(Debug)]
pub enum Error {
    /// The operating system refused a socket operation.
    Io(String),
    /// A protocol identifier was malformed.
    InvalidProtocolId { reason: String },
    /// A peer identifier was malformed.
    InvalidPeerId { reason: String },
    /// A datagram does not fit in one UDP packet.
    DatagramTooLarge { size: usize },
    /// Authenticated decryption (or encryption) failed.
    NoiseDecrypt,
    /// A Noise message has the wrong shape, or a counter is exhausted.
    NoiseProtocol { reason: String },
    /// A transport nonce was already seen, or lies behind the window.
    NoiseReplay { nonce: u64 },
    /// The network-coding layer reported a failure.
    RlncLayer { reason: String },
    /// A pubsub or Kademlia frame is malformed.
    PubsubProtocol { reason: String },
    /// The host is in no state to do what was asked.
    HostState { reason: String },
    /// An identity binding did not verify.
    IdentityVerify { reason: String },
}

/// What an [`Error`] says, with strings as character sequences.
pub enum ErrorView {
    Io(Seq<char>),
    InvalidProtocolId(Seq<char>),
    InvalidPeerId(Seq<char>),
    DatagramTooLarge(nat),
    NoiseDecrypt,
    NoiseProtocol(Seq<char>),
    NoiseReplay(nat),
    RlncLayer(Seq<char>),
    PubsubProtocol(Seq<char>),
    HostState(Seq<char>),
    IdentityVerify(Seq<char>),
}

impl View for Error {
    type V = ErrorView;

    open spec fn view(&self) -> ErrorView {
        match self {
            Error::Io(reason) => ErrorView::Io(reason@),
            Error::InvalidProtocolId { reason } => ErrorView::InvalidProtocolId(reason@),
            Error::InvalidPeerId { reason } => ErrorView::InvalidPeerId(reason@),
            Error::DatagramTooLarge { size } => ErrorView::DatagramTooLarge(*size as nat),
            Error::NoiseDecrypt => ErrorView::NoiseDecrypt,
            Error::NoiseProtocol { reason } => ErrorView::NoiseProtocol(reason@),
            Error::NoiseReplay { nonce } => ErrorView::NoiseReplay(*nonce as nat),
            Error::RlncLayer { reason } => ErrorView::RlncLayer(reason@),
            Error::PubsubProtocol { reason } => ErrorView::PubsubProtocol(reason@),
            Error::HostState { reason } => ErrorView::HostState(reason@),
            Error::IdentityVerify { reason } => ErrorView::IdentityVerify(reason@),
        }
    }
}

impl ErrorView {
    /// The text that describes the error.
    pub open spec fn text(self) -> Seq<char> {
        match self {
            ErrorView::Io(reason) => "I/O error: "@ + reason,
            ErrorView::InvalidProtocolId(reason) => "invalid protocol id: "@ + reason,
            ErrorView::InvalidPeerId(reason) => "invalid peer id: "@ + reason,
            ErrorView::DatagramTooLarge(size) => "datagram too large: "@ + decimal(size)
                + " bytes"@,
            ErrorView::NoiseDecrypt => "noise decryption failed"@,
            ErrorView::NoiseProtocol(reason) => "noise protocol error: "@ + reason,
            ErrorView::NoiseReplay(nonce) => "noise replay: nonce "@ + decimal(nonce)
                + " rejected"@,
            ErrorView::RlncLayer(reason) => "rlnc error: "@ + reason,
            ErrorView::PubsubProtocol(reason) => "pubsub protocol error: "@ + reason,
            ErrorView::HostState(reason) => "host state error: "@ + reason,
            ErrorView::IdentityVerify(reason) => "identity verification failed: "@ + reason,
        }
    }
}

/// `prefix` followed by `reason`.
fn labelled(prefix: &str, reason: &String) -> (text: String)
    ensures
        text@ == prefix@ + reason@,
{
    let text = join3(prefix, reason.as_str(), "");
    proof {
        reveal_strlit("");
    }
    assert(text@ =~= prefix@ + reason@);
    text
}

impl Error {
    /// Describes the error in words.
    pub fn describe(&self) -> (text: String)
        ensures
            text@ == self@.text(),
    {
        match self {
            Error::Io(reason) => labelled("I/O error: ", reason),
            Error::InvalidProtocolId { reason } => labelled("invalid protocol id: ", reason),
            Error::InvalidPeerId { reason } => labelled("invalid peer id: ", reason),
            Error::DatagramTooLarge { size } => {
                let head = with_number("datagram too large: ", *size as u64);
                labelled_tail(head, " bytes")
            }
            Error::NoiseDecrypt => "noise decryption failed".to_owned(),
            Error::NoiseProtocol { reason } => labelled("noise protocol error: ", reason),
            Error::NoiseReplay { nonce } => {
                let head = with_number("noise replay: nonce ", *nonce);
                labelled_tail(head, " rejected")
            }
            Error::RlncLayer { reason } => labelled("rlnc error: ", reason),
            Error::PubsubProtocol { reason } => labelled("pubsub protocol error: ", reason),
            Error::HostState { reason } => labelled("host state error: ", reason),
            Error::IdentityVerify { reason } => labelled("identity verification failed: ", reason),
        }
    }
}

/// `head` followed by `tail`.
fn labelled_tail(head: String, tail: &str) -> (text: String)
    ensures
        text@ == head@ + tail@,
{
    let text = join3(head.as_str(), tail, "");
    proof {
        reveal_strlit("");
    }
    assert(text@ =~= head@ + tail@);
    text
}

} // verus!
