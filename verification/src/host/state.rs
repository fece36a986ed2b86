//! What the host remembers of a peer.
use vstd::prelude::*;
use crate::activity::Touched;
use crate::noise::handshake::{
    InitiatorAfterE, InitiatorAfterEView, ResponderAfterResponse, ResponderAfterResponseView,
};
use crate::noise::primitives::StaticPublicKey;
use crate::noise::transport::{TransportState, TransportView};
use crate::peer_id::PeerId;

verus! {

/// A handshake that waits for the remote side.
pub enum HandshakeState {
    /// The first message went out (and is kept, to be sent again with a
    /// cookie); the second is awaited.
    InitiatorAwaitingResponse { after_e: InitiatorAfterE, msg1: Vec<u8> },
    /// The second message went out; the third is awaited.
    ResponderAwaitingFinalize(ResponderAfterResponse),
}

/// The meaning of a [`HandshakeState`].
pub enum HandshakeStateView {
    Initiator { after_e: InitiatorAfterEView, msg1: Seq<u8> },
    Responder(ResponderAfterResponseView),
}

impl View for HandshakeState {
    type V = HandshakeStateView;

    open spec fn view(&self) -> HandshakeStateView {
        match self {
            HandshakeState::InitiatorAwaitingResponse { after_e, msg1 } => {
                HandshakeStateView::Initiator { after_e: after_e@, msg1: msg1@ }
            },
            HandshakeState::ResponderAwaitingFinalize(after_resp) => HandshakeStateView::Responder(
                after_resp@,
            ),
        }
    }
}

/// A handshake in flight and the tick at which it was last touched.
pub struct InFlightHandshake {
    pub state: HandshakeState,
    pub last_activity: u64,
}

/// The meaning of an [`InFlightHandshake`].
pub struct HandshakeView {
    pub state: HandshakeStateView,
    pub last_activity: u64,
}

impl View for InFlightHandshake {
    type V = HandshakeView;

    open spec fn view(&self) -> HandshakeView {
        HandshakeView { state: self.state@, last_activity: self.last_activity }
    }
}

impl Touched for InFlightHandshake {
    open spec fn touched(&self) -> u64 {
        self.last_activity
    }

    fn last_activity(&self) -> (tick: u64) {
        self.last_activity
    }
}

/// An established session and the tick at which it was last touched.
pub struct EstablishedConnection {
    pub transport: TransportState,
    pub remote_static: StaticPublicKey,
    pub remote_peer_id: PeerId,
    pub last_activity: u64,
}

/// The meaning of an [`EstablishedConnection`].
pub struct ConnectionView {
    pub transport: TransportView,
    pub remote_static: Seq<u8>,
    pub remote_peer_id: Seq<u8>,
    pub last_activity: u64,
}

impl View for EstablishedConnection {
    type V = ConnectionView;

    open spec fn view(&self) -> ConnectionView {
        ConnectionView {
            transport: self.transport@,
            remote_static: self.remote_static@,
            remote_peer_id: self.remote_peer_id@,
            last_activity: self.last_activity,
        }
    }
}

impl Touched for EstablishedConnection {
    open spec fn touched(&self) -> u64 {
        self.last_activity
    }

    fn last_activity(&self) -> (tick: u64) {
        self.last_activity
    }
}

} // verus!
