//! What is left of a step of several sends that failed on the way.
use vstd::prelude::*;
use crate::addr::{Outbound, OutboundView};
use crate::error::{Error, ErrorView};

verus! {

/// The meaning of a list of datagrams.
pub open spec fn outbounds_view(outbound: Seq<Outbound>) -> Seq<OutboundView> {
    outbound.map_values(|o: Outbound| o@)
}

/// Why a step failed, and the datagrams that it made before it did. They are to
/// be sent all the same: each went out before the next was made.
#[derive(Debug)]
pub struct Failure {
    pub error: Error,
    pub outbound: Vec<Outbound>,
}

/// The meaning of a [`Failure`].
pub struct FailureView {
    pub error: ErrorView,
    pub outbound: Seq<OutboundView>,
}

impl View for Failure {
    type V = FailureView;

    open spec fn view(&self) -> FailureView {
        FailureView { error: self.error@, outbound: outbounds_view(self.outbound@) }
    }
}

impl FailureView {
    /// A failure before the first datagram.
    pub open spec fn early(error: ErrorView) -> FailureView {
        FailureView { error, outbound: Seq::empty() }
    }

    /// The failure of a step that had made datagrams before.
    pub open spec fn behind(self, made: Seq<OutboundView>) -> FailureView {
        FailureView { error: self.error, outbound: made + self.outbound }
    }
}

impl Failure {
    /// A failure before the first datagram.
    pub fn early(error: Error) -> (failure: Self)
        ensures
            failure@ == FailureView::early(error@),
    {
        let outbound: Vec<Outbound> = Vec::new();
        assert(outbounds_view(outbound@) =~= Seq::<OutboundView>::empty());
        Failure { error, outbound }
    }

    /// The failure of a step that had made datagrams before.
    pub fn behind(self, made: Vec<Outbound>) -> (failure: Self)
        ensures
            failure@ == self@.behind(outbounds_view(made@)),
    {
        let Failure { error, outbound } = self;
        let mut all = made;
        let mut more = outbound;
        all.append(&mut more);
        assert(outbounds_view(all@) =~= outbounds_view(made@) + outbounds_view(outbound@));
        Failure { error, outbound: all }
    }
}

impl vstd::std_specs::convert::FromSpecImpl<Failure> for Error {
    open spec fn obeys_from_spec() -> bool {
        true
    }

    open spec fn from_spec(failure: Failure) -> Self {
        failure.error
    }
}

impl From<Failure> for Error {
    /// The reason alone.
    fn from(failure: Failure) -> (error: Self) {
        failure.error
    }
}

} // verus!
