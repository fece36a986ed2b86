//! Bounds on the two tables of a host.
use vstd::prelude::*;

verus! {

/// Handshakes in flight by default.
pub const DEFAULT_MAX_HANDSHAKES_IN_FLIGHT: usize = 256;

/// Established connections by default.
pub const DEFAULT_MAX_ESTABLISHED: usize = 1024;

/// Bounds on the two tables of a host; neither is zero.
#[derive(Clone, Copy, Debug, PartialEq, Eq)]
pub struct Capacity {
    max_handshakes_in_flight: usize,
    max_established: usize,
}

impl Capacity {
    #[verifier::type_invariant]
    spec fn valid(&self) -> bool {
        self.max_handshakes_in_flight > 0 && self.max_established > 0
    }

    /// The bound on handshakes.
    pub closed spec fn handshakes(&self) -> nat {
        self.max_handshakes_in_flight as nat
    }

    /// The bound on established connections.
    pub closed spec fn established(&self) -> nat {
        self.max_established as nat
    }

    /// Bounds of the given sizes; `None` where one is zero.
    pub fn new(max_handshakes_in_flight: usize, max_established: usize) -> (r: Option<Self>)
        ensures
            match r {
                Some(c) => max_handshakes_in_flight > 0 && max_established > 0 && c.handshakes()
                    == max_handshakes_in_flight && c.established() == max_established,
                None => max_handshakes_in_flight == 0 || max_established == 0,
            },
    {
        if max_handshakes_in_flight == 0 || max_established == 0 {
            None
        } else {
            Some(Capacity { max_handshakes_in_flight, max_established })
        }
    }

    /// The bound on handshakes in flight.
    pub fn max_handshakes_in_flight(&self) -> (n: usize)
        ensures
            n == self.handshakes(),
            n > 0,
    {
        proof {
            use_type_invariant(self);
        }
        self.max_handshakes_in_flight
    }

    /// The bound on established connections.
    pub fn max_established(&self) -> (n: usize)
        ensures
            n == self.established(),
            n > 0,
    {
        proof {
            use_type_invariant(self);
        }
        self.max_established
    }
}

impl Default for Capacity {
    fn default() -> (c: Self)
        ensures
            c.handshakes() == DEFAULT_MAX_HANDSHAKES_IN_FLIGHT,
            c.established() == DEFAULT_MAX_ESTABLISHED,
    {
        Capacity {
            max_handshakes_in_flight: DEFAULT_MAX_HANDSHAKES_IN_FLIGHT,
            max_established: DEFAULT_MAX_ESTABLISHED,
        }
    }
}

} // verus!
