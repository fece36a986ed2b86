//! The caps of a host.

use libp2p_cat::error::Error;
use libp2p_cat::host::capacity::{
    Capacity, DEFAULT_MAX_ESTABLISHED, DEFAULT_MAX_HANDSHAKES_IN_FLIGHT,
};

fn check(cond: bool, reason: impl FnOnce() -> String) -> Result<(), Error> {
    if cond {
        Ok(())
    } else {
        Err(Error::HostState { reason: reason() })
    }
}

#[test]
fn default_uses_documented_caps() -> Result<(), Error> {
    let cap = Capacity::default();
    check(
        cap.max_handshakes_in_flight() == DEFAULT_MAX_HANDSHAKES_IN_FLIGHT,
        || {
            format!(
                "expected default handshake cap {DEFAULT_MAX_HANDSHAKES_IN_FLIGHT}, got {}",
                cap.max_handshakes_in_flight()
            )
        },
    )?;
    check(cap.max_established() == DEFAULT_MAX_ESTABLISHED, || {
        format!(
            "expected default established cap {DEFAULT_MAX_ESTABLISHED}, got {}",
            cap.max_established()
        )
    })
}

#[test]
fn new_rejects_zero_handshake_cap() -> Result<(), Error> {
    check(Capacity::new(0, 1).is_none(), || {
        "Capacity::new(0, 1) should be None".to_owned()
    })
}

#[test]
fn new_rejects_zero_established_cap() -> Result<(), Error> {
    check(Capacity::new(1, 0).is_none(), || {
        "Capacity::new(1, 0) should be None".to_owned()
    })
}

#[test]
fn new_round_trips_caps() -> Result<(), Error> {
    let cap = Capacity::new(4, 7).ok_or_else(|| Error::HostState {
        reason: "Capacity::new(4, 7) should be Some".to_owned(),
    })?;
    check(cap.max_handshakes_in_flight() == 4, || {
        format!("expected 4, got {}", cap.max_handshakes_in_flight())
    })?;
    check(cap.max_established() == 7, || {
        format!("expected 7, got {}", cap.max_established())
    })
}
