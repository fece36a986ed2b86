//! The replay window on bare numbers.

use libp2p_cat::error::Error;
use libp2p_cat::noise::transport::{advance_window, nonce_acceptable};

#[test]
fn fresh_window_accepts_nonce_zero() {
    assert!(nonce_acceptable(0, 0, 0).is_ok());
}

#[test]
fn replay_after_first_acceptance() {
    let (window, max) = advance_window(0, 0, 0);
    assert!(matches!(
        nonce_acceptable(window, max, 0),
        Err(Error::NoiseReplay { nonce: 0 })
    ));
}

#[test]
fn out_of_order_within_window_is_accepted() {
    let (window, max) = advance_window(0, 0, 5);
    assert!(nonce_acceptable(window, max, 3).is_ok());
    let (window, max) = advance_window(window, max, 3);
    // Replaying 3 now fails.
    assert!(matches!(
        nonce_acceptable(window, max, 3),
        Err(Error::NoiseReplay { nonce: 3 })
    ));
    // Nonce 5 is also a replay.
    assert!(matches!(
        nonce_acceptable(window, max, 5),
        Err(Error::NoiseReplay { nonce: 5 })
    ));
}

#[test]
fn way_old_nonce_is_rejected() {
    let (window, max) = advance_window(0, 0, 200);
    assert!(matches!(
        nonce_acceptable(window, max, 50),
        Err(Error::NoiseReplay { nonce: 50 })
    ));
}

#[test]
fn jump_beyond_window_clears_lower_bits() {
    let (window, max) = advance_window(0, 0, 1);
    let (window, max) = advance_window(window, max, 100);
    assert_eq!(max, 100);
    // Window should now be just bit 0 set (only nonce 100 known).
    assert_eq!(window, 1);
    // Nonce 1 is now too old.
    assert!(matches!(
        nonce_acceptable(window, max, 1),
        Err(Error::NoiseReplay { nonce: 1 })
    ));
}
