//! Registration of topics.

use std::sync::Arc;

use libp2p_cat::error::Error;
use libp2p_cat::pubsub::{NullAuthenticator, PubsubState, Topic};

fn check(cond: bool, reason: impl FnOnce() -> String) -> Result<(), Error> {
    if cond {
        Ok(())
    } else {
        Err(Error::PubsubProtocol { reason: reason() })
    }
}

fn topic(name: &str) -> Result<Topic, Error> {
    Topic::try_from(name)
}

fn fresh_state() -> PubsubState<NullAuthenticator> {
    PubsubState::new(Arc::new(NullAuthenticator))
}

#[test]
fn fresh_state_starts_at_tick_zero() -> Result<(), Error> {
    let state = fresh_state();
    check(state.tick() == 0, || {
        format!("expected fresh tick = 0, got {}", state.tick())
    })?;
    check(state.decoder_count() == 0, || {
        "expected zero decoders".to_owned()
    })?;
    check(state.relay_count() == 0, || {
        "expected zero relays".to_owned()
    })
}

#[test]
fn register_topic_advances_tick_and_records_decoder() -> Result<(), Error> {
    let t = topic("/chat/v1")?;
    let state = fresh_state().register_topic(t.clone(), 3, 4, ());
    check(state.tick() == 1, || {
        format!("expected tick = 1, got {}", state.tick())
    })?;
    check(state.decoder_count() == 1, || {
        format!("expected 1 decoder, got {}", state.decoder_count())
    })?;
    check(state.is_decoder_registered(&t), || {
        "expected decoder for /chat/v1".to_owned()
    })
}

#[test]
fn unregister_topic_removes_decoder() -> Result<(), Error> {
    let t = topic("/chat/v1")?;
    let state = fresh_state()
        .register_topic(t.clone(), 3, 4, ())
        .unregister_topic(&t);
    check(state.decoder_count() == 0, || {
        "decoder should be gone after unregister".to_owned()
    })?;
    check(!state.is_decoder_registered(&t), || {
        "is_decoder_registered should be false".to_owned()
    })
}

#[test]
fn evict_idle_topics_sweeps_old_entries() -> Result<(), Error> {
    let old_topic = topic("/old")?;
    let new_topic = topic("/new")?;
    // Register old_topic at tick 1, advance tick by 5
    // unregister cycles on a placeholder, then register
    // new_topic at tick 7.  evict_idle_topics(3) should sweep
    // old_topic (idle gap of 6 from tick 7) and keep new_topic
    // (idle gap of 0).
    let s0 = fresh_state().register_topic(old_topic.clone(), 3, 4, ());
    let s1 = (0..5).try_fold(s0, |acc, _| -> Result<_, Error> {
        let placeholder = topic("/x")?;
        Ok(acc.unregister_topic(&placeholder))
    })?;
    let s2 = s1.register_topic(new_topic.clone(), 3, 4, ());
    check(s2.tick() == 7, || {
        format!("expected tick = 7, got {}", s2.tick())
    })?;
    let (s3, evicted) = s2.evict_idle_topics(3);
    check(evicted.contains(&old_topic), || {
        format!("expected old_topic in evicted, got {evicted:?}")
    })?;
    check(!s3.is_decoder_registered(&old_topic), || {
        "old_topic should be gone after evict_idle".to_owned()
    })?;
    check(s3.is_decoder_registered(&new_topic), || {
        "new_topic should survive evict_idle".to_owned()
    })
}

#[test]
fn register_relay_and_unregister_relay_round_trip() -> Result<(), Error> {
    let t = topic("/relay/v1")?;
    let state = fresh_state().register_relay(t.clone(), 3, 4, ());
    check(state.is_relay_registered(&t), || {
        "relay should be registered".to_owned()
    })?;
    let state = state.unregister_relay(&t);
    check(!state.is_relay_registered(&t), || {
        "relay should be gone after unregister".to_owned()
    })
}
