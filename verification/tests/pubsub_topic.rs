//! Topics.

use libp2p_cat::error::Error;
use libp2p_cat::pubsub::{Topic, MAX_TOPIC_LEN};

#[test]
fn accepts_typical_topic() -> Result<(), Error> {
    let t: Topic = "/chat/v1".try_into()?;
    assert_eq!(t.as_str(), "/chat/v1");
    Ok(())
}

#[test]
fn rejects_empty() {
    assert!(matches!(
        Topic::new(String::new()),
        Err(Error::PubsubProtocol { .. })
    ));
}

#[test]
fn rejects_whitespace() {
    assert!(matches!(
        Topic::new("hello world".to_owned()),
        Err(Error::PubsubProtocol { .. })
    ));
}

#[test]
fn rejects_oversized() {
    let oversized = "x".repeat(MAX_TOPIC_LEN + 1);
    assert!(matches!(
        Topic::new(oversized),
        Err(Error::PubsubProtocol { .. })
    ));
}
