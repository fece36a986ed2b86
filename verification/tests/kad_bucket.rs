//! Buckets.

use libp2p_cat::addr::UdpAddr;
use libp2p_cat::error::Error;
use libp2p_cat::kad::{Bucket, InsertOutcome, NodeId, NODE_ID_LEN};

fn check(cond: bool, reason: impl FnOnce() -> String) -> Result<(), Error> {
    if cond {
        Ok(())
    } else {
        Err(Error::HostState { reason: reason() })
    }
}

fn addr_for_port(port: u16) -> UdpAddr {
    UdpAddr::v4([127, 0, 0, 1], port)
}

fn id_for_byte(b: u8) -> NodeId {
    NodeId::from_bytes([b; NODE_ID_LEN])
}

#[test]
fn empty_bucket_reports_zero_len_and_not_full() -> Result<(), Error> {
    let bucket = Bucket::new(3);
    check(bucket.is_empty(), || {
        "fresh bucket should be empty".to_owned()
    })?;
    check(!bucket.is_full(), || {
        "fresh bucket of capacity 3 should not be full".to_owned()
    })
}

#[test]
fn first_insert_into_empty_bucket_reports_added() -> Result<(), Error> {
    let (bucket, outcome) = Bucket::new(3).insert(id_for_byte(1), addr_for_port(1));
    check(outcome == InsertOutcome::Added, || {
        format!("expected Added, got {outcome:?}")
    })?;
    check(bucket.len() == 1, || {
        format!("expected len 1, got {}", bucket.len())
    })
}

#[test]
fn re_inserting_same_node_reports_updated_and_moves_to_front() -> Result<(), Error> {
    let (bucket, _) = Bucket::new(3).insert(id_for_byte(1), addr_for_port(1));
    let (bucket, _) = bucket.insert(id_for_byte(2), addr_for_port(2));
    let (bucket, outcome) = bucket.insert(id_for_byte(1), addr_for_port(11));
    check(outcome == InsertOutcome::Updated, || {
        format!("expected Updated, got {outcome:?}")
    })?;
    check(bucket.len() == 2, || {
        format!("expected len still 2, got {}", bucket.len())
    })?;
    let mut iter = bucket.iter().iter();
    let first = iter.next().ok_or_else(|| Error::HostState {
        reason: "bucket should have a front entry after Updated".to_owned(),
    })?;
    check(first.0 == id_for_byte(1), || {
        "re-inserted peer should be at the most-recently-seen end".to_owned()
    })?;
    check(first.1 == addr_for_port(11), || {
        "re-inserted peer's address should reflect the latest insert".to_owned()
    })
}

#[test]
fn full_bucket_reports_lru_candidate() -> Result<(), Error> {
    // Fill capacity 2 with peers 1 then 2 (so 1 is LRU, 2 is MRU).
    let (bucket, _) = Bucket::new(2).insert(id_for_byte(1), addr_for_port(1));
    let (bucket, _) = bucket.insert(id_for_byte(2), addr_for_port(2));
    check(bucket.is_full(), || {
        "bucket should be full after two inserts at capacity 2".to_owned()
    })?;
    let (bucket, outcome) = bucket.insert(id_for_byte(3), addr_for_port(3));
    match outcome {
        InsertOutcome::BucketFull { lru_candidate } => {
            check(lru_candidate == id_for_byte(1), || {
                format!("expected LRU = id_for_byte(1), got {lru_candidate:?}")
            })?
        }
        other @ (InsertOutcome::Added | InsertOutcome::Updated) => {
            return Err(Error::HostState {
                reason: format!("expected BucketFull, got {other:?}"),
            });
        }
    }
    check(!bucket.contains(&id_for_byte(3)), || {
        "rejected peer must not be in the bucket".to_owned()
    })?;
    check(bucket.len() == 2, || {
        format!("bucket size should still be 2, got {}", bucket.len())
    })
}

#[test]
fn bucket_remove_drops_the_peer() -> Result<(), Error> {
    let (bucket, _) = Bucket::new(3).insert(id_for_byte(1), addr_for_port(1));
    let (bucket, _) = bucket.insert(id_for_byte(2), addr_for_port(2));
    let bucket = bucket.remove(&id_for_byte(1));
    check(!bucket.contains(&id_for_byte(1)), || {
        "removed peer must no longer be present".to_owned()
    })?;
    check(bucket.contains(&id_for_byte(2)), || {
        "untouched peer must remain present".to_owned()
    })?;
    check(bucket.len() == 1, || {
        format!("expected len 1 after one removal, got {}", bucket.len())
    })
}

#[test]
fn remove_is_a_no_op_for_unknown_peer() -> Result<(), Error> {
    let (bucket, _) = Bucket::new(3).insert(id_for_byte(1), addr_for_port(1));
    let bucket = bucket.remove(&id_for_byte(99));
    check(bucket.contains(&id_for_byte(1)), || {
        "removing an unknown peer must not affect existing entries".to_owned()
    })?;
    check(bucket.len() == 1, || {
        format!("expected len 1 after no-op removal, got {}", bucket.len())
    })
}
