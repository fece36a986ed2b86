//! Distances.

use libp2p_cat::error::Error;
use libp2p_cat::kad::{Distance, NodeId, NODE_ID_BITS, NODE_ID_LEN};

fn check(cond: bool, reason: impl FnOnce() -> String) -> Result<(), Error> {
    if cond {
        Ok(())
    } else {
        Err(Error::HostState { reason: reason() })
    }
}

#[test]
fn zero_distance_has_full_leading_zeros() -> Result<(), Error> {
    let d = Distance::zero();
    check(d.leading_zeros() == NODE_ID_BITS, || {
        format!(
            "expected {} leading zeros, got {}",
            NODE_ID_BITS,
            d.leading_zeros()
        )
    })?;
    check(d.bucket_index().is_none(), || {
        "zero distance should have no bucket index".to_owned()
    })
}

#[test]
fn one_in_lsb_lives_in_bucket_zero() -> Result<(), Error> {
    let mut bytes = [0u8; NODE_ID_LEN];
    let last = bytes.last_mut().ok_or_else(|| Error::HostState {
        reason: "NODE_ID_LEN must be > 0".to_owned(),
    })?;
    *last = 1;
    let d = Distance::from_bytes(bytes);
    check(d.leading_zeros() == NODE_ID_BITS - 1, || {
        format!("leading zeros for distance 1 should be {NODE_ID_BITS} - 1")
    })?;
    check(d.bucket_index() == Some(0), || {
        format!(
            "distance 1 should land in bucket 0, got {:?}",
            d.bucket_index()
        )
    })
}

#[test]
fn high_bit_set_lives_in_top_bucket() -> Result<(), Error> {
    let mut bytes = [0u8; NODE_ID_LEN];
    let first = bytes.first_mut().ok_or_else(|| Error::HostState {
        reason: "NODE_ID_LEN must be > 0".to_owned(),
    })?;
    *first = 0x80;
    let d = Distance::from_bytes(bytes);
    check(d.leading_zeros() == 0, || {
        "distance with MSB set should have 0 leading zeros".to_owned()
    })?;
    check(d.bucket_index() == Some(NODE_ID_BITS - 1), || {
        format!(
            "distance with MSB set should land in bucket {}, got {:?}",
            NODE_ID_BITS - 1,
            d.bucket_index()
        )
    })
}

#[test]
fn ord_matches_unsigned_integer_compare() -> Result<(), Error> {
    let small = Distance::from_bytes(core::array::from_fn(|i| u8::from(i == NODE_ID_LEN - 1)));
    let bigger = Distance::from_bytes([0xFFu8; NODE_ID_LEN]);
    check(small < bigger, || {
        "1 should be less than 2^256 - 1 under big-endian byte order".to_owned()
    })
}

#[test]
fn xor_distance_is_zero_iff_equal() -> Result<(), Error> {
    let a = NodeId::from_bytes([0x12; NODE_ID_LEN]);
    let b = NodeId::from_bytes([0x12; NODE_ID_LEN]);
    let c = NodeId::from_bytes([0x13; NODE_ID_LEN]);
    check(a.distance(&b).is_zero(), || {
        "equal NodeIds should have zero distance".to_owned()
    })?;
    check(!a.distance(&c).is_zero(), || {
        "distinct NodeIds should have non-zero distance".to_owned()
    })
}
