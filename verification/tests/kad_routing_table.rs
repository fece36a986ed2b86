//! Routing tables.

use libp2p_cat::addr::UdpAddr;
use libp2p_cat::error::Error;
use libp2p_cat::kad::{Distance, InsertOutcome, NodeId, RoutingTable, NODE_ID_LEN};

fn check(cond: bool, reason: impl FnOnce() -> String) -> Result<(), Error> {
    if cond {
        Ok(())
    } else {
        Err(Error::HostState { reason: reason() })
    }
}

fn addr_for_port(port: u16) -> UdpAddr {
    UdpAddr::v4([127, 0, 0, 1], port)
}

fn id_for_byte(b: u8) -> NodeId {
    NodeId::from_bytes([b; NODE_ID_LEN])
}

#[test]
fn fresh_table_is_empty() -> Result<(), Error> {
    let table = RoutingTable::new(id_for_byte(0), 20);
    check(table.is_empty(), || {
        "fresh table should be empty".to_owned()
    })
}

#[test]
fn insert_unique_peers_grows_the_table() -> Result<(), Error> {
    let table = RoutingTable::new(id_for_byte(0), 20);
    let (table, _) = table.insert(id_for_byte(1), addr_for_port(1));
    let (table, _) = table.insert(id_for_byte(2), addr_for_port(2));
    let (table, _) = table.insert(id_for_byte(3), addr_for_port(3));
    check(table.len() == 3, || {
        format!("expected 3 peers, got {}", table.len())
    })?;
    check(table.contains(&id_for_byte(2)), || {
        "peer 2 should be present".to_owned()
    })
}

#[test]
fn inserting_self_is_a_noop() -> Result<(), Error> {
    let me = id_for_byte(7);
    let table = RoutingTable::new(me, 20);
    let (table, outcome) = table.insert(me, addr_for_port(1));
    check(outcome == InsertOutcome::Updated, || {
        format!("inserting self should report Updated, got {outcome:?}")
    })?;
    check(table.is_empty(), || {
        "inserting self should not add a peer".to_owned()
    })
}

#[test]
fn closest_to_returns_at_most_max_count() -> Result<(), Error> {
    let table = RoutingTable::new(id_for_byte(0), 20);
    let table = (1u8..=10).fold(table, |acc, b| {
        acc.insert(id_for_byte(b), addr_for_port(u16::from(b))).0
    });
    let closest = table.closest_to(&id_for_byte(0), 3);
    check(closest.len() == 3, || {
        format!("expected 3 nearest, got {}", closest.len())
    })?;
    // Distances must be ascending.
    let dists: Vec<Distance> = closest
        .iter()
        .map(|(id, _)| id.distance(&id_for_byte(0)))
        .collect();
    let monotone = dists.windows(2).all(|pair| {
        let left = pair.first().copied().unwrap_or(Distance::zero());
        let right = pair.get(1).copied().unwrap_or(Distance::zero());
        left <= right
    });
    check(monotone, || {
        "closest_to results must be sorted by ascending distance".to_owned()
    })
}

#[test]
fn closest_to_empty_table_returns_empty() -> Result<(), Error> {
    let table = RoutingTable::new(id_for_byte(0), 20);
    let closest = table.closest_to(&id_for_byte(99), 5);
    check(closest.is_empty(), || {
        "closest_to on empty table should return empty".to_owned()
    })
}

#[test]
fn routing_table_remove_drops_the_peer() -> Result<(), Error> {
    let table = RoutingTable::new(id_for_byte(0), 20);
    let (table, _) = table.insert(id_for_byte(1), addr_for_port(1));
    let (table, _) = table.insert(id_for_byte(2), addr_for_port(2));
    let table = table.remove(&id_for_byte(1));
    check(!table.contains(&id_for_byte(1)), || {
        "removed peer should be gone".to_owned()
    })?;
    check(table.contains(&id_for_byte(2)), || {
        "untouched peer should remain".to_owned()
    })?;
    check(table.len() == 1, || {
        format!("expected len 1 after remove, got {}", table.len())
    })
}

#[test]
fn re_inserting_a_peer_does_not_grow_len() -> Result<(), Error> {
    let table = RoutingTable::new(id_for_byte(0), 20);
    let (table, _) = table.insert(id_for_byte(1), addr_for_port(1));
    let (table, outcome) = table.insert(id_for_byte(1), addr_for_port(11));
    check(outcome == InsertOutcome::Updated, || {
        format!("re-insert should report Updated, got {outcome:?}")
    })?;
    check(table.len() == 1, || {
        format!("expected len 1 after re-insert, got {}", table.len())
    })
}
