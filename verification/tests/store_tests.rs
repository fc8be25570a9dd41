use crab_router::{AddressDb, NodeInfo, NodeType, PeerAddr, PeerIp};

fn v4(a: u8, b: u8, c: u8, d: u8) -> PeerAddr {
    PeerAddr { ip: PeerIp::V4(a, b, c, d), port: 8333 }
}

fn row(addr: PeerAddr, t: NodeType, last_seen: i64, reachable: bool) -> NodeInfo {
    NodeInfo {
        addr,
        node_type: t,
        user_agent: None,
        version: None,
        services: None,
        last_seen,
        last_connected: None,
        connection_failures: 0,
        is_reachable: reachable,
    }
}

#[test]
fn upsert_reports_new_rows() {
    let mut db = AddressDb::new();
    assert!(db.insert_or_update(&row(v4(1, 1, 1, 1), NodeType::Core, 10, true)));
    assert!(!db.insert_or_update(&row(v4(1, 1, 1, 1), NodeType::Knots, 11, true)));
    assert!(db.insert_or_update(&row(v4(2, 2, 2, 2), NodeType::Other, 12, true)));
}

#[test]
fn five_failures_make_unreachable_and_success_restores() {
    let mut db = AddressDb::new();
    let a = v4(9, 9, 9, 9);
    db.insert_or_update(&row(a, NodeType::Core, 1, true));
    for _ in 0..4 {
        db.mark_failed(a);
    }
    assert_eq!(db.get_by_type(NodeType::Core, 10), vec![a], "four failures keep it reachable");
    db.mark_failed(a);
    assert!(db.get_by_type(NodeType::Core, 10).is_empty(), "fifth failure removes it");
    db.mark_connected(a, 100);
    assert_eq!(db.get_by_type(NodeType::Core, 10), vec![a], "success restores reachability");
}

#[test]
fn dial_pool_never_returns_knots() {
    let mut db = AddressDb::new();
    db.insert_or_update(&row(v4(1, 0, 0, 1), NodeType::Knots, 50, true));
    db.insert_or_update(&row(v4(1, 0, 0, 2), NodeType::Core, 40, true));
    db.insert_or_update(&row(v4(1, 0, 0, 3), NodeType::Knots, 60, true));
    db.insert_or_update(&row(v4(1, 0, 0, 4), NodeType::LibreRelay, 10, true));
    db.insert_or_update(&row(v4(1, 0, 0, 5), NodeType::Unknown, 99, true));
    db.insert_or_update(&row(v4(1, 0, 0, 6), NodeType::Other, 70, false));
    let pool = db.get_knots_excluding(10);
    assert_eq!(pool.len(), 3);
    assert!(!pool.contains(&v4(1, 0, 0, 1)));
    assert!(!pool.contains(&v4(1, 0, 0, 3)));
    assert!(!pool.contains(&v4(1, 0, 0, 6)), "unreachable rows are not dialed");
}

#[test]
fn dial_pool_orders_by_priority_then_recency() {
    let mut db = AddressDb::new();
    db.insert_or_update(&row(v4(1, 0, 0, 1), NodeType::Unknown, 500, true));
    db.insert_or_update(&row(v4(1, 0, 0, 2), NodeType::Core, 100, true));
    db.insert_or_update(&row(v4(1, 0, 0, 3), NodeType::LibreRelay, 1, true));
    db.insert_or_update(&row(v4(1, 0, 0, 4), NodeType::Core, 300, true));
    let pool = db.get_knots_excluding(10);
    assert_eq!(
        pool,
        vec![v4(1, 0, 0, 3), v4(1, 0, 0, 4), v4(1, 0, 0, 2), v4(1, 0, 0, 1)],
        "libre first, then core by newest last_seen, then unknown"
    );
}

#[test]
fn dial_pool_respects_limit() {
    let mut db = AddressDb::new();
    for i in 0..20 {
        db.insert_or_update(&row(v4(10, 0, 0, i), NodeType::Core, i as i64, true));
    }
    assert_eq!(db.get_knots_excluding(7).len(), 7);
}

#[test]
fn get_by_type_is_newest_first() {
    let mut db = AddressDb::new();
    db.insert_or_update(&row(v4(2, 0, 0, 1), NodeType::Core, 5, true));
    db.insert_or_update(&row(v4(2, 0, 0, 2), NodeType::Core, 50, true));
    db.insert_or_update(&row(v4(2, 0, 0, 3), NodeType::Knots, 100, true));
    let got = db.get_by_type(NodeType::Core, 10);
    assert_eq!(got, vec![v4(2, 0, 0, 2), v4(2, 0, 0, 1)]);
}

#[test]
fn get_random_filters_unreachable() {
    let mut db = AddressDb::new();
    db.insert_or_update(&row(v4(3, 0, 0, 1), NodeType::Core, 5, true));
    db.insert_or_update(&row(v4(3, 0, 0, 2), NodeType::Core, 5, false));
    db.insert_or_update(&row(v4(3, 0, 0, 3), NodeType::Knots, 5, true));
    let got = db.get_random(10);
    assert_eq!(got.len(), 2);
    assert!(!got.contains(&v4(3, 0, 0, 2)));
}

#[test]
fn prune_removes_only_old_unreachable_rows() {
    let mut db = AddressDb::new();
    db.insert_or_update(&row(v4(4, 0, 0, 1), NodeType::Core, 10, false));
    db.insert_or_update(&row(v4(4, 0, 0, 2), NodeType::Core, 10, true));
    db.insert_or_update(&row(v4(4, 0, 0, 3), NodeType::Core, 99, false));
    let removed = db.prune_old(50);
    assert_eq!(removed, 1);
    assert!(db.get_by_type(NodeType::Core, 10).contains(&v4(4, 0, 0, 2)));
}

#[test]
fn histogram_counts_reachable_rows() {
    let mut db = AddressDb::new();
    db.insert_or_update(&row(v4(5, 0, 0, 1), NodeType::Knots, 1, true));
    db.insert_or_update(&row(v4(5, 0, 0, 2), NodeType::Knots, 1, true));
    db.insert_or_update(&row(v4(5, 0, 0, 3), NodeType::Core, 1, true));
    db.insert_or_update(&row(v4(5, 0, 0, 4), NodeType::Core, 1, false));
    let counts = db.count_by_type();
    assert_eq!(counts.len(), 5);
    assert!(counts.contains(&(NodeType::Knots, 2)));
    assert!(counts.contains(&(NodeType::Core, 1)));
    assert!(counts.contains(&(NodeType::Other, 0)));
}
