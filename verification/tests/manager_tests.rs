use bitcoin::absolute::LockTime;
use bitcoin::transaction::Version;
use crab_router::discovery::handle_new_addresses;
use crab_router::peer::{endpoint_dispatch, handshake_step, EndpointAction, HandshakeState};
use crab_router::{
    AddressDb, AddressEntry, InvEntry, Message, NodeType, PeerAddr, PeerEvent, PeerHandle, PeerIp,
    PeerManager,
};

fn v4(a: u8, b: u8, c: u8, d: u8) -> PeerAddr {
    PeerAddr { ip: PeerIp::V4(a, b, c, d), port: 8333 }
}

fn handle(addr: PeerAddr, t: NodeType, agent: &[u8]) -> PeerHandle {
    PeerHandle { addr, node_type: t, user_agent: agent.to_vec() }
}

fn manager_with_peers(target: usize, peers: Vec<PeerHandle>) -> PeerManager {
    let mut m = PeerManager::new(target);
    for p in peers {
        assert!(m.adopt_peer(p));
    }
    m
}

#[test]
fn duplicate_adoption_keeps_one_entry() {
    let mut m = PeerManager::new(10);
    assert!(m.adopt_peer(handle(v4(1, 1, 1, 1), NodeType::Core, b"/a/")));
    assert!(!m.adopt_peer(handle(v4(1, 1, 1, 1), NodeType::Knots, b"/b/")));
    assert_eq!(m.peers().len(), 1);
}

#[test]
fn relay_skips_announcer_and_knots() {
    let a = v4(10, 0, 0, 1);
    let b = v4(10, 0, 0, 2);
    let c = v4(10, 0, 0, 3);
    let d = v4(10, 0, 0, 4);
    let mut m = manager_with_peers(
        10,
        vec![
            handle(a, NodeType::Core, b"/core/"),
            handle(b, NodeType::Knots, b"/knots/"),
            handle(c, NodeType::Core, b"/core/"),
            handle(d, NodeType::Core, b"/core/"),
        ],
    );
    let out = m.accept_tx(a, [0x11; 32], [0x12; 32], vec![0xaa], 0);
    let targets: Vec<PeerAddr> = out.iter().map(|o| o.to).collect();
    assert_eq!(targets, vec![c, d], "relayed to C and D, not to the announcer or Knots");
    for o in &out {
        match &o.msg {
            Message::Inv(list) => {
                assert_eq!(list.len(), 1);
                assert_eq!(list[0].kind, 1);
                assert_eq!(list[0].hash, [0x11; 32]);
            },
            other => panic!("expected Inv, got {:?}", other),
        }
    }
}

#[test]
fn second_tx_neither_relays_nor_counts() {
    let a = v4(10, 0, 0, 1);
    let e = v4(10, 0, 0, 5);
    let mut m = manager_with_peers(
        10,
        vec![handle(a, NodeType::Core, b"/core/"), handle(e, NodeType::Core, b"/core/")],
    );
    let first = m.accept_tx(a, [0x21; 32], [0x22; 32], vec![1], 0);
    assert_eq!(first.len(), 1);
    assert_eq!(m.metrics.transactions_received, 1);
    let second = m.accept_tx(e, [0x21; 32], [0x22; 32], vec![1], 5);
    assert!(second.is_empty(), "a duplicate produces no re-announcement");
    assert_eq!(m.metrics.transactions_received, 1, "and is not counted again");
}

#[test]
fn inv_requests_only_unseen_and_new_keys() {
    let a = v4(11, 0, 0, 1);
    let mut m = manager_with_peers(10, vec![handle(a, NodeType::Core, b"/core/")]);
    let inv = vec![
        InvEntry { kind: 1, hash: [0x31; 32] },
        InvEntry { kind: 2, hash: [0x99; 32] }, // a block: ignored
        InvEntry { kind: 5, hash: [0x32; 32] },
    ];
    let out = m.handle_inv(a, &inv, 0);
    assert_eq!(out.len(), 1);
    assert_eq!(out[0].to, a);
    match &out[0].msg {
        Message::GetData(list) => {
            assert_eq!(list.len(), 2);
            assert_eq!(list[0].hash, [0x31; 32]);
            assert_eq!(list[1].hash, [0x32; 32]);
        },
        other => panic!("expected GetData, got {:?}", other),
    }
    // The same announcement from a second peer is now fully suppressed.
    let b = v4(11, 0, 0, 2);
    m.adopt_peer(handle(b, NodeType::Core, b"/core/"));
    let again = m.handle_inv(b, &inv, 1);
    assert!(again.is_empty(), "no new GetData while the request is outstanding");
    assert_eq!(m.metrics.inv_messages_received, 6);
}

#[test]
fn getdata_serves_cached_transactions() {
    let a = v4(12, 0, 0, 1);
    let b = v4(12, 0, 0, 2);
    let mut m = manager_with_peers(
        10,
        vec![handle(a, NodeType::Core, b"/core/"), handle(b, NodeType::Core, b"/core/")],
    );
    m.accept_tx(a, [0x41; 32], [0x42; 32], vec![9, 9, 9], 0);
    let out = m.handle_getdata(b, &vec![
        InvEntry { kind: 1, hash: [0x41; 32] },
        InvEntry { kind: 5, hash: [0x42; 32] },
        InvEntry { kind: 1, hash: [0x43; 32] },
    ]);
    assert_eq!(out.len(), 2, "txid and wtxid lookups hit, the unknown txid does not");
    for o in &out {
        assert_eq!(o.to, b);
        match &o.msg {
            Message::Tx(bytes) => assert_eq!(bytes, &vec![9, 9, 9]),
            other => panic!("expected Tx, got {:?}", other),
        }
    }
    assert_eq!(m.metrics.transactions_relayed, 2);
}

#[test]
fn getaddr_with_seventy_five_peers_returns_fifty_strangers() {
    let requester = v4(13, 0, 0, 1);
    let mut peers = vec![handle(requester, NodeType::Core, b"/core/")];
    for i in 0..74u8 {
        peers.push(handle(v4(13, 1, i, 1), NodeType::Core, b"/core/"));
    }
    let mut m = manager_with_peers(100, peers);
    let out = m.handle_getaddr(requester, 1700000000);
    assert_eq!(out.len(), 1);
    assert_eq!(out[0].to, requester);
    match &out[0].msg {
        Message::Addr(list) => {
            assert_eq!(list.len(), 50, "exactly fifty entries");
            for e in list {
                assert_ne!(e.addr, requester, "the requester is never included");
                assert_eq!(e.services, 0);
                assert_eq!(e.timestamp, 1700000000);
            }
        },
        other => panic!("expected Addr, got {:?}", other),
    }
}

#[test]
fn filler_respects_deficit_and_exclusions() {
    let connected = v4(14, 0, 0, 1);
    let pending = v4(14, 0, 0, 2);
    let mut m = manager_with_peers(4, vec![]);
    m.adopt_peer(handle(connected, NodeType::Core, b"/core/"));
    m.begin_dial(pending);
    let mut candidates = vec![
        connected,
        pending,
        PeerAddr { ip: PeerIp::V6(0x2001, 0, 0, 0, 0, 0, 0, 1), port: 8333 },
    ];
    for i in 0..20u8 {
        candidates.push(v4(14, 1, i, 1));
    }
    let planned = m.plan_dials(&candidates);
    // deficit 3, so at most 3 + 3/2 = 4 dials
    assert!(planned.len() <= 4);
    assert!(!planned.is_empty());
    assert!(!planned.contains(&connected));
    assert!(!planned.contains(&pending));
    assert!(planned.iter().all(|a| matches!(a.ip, PeerIp::V4(..))));
    m.finish_dial(pending);
    let planned2 = m.plan_dials(&vec![pending]);
    assert_eq!(planned2, vec![pending], "a resolved dial frees the address");
}

#[test]
fn zero_deficit_plans_nothing() {
    let m = manager_with_peers(
        1,
        vec![handle(v4(15, 0, 0, 1), NodeType::Core, b"/core/")],
    );
    assert!(m.plan_dials(&vec![v4(15, 0, 0, 2)]).is_empty());
}

#[test]
fn stale_peer_is_reaped_and_gauges_updated() {
    let a = v4(16, 0, 0, 1);
    let b = v4(16, 0, 0, 2);
    let mut m = manager_with_peers(
        10,
        vec![handle(a, NodeType::Core, b"/core/"), handle(b, NodeType::Knots, b"/knots/")],
    );
    m.update_peer_counts();
    assert_eq!(m.metrics.connected_peers, 2);
    m.prune_stale_peers(&vec![a]);
    assert_eq!(m.peers().len(), 1);
    assert_eq!(m.peers()[0].addr, b);
    assert_eq!(m.metrics.connected_peers, 1);
    assert_eq!(m.metrics.knots_peers, 1);
    assert_eq!(m.metrics.core_peers, 0);
}

#[test]
fn handshake_completes_and_classifies_knots() {
    let them = v4(17, 0, 0, 1);
    let version = crab_router::message::build_version_message(
        v4(17, 0, 0, 2),
        them,
        0,
        b"/Knots:25/",
        1700000000,
        7,
    );
    let st = HandshakeState::AwaitVersion;
    // Anything but a Version is discarded first.
    let (st, acts) = handshake_step(st, &Message::Ping(1));
    assert!(acts.established.is_none() && !acts.send_verack);
    let (st, acts) = handshake_step(st, &Message::Version(version));
    assert!(acts.send_verack, "a Version answers with a Verack");
    assert!(acts.established.is_none());
    let (_, acts) = handshake_step(st, &Message::Verack);
    let peer_version = acts.established.expect("a Verack completes the handshake");
    assert_eq!(peer_version.user_agent, b"/Knots:25/".to_vec());
    let info = crab_router::peer::established_node_info(them, &peer_version, 1700000100);
    assert_eq!(info.node_type, NodeType::Knots);
    assert_eq!(info.connection_failures, 0);
    assert!(info.is_reachable);
    assert_eq!(info.last_connected, Some(1700000100));
}

#[test]
fn endpoint_answers_ping_locally() {
    let addr = v4(18, 0, 0, 1);
    match endpoint_dispatch(addr, Message::Ping(33)) {
        EndpointAction::Reply(Message::Pong(33)) => {},
        _ => panic!("expected an immediate Pong"),
    }
    match endpoint_dispatch(addr, Message::Addr(vec![])) {
        EndpointAction::Event(PeerEvent::Addresses { addr: a, addrs }) => {
            assert_eq!(a, addr);
            assert!(addrs.is_empty());
        },
        _ => panic!("expected an Addresses event"),
    }
}

#[test]
fn disconnect_event_removes_peer_and_marks_failure() {
    let a = v4(19, 0, 0, 1);
    let mut m = manager_with_peers(10, vec![handle(a, NodeType::Core, b"/core/")]);
    let mut db = AddressDb::new();
    db.insert_or_update(&crab_router::peer::established_node_info(
        a,
        &crab_router::PeerVersion {
            version: 70016,
            services: 0,
            timestamp: 0,
            user_agent: b"/core/".to_vec(),
            start_height: 0,
            relay: true,
        },
        0,
    ));
    let out = m.handle_event(
        &mut db,
        PeerEvent::Disconnected { addr: a, reason: b"closed by peer".to_vec() },
        10,
    );
    assert!(out.is_empty());
    assert!(m.peers().is_empty());
    assert_eq!(m.metrics.total_disconnections, 1);
}

#[test]
fn gossip_event_ingests_public_addresses() {
    let mut m = manager_with_peers(10, vec![]);
    let mut db = AddressDb::new();
    let public = v4(8, 8, 8, 8);
    let private = v4(192, 168, 1, 1);
    let out = m.handle_event(
        &mut db,
        PeerEvent::Addresses {
            addr: v4(20, 0, 0, 1),
            addrs: vec![
                AddressEntry { services: 1, addr: public, timestamp: 5 },
                AddressEntry { services: 1, addr: private, timestamp: 5 },
            ],
        },
        77,
    );
    assert!(out.is_empty());
    assert_eq!(m.metrics.addr_messages_received, 1);
    assert_eq!(m.metrics.nodes_discovered, 1, "only the public address is new");
    let unknowns = db.get_by_type(NodeType::Unknown, 10);
    assert_eq!(unknowns, vec![public]);
}

#[test]
fn gossip_ingest_counts_new_rows_once() {
    let mut db = AddressDb::new();
    let e = AddressEntry { services: 0, addr: v4(9, 9, 9, 9), timestamp: 0 };
    assert_eq!(handle_new_addresses(&mut db, &vec![e, e], 3), 1);
}

#[test]
fn tx_message_round_trips_through_reference_codec() {
    let tx = bitcoin::Transaction {
        version: Version::ONE,
        lock_time: LockTime::ZERO,
        input: vec![bitcoin::TxIn {
            previous_output: bitcoin::OutPoint::null(),
            script_sig: bitcoin::ScriptBuf::new(),
            sequence: bitcoin::Sequence::MAX,
            witness: bitcoin::Witness::new(),
        }],
        output: vec![bitcoin::TxOut {
            value: bitcoin::Amount::from_sat(50),
            script_pubkey: bitcoin::ScriptBuf::new(),
        }],
    };
    let bytes = bitcoin::consensus::encode::serialize(&tx);
    let txid = <bitcoin::Txid as bitcoin::hashes::Hash>::to_byte_array(tx.compute_txid());
    let announcer = v4(21, 0, 0, 1);
    let other = v4(21, 0, 0, 2);
    let mut m = manager_with_peers(
        10,
        vec![
            handle(announcer, NodeType::Core, b"/core/"),
            handle(other, NodeType::Core, b"/core/"),
        ],
    );
    let out = m.handle_message(announcer, Message::Tx(bytes), 0);
    assert_eq!(out.len(), 1);
    assert_eq!(out[0].to, other);
    match &out[0].msg {
        Message::Inv(list) => assert_eq!(list[0].hash, txid, "relays under the computed txid"),
        o => panic!("expected Inv, got {:?}", o),
    }
    assert_eq!(m.metrics.transactions_received, 1);
    assert_eq!(m.metrics.transactions_received_from_core, 1);
}

#[test]
fn agent_series_counts_peers_per_label() {
    let mut m = manager_with_peers(
        10,
        vec![
            handle(v4(22, 0, 0, 1), NodeType::Other, b"/Foo:1.0/"),
            handle(v4(22, 0, 0, 2), NodeType::Other, b"  /Foo:1.0/  "),
            handle(v4(22, 0, 0, 3), NodeType::Unknown, b"/Bar:2.0/"),
            handle(v4(22, 0, 0, 4), NodeType::Core, b"/core/"),
            handle(v4(22, 0, 0, 5), NodeType::Other, b""),
        ],
    );
    m.update_peer_counts();
    let series = &m.metrics.unclassified_agent_peers;
    assert_eq!(series.len(), 3, "one series per distinct trimmed label");
    let get = |label: &[u8]| {
        series
            .iter()
            .find(|(k, _)| k == &label.to_vec())
            .map(|(_, c)| *c)
    };
    assert_eq!(get(b"/Foo:1.0/"), Some(2), "whitespace-trimmed agents share a label");
    assert_eq!(get(b"/Bar:2.0/"), Some(1));
    assert_eq!(get(b"<missing-user-agent>"), Some(1), "blank agents get the placeholder");
    assert_eq!(m.metrics.other_peers, 4, "Other and Unknown count together");
    assert_eq!(m.metrics.core_peers, 1);
}

#[test]
fn plan_dials_takes_the_first_eligible_candidates() {
    let mut m = manager_with_peers(3, vec![]);
    m.begin_dial(v4(23, 0, 0, 2));
    let candidates = vec![
        v4(23, 0, 0, 1),
        v4(23, 0, 0, 2), // pending: skipped
        v4(23, 0, 0, 3),
        v4(23, 0, 0, 4),
        v4(23, 0, 0, 5),
        v4(23, 0, 0, 6),
    ];
    let planned = m.plan_dials(&candidates);
    // deficit 3 gives a budget of 4; the pending candidate is passed over.
    assert_eq!(
        planned,
        vec![v4(23, 0, 0, 1), v4(23, 0, 0, 3), v4(23, 0, 0, 4), v4(23, 0, 0, 5)],
        "exactly the first eligible candidates, in pool order"
    );
}

#[test]
fn gossip_ingest_records_services() {
    let mut db = AddressDb::new();
    let a = v4(24, 0, 0, 1);
    let fresh = handle_new_addresses(
        &mut db,
        &vec![AddressEntry { services: 1033, addr: a, timestamp: 7 }],
        55,
    );
    assert_eq!(fresh, 1);
    let row = db.rows.iter().find(|r| r.addr == a).expect("row was written");
    assert_eq!(row.services, Some(1033), "the entry's services are recorded");
    assert_eq!(row.node_type, NodeType::Unknown);
    assert_eq!(row.last_seen, 55);
    assert!(row.is_reachable);
}
