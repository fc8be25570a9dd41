use crab_router::RelayState;

#[test]
fn mark_seen_is_idempotent() {
    let mut rs = RelayState::new();
    assert!(rs.mark_seen([0x11; 32]));
    assert!(!rs.mark_seen([0x11; 32]));
    assert!(rs.mark_seen([0x22; 32]));
}

#[test]
fn mark_requested_skips_seen_keys() {
    let mut rs = RelayState::new();
    rs.mark_seen([0x11; 32]);
    assert!(!rs.mark_requested([0x11; 32], 0));
    assert!(rs.mark_requested([0x22; 32], 0));
}

#[test]
fn requested_key_suppresses_duplicates_until_ttl() {
    let mut rs = RelayState::new();
    assert!(rs.mark_requested([0x33; 32], 1000));
    assert!(!rs.mark_requested([0x33; 32], 1060), "still outstanding before the TTL");
    assert!(!rs.mark_requested([0x33; 32], 1119), "one second before expiry");
    assert!(rs.mark_requested([0x33; 32], 1120), "eligible again at t + 120");
}

#[test]
fn completed_request_is_forgotten() {
    let mut rs = RelayState::new();
    rs.mark_requested([0x44; 32], 0);
    rs.complete_request(&[0x44; 32]);
    assert!(rs.mark_requested([0x44; 32], 1), "clearing the request allows a new one");
}

#[test]
fn cache_lookup_by_txid_and_wtxid() {
    let mut rs = RelayState::new();
    rs.insert_tx([0x55; 32], [0x66; 32], vec![1, 2, 3]);
    assert_eq!(rs.get_tx(&[0x55; 32]), Some(vec![1, 2, 3]));
    assert_eq!(rs.get_tx_by_wtxid(&[0x66; 32]), Some(vec![1, 2, 3]));
    assert_eq!(rs.get_tx(&[0x77; 32]), None);
    assert_eq!(rs.get_tx_by_wtxid(&[0x55; 32]), None);
}

#[test]
fn cleanup_drops_only_stale_requests() {
    let mut rs = RelayState::new();
    rs.mark_requested([0x01; 32], 0);
    rs.mark_requested([0x02; 32], 100);
    rs.cleanup_requested(130);
    assert!(!rs.mark_requested([0x02; 32], 130), "fresh request kept");
    assert!(rs.mark_requested([0x01; 32], 130), "stale request dropped");
}
