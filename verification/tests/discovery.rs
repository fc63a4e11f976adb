use p2p_articles::discovery::{dedup_peers, DiscoveryState};

fn peers_of(state: &DiscoveryState) -> Vec<String> {
    state.view_peers()
}

#[test]
fn discovered_peer_joins_the_view_once() {
    let mut state = DiscoveryState::new();
    state.on_discovered("p1".to_string(), "addr1".to_string());
    state.on_discovered("p1".to_string(), "addr2".to_string());
    let peers = peers_of(&state);
    assert_eq!(peers, vec!["p1".to_string()]);
}

#[test]
fn multihomed_peer_survives_single_address_expiry() {
    let mut state = DiscoveryState::new();
    state.on_discovered("p1".to_string(), "addr1".to_string());
    state.on_discovered("p1".to_string(), "addr2".to_string());
    state.on_expired(&"p1".to_string(), &"addr1".to_string());
    assert_eq!(peers_of(&state), vec!["p1".to_string()]);
    state.on_expired(&"p1".to_string(), &"addr2".to_string());
    assert!(peers_of(&state).is_empty());
}

#[test]
fn expiry_of_unknown_address_changes_nothing() {
    let mut state = DiscoveryState::new();
    state.on_discovered("p1".to_string(), "addr1".to_string());
    state.on_expired(&"p1".to_string(), &"other".to_string());
    state.on_expired(&"p2".to_string(), &"addr1".to_string());
    assert_eq!(peers_of(&state), vec!["p1".to_string()]);
}

#[test]
fn two_peers_expire_independently() {
    let mut state = DiscoveryState::new();
    state.on_discovered("p1".to_string(), "addr1".to_string());
    state.on_discovered("p2".to_string(), "addr2".to_string());
    state.on_expired(&"p1".to_string(), &"addr1".to_string());
    assert_eq!(peers_of(&state), vec!["p2".to_string()]);
}

#[test]
fn rediscovered_peer_rejoins_the_view() {
    let mut state = DiscoveryState::new();
    state.on_discovered("p1".to_string(), "addr1".to_string());
    state.on_expired(&"p1".to_string(), &"addr1".to_string());
    assert!(peers_of(&state).is_empty());
    state.on_discovered("p1".to_string(), "addr3".to_string());
    assert_eq!(peers_of(&state), vec!["p1".to_string()]);
}

#[test]
fn dedup_keeps_each_peer_once() {
    let snapshot = vec![
        "a".to_string(),
        "b".to_string(),
        "a".to_string(),
        "c".to_string(),
        "b".to_string(),
    ];
    let unique = dedup_peers(&snapshot);
    assert_eq!(unique, vec!["a".to_string(), "b".to_string(), "c".to_string()]);
}

#[test]
fn dedup_of_unique_snapshot_is_identity() {
    let snapshot = vec!["a".to_string(), "b".to_string()];
    assert_eq!(dedup_peers(&snapshot), snapshot);
}
