use chacha20poly1305::aead::{AeadCore, OsRng};
use chacha20poly1305::ChaCha20Poly1305;
use server_power_monitor::p2p::{derive_256bit_key, open_datagram, seal_datagram, FleetClusterState, P2PService};

#[derive(Debug, Clone, PartialEq)]
struct Telemetry {
    total_watts: f64,
    today_kwh: f64,
    today_cost: f64,
    alltime_kwh: f64,
    alltime_cost: f64,
}

fn telemetry(total_watts: f64, today_kwh: f64, today_cost: f64, alltime_kwh: f64, alltime_cost: f64) -> Telemetry {
    Telemetry { total_watts, today_kwh, today_cost, alltime_kwh, alltime_cost }
}

#[test]
fn test_derive_256bit_key_deterministic() {
    let key1 = derive_256bit_key("cluster_secret_key");
    let key2 = derive_256bit_key("cluster_secret_key");
    let key3 = derive_256bit_key("different_key");

    assert_eq!(key1, key2);
    assert_ne!(key1, key3);
    assert_eq!(key1.len(), 32);
}

#[test]
fn test_p2p_encryption_decryption_cycle() {
    let secret = "my_p2p_secret_key";
    let key_bytes = derive_256bit_key(secret);

    // The telemetry packet as bincode lays out its fields in order.
    let packet = (
        "RemoteServer".to_string(),
        120.0f64,
        2.50f64,
        0.75f64,
        50.0f64,
        15.0f64,
        1700000000u64,
    );

    let encoded_bytes = bincode::serialize(&packet).unwrap();
    let nonce = ChaCha20Poly1305::generate_nonce(&mut OsRng);
    let mut nonce_bytes = [0u8; 12];
    nonce_bytes.copy_from_slice(nonce.as_slice());
    let datagram = seal_datagram(&key_bytes, &nonce_bytes, &encoded_bytes).unwrap();

    let decrypted_bytes = open_datagram(&key_bytes, &datagram).unwrap();
    let decoded_packet: (String, f64, f64, f64, f64, f64, u64) = bincode::deserialize(&decrypted_bytes).unwrap();

    assert_eq!(decoded_packet.0, "RemoteServer");
    assert_eq!(decoded_packet.1, 120.0);
}

#[test]
fn test_fleet_cluster_state_totals_and_pruning() {
    let mut state: FleetClusterState<Telemetry> = FleetClusterState::new();
    let now_ts = 1000u64;

    state.insert("NodeA".to_string(), telemetry(30.0, 0.5, 0.15, 10.0, 3.0), now_ts);
    state.insert("OldNode".to_string(), telemetry(100.0, 5.0, 1.5, 200.0, 60.0), now_ts - 40);

    let (members, active_count) = state.compute_cluster_totals("LocalNode");
    let total_w: f64 = 50.0 + members.iter().map(|n| n.telemetry.total_watts).sum::<f64>();
    let _total_kwh: f64 = 1.0 + members.iter().map(|n| n.telemetry.today_kwh).sum::<f64>();
    assert_eq!(active_count, 3);
    assert_eq!(total_w, 180.0);

    state.prune_inactive_nodes(now_ts);
    assert_eq!(state.len(), 1);
    assert!(state.contains_host("NodeA"));
    assert!(!state.contains_host("OldNode"));
}

#[test]
fn cluster_totals_skip_a_record_of_the_local_host() {
    let mut state: FleetClusterState<Telemetry> = FleetClusterState::new();
    state.insert("Local".to_string(), telemetry(7.0, 0.1, 0.0, 0.0, 0.0), 10);
    state.insert("Peer".to_string(), telemetry(3.0, 0.2, 0.0, 0.0, 0.0), 10);
    let (members, active_count) = state.compute_cluster_totals("Local");
    assert_eq!(active_count, 2);
    assert_eq!(members.len(), 1);
    assert_eq!(members[0].host, "Peer");
}

#[test]
fn insert_replaces_a_known_host_in_place() {
    let mut state: FleetClusterState<Telemetry> = FleetClusterState::new();
    state.insert("A".to_string(), telemetry(1.0, 0.0, 0.0, 0.0, 0.0), 5);
    state.insert("B".to_string(), telemetry(2.0, 0.0, 0.0, 0.0, 0.0), 5);
    state.insert("A".to_string(), telemetry(9.0, 0.0, 0.0, 0.0, 0.0), 8);
    assert_eq!(state.len(), 2);
    assert_eq!(state.node(0).host, "A");
    assert_eq!(state.node(0).telemetry.total_watts, 9.0);
    assert_eq!(state.node(0).last_seen, 8);
    assert_eq!(state.node(1).host, "B");
}

#[test]
fn observe_report_ignores_own_reports_and_prunes_silent_nodes() {
    let mut state: FleetClusterState<Telemetry> = FleetClusterState::new();
    state.observe_report("Me", "Me".to_string(), telemetry(1.0, 0.0, 0.0, 0.0, 0.0), 100);
    assert_eq!(state.len(), 0);
    state.observe_report("Me", "Old".to_string(), telemetry(1.0, 0.0, 0.0, 0.0, 0.0), 100);
    state.observe_report("Me", "New".to_string(), telemetry(2.0, 0.0, 0.0, 0.0, 0.0), 131);
    assert_eq!(state.len(), 1);
    assert!(state.contains_host("New"));
    state.observe_report("Me", "Old".to_string(), telemetry(3.0, 0.0, 0.0, 0.0, 0.0), 140);
    assert_eq!(state.len(), 2);
}

#[test]
fn prune_keeps_a_node_exactly_at_the_timeout() {
    let mut state: FleetClusterState<Telemetry> = FleetClusterState::new();
    state.insert("Edge".to_string(), telemetry(1.0, 0.0, 0.0, 0.0, 0.0), 70);
    state.insert("Future".to_string(), telemetry(1.0, 0.0, 0.0, 0.0, 0.0), 200);
    state.prune_inactive_nodes(100);
    assert_eq!(state.len(), 2);
    state.prune_inactive_nodes(101);
    assert_eq!(state.len(), 1);
    assert!(state.contains_host("Future"));
}

#[test]
fn datagram_rejects_short_and_tampered_input() {
    let key = derive_256bit_key("secret");
    let nonce = [7u8; 12];
    assert!(open_datagram(&key, &[0u8; 12]).is_none());
    let mut datagram = seal_datagram(&key, &nonce, b"hello").unwrap();
    assert_eq!(datagram.len(), 12 + 5 + 16);
    assert_eq!(&datagram[..12], &nonce);
    assert_eq!(open_datagram(&key, &datagram).unwrap(), b"hello".to_vec());
    let other = derive_256bit_key("other");
    assert!(open_datagram(&other, &datagram).is_none());
    let last = datagram.len() - 1;
    datagram[last] ^= 1;
    assert!(open_datagram(&key, &datagram).is_none());
}

#[test]
fn sealing_differs_from_the_plaintext() {
    let key = derive_256bit_key("secret");
    let datagram = seal_datagram(&key, &[1u8; 12], b"plain text payload").unwrap();
    assert!(!datagram.windows(18).any(|w| w == b"plain text payload"));
}

#[test]
fn key_of_empty_secret_is_only_the_hash() {
    let key = derive_256bit_key("");
    for (i, b) in key.iter().enumerate() {
        if !(16..24).contains(&i) {
            assert_eq!(*b, 0);
        }
    }
    let folded = derive_256bit_key("a");
    assert_eq!(folded[0], b'a');
}

#[test]
fn mesh_addresses_and_key() {
    assert!(P2PService::cluster_key("").is_none());
    assert_eq!(P2PService::cluster_key("abc").unwrap(), derive_256bit_key("abc"));
    assert_eq!(P2PService::bind_address(7432), "0.0.0.0:7432");
    assert_eq!(P2PService::broadcast_target(7432), "255.255.255.255:7432");
    assert_eq!(P2PService::peer_target("192.168.1.50", 7432), "192.168.1.50:7432");
    assert_eq!(P2PService::peer_target("10.0.0.2:9000", 7432), "10.0.0.2:9000");
}
