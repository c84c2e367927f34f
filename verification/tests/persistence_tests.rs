use graphshell::graph::{EdgeType, Graph, Position};
use graphshell::persistence::keys::{log_key, log_key_sequence, max_log_sequence};
use graphshell::persistence::replay::{recover_graph, replay_log};
use graphshell::persistence::types::{LogEntry, PersistedEdgeType};
use graphshell::persistence::{snapshot_due, validate_snapshot_interval, GraphStoreError, DEFAULT_SNAPSHOT_INTERVAL_SECS};

fn node_id_to_string(id: u128) -> String {
    uuid::Uuid::from_u128(id).to_string()
}

fn pos(x: f32, y: f32) -> Position {
    Position { x: x.to_bits(), y: y.to_bits() }
}

fn add(id: u128, url: &str, x: f32, y: f32) -> LogEntry {
    LogEntry::AddNode { node_id: node_id_to_string(id), url: url.to_string(), position_x: x.to_bits(), position_y: y.to_bits() }
}

#[test]
fn test_empty_startup() {
    let recovered = recover_graph(None, &Vec::new());
    assert!(recovered.is_none());
}

#[test]
fn test_log_and_recover() {
    let entries = vec![
        add(1, "https://a.com", 10.0, 20.0),
        add(2, "https://b.com", 30.0, 40.0),
        LogEntry::AddEdge { from_node_id: node_id_to_string(1), to_node_id: node_id_to_string(2), edge_type: PersistedEdgeType::Hyperlink },
    ];
    let graph = recover_graph(None, &entries).unwrap();
    assert_eq!(graph.node_count(), 2);
    assert_eq!(graph.edge_count(), 1);
    let (_, a) = graph.get_node_by_url("https://a.com").unwrap();
    assert_eq!(f32::from_bits(a.position.x), 10.0);
    assert_eq!(f32::from_bits(a.position.y), 20.0);
}

#[test]
fn test_snapshot_and_recover() {
    let mut graph = Graph::new();
    graph.add_node("https://a.com".to_string(), pos(100.0, 200.0));
    graph.add_node("https://b.com".to_string(), pos(300.0, 400.0));
    let (n1, _) = graph.get_node_by_url("https://a.com").unwrap();
    let (n2, _) = graph.get_node_by_url("https://b.com").unwrap();
    graph.add_edge(n1, n2, EdgeType::Hyperlink);
    let snapshot = graph.to_snapshot();
    let recovered = recover_graph(Some(&snapshot), &Vec::new()).unwrap();
    assert_eq!(recovered.node_count(), 2);
    assert_eq!(recovered.edge_count(), 1);
}

#[test]
fn test_snapshot_plus_log_recovery() {
    let mut graph = Graph::new();
    graph.add_node("https://a.com".to_string(), pos(0.0, 0.0));
    let snapshot = graph.to_snapshot();
    let entries = vec![add(2, "https://b.com", 50.0, 50.0)];
    let recovered = recover_graph(Some(&snapshot), &entries).unwrap();
    assert_eq!(recovered.node_count(), 2);
    assert!(recovered.get_node_by_url("https://a.com").is_some());
    assert!(recovered.get_node_by_url("https://b.com").is_some());
}

#[test]
fn test_duplicate_url_supported_with_distinct_ids() {
    let entries = vec![add(1, "https://a.com", 0.0, 0.0), add(2, "https://a.com", 100.0, 100.0)];
    let graph = recover_graph(None, &entries).unwrap();
    assert_eq!(graph.node_count(), 2);
}

#[test]
fn test_log_title_update() {
    let entries = vec![
        add(1, "https://a.com", 0.0, 0.0),
        LogEntry::UpdateNodeTitle { node_id: node_id_to_string(1), title: "My Site".to_string() },
    ];
    let graph = recover_graph(None, &entries).unwrap();
    let (_, node) = graph.get_node_by_url("https://a.com").unwrap();
    assert_eq!(node.title, "My Site");
}

#[test]
fn test_log_remove_node_recover() {
    let entries = vec![
        add(1, "https://a.com", 0.0, 0.0),
        add(2, "https://b.com", 100.0, 100.0),
        LogEntry::RemoveNode { node_id: node_id_to_string(1) },
    ];
    let graph = recover_graph(None, &entries).unwrap();
    assert_eq!(graph.node_count(), 1);
    assert!(graph.get_node_by_url("https://a.com").is_none());
    assert!(graph.get_node_by_url("https://b.com").is_some());
}

#[test]
fn test_log_clear_graph_recover() {
    let entries = vec![add(1, "https://a.com", 0.0, 0.0), add(2, "https://b.com", 100.0, 100.0), LogEntry::ClearGraph];
    let recovered = recover_graph(None, &entries);
    assert!(recovered.is_none());
}

#[test]
fn test_log_clear_then_add_recover() {
    let entries = vec![add(1, "https://old.com", 0.0, 0.0), LogEntry::ClearGraph, add(2, "https://new.com", 50.0, 50.0)];
    let graph = recover_graph(None, &entries).unwrap();
    assert_eq!(graph.node_count(), 1);
    assert!(graph.get_node_by_url("https://old.com").is_none());
    assert!(graph.get_node_by_url("https://new.com").is_some());
}

#[test]
fn test_log_update_node_url_recover() {
    let entries = vec![
        add(1, "https://old.com", 10.0, 20.0),
        LogEntry::UpdateNodeUrl { node_id: node_id_to_string(1), new_url: "https://new.com".to_string() },
    ];
    let graph = recover_graph(None, &entries).unwrap();
    assert_eq!(graph.node_count(), 1);
    assert!(graph.get_node_by_url("https://old.com").is_none());
    let (_, node) = graph.get_node_by_url("https://new.com").unwrap();
    assert_eq!(f32::from_bits(node.position.x), 10.0);
    assert_eq!(f32::from_bits(node.position.y), 20.0);
}

#[test]
fn test_uuid_log_replay_resolves_by_id_not_url() {
    let entries = vec![
        add(1, "https://same.com", 0.0, 0.0),
        add(2, "https://same.com", 100.0, 0.0),
        LogEntry::UpdateNodeUrl { node_id: node_id_to_string(1), new_url: "https://updated-a.com".to_string() },
    ];
    let graph = recover_graph(None, &entries).unwrap();
    let (_, node_a) = graph.get_node_by_id(1).unwrap();
    let (_, node_b) = graph.get_node_by_id(2).unwrap();
    assert_eq!(node_a.url, "https://updated-a.com");
    assert_eq!(node_b.url, "https://same.com");
}

#[test]
fn test_remove_nonexistent_node_noop() {
    let entries = vec![add(1, "https://a.com", 0.0, 0.0), LogEntry::RemoveNode { node_id: node_id_to_string(9) }];
    let graph = recover_graph(None, &entries).unwrap();
    assert_eq!(graph.node_count(), 1);
}

#[test]
fn test_set_snapshot_interval_secs() {
    assert_eq!(validate_snapshot_interval(42).unwrap(), 42);
}

#[test]
fn test_set_snapshot_interval_secs_rejects_zero() {
    let refused = validate_snapshot_interval(0);
    assert!(refused.is_err());
    assert_eq!(DEFAULT_SNAPSHOT_INTERVAL_SECS, 300);
    match refused {
        Err(e) => assert_eq!(e.message(), "IO error: Snapshot interval must be greater than zero seconds"),
        Ok(_) => panic!("zero must be refused"),
    }
}

#[test]
fn test_recover_skips_invalid_uuid_log_entries() {
    let entries = vec![
        LogEntry::AddNode { node_id: "not-a-uuid".to_string(), url: "https://bad.com".to_string(), position_x: 0, position_y: 0 },
        add(2, "https://good.com", 3.0, 4.0),
    ];
    let graph = recover_graph(None, &entries).unwrap();
    assert_eq!(graph.node_count(), 1);
    assert!(graph.get_node_by_url("https://good.com").is_some());
    assert!(graph.get_node_by_url("https://bad.com").is_none());
}

#[test]
fn test_recover_with_corrupt_snapshot_replays_log_only() {
    let entries = vec![add(5, "https://from-log.com", 9.0, 9.0)];
    let graph = recover_graph(None, &entries).unwrap();
    assert_eq!(graph.node_count(), 1);
    assert!(graph.get_node_by_url("https://from-log.com").is_some());
}

#[test]
fn test_recover_with_corrupt_snapshot_and_empty_log_returns_none() {
    assert!(recover_graph(None, &Vec::new()).is_none());
}

#[test]
fn test_replay_pin_and_repeated_add() {
    let mut graph = Graph::new();
    replay_log(&mut graph, &vec![
        add(1, "https://a.com", 0.0, 0.0),
        add(1, "https://again.com", 5.0, 5.0),
        LogEntry::PinNode { node_id: node_id_to_string(1), is_pinned: true },
        LogEntry::AddEdge { from_node_id: node_id_to_string(1), to_node_id: node_id_to_string(3), edge_type: PersistedEdgeType::History },
    ]);
    assert_eq!(graph.node_count(), 1);
    assert_eq!(graph.edge_count(), 0);
    let (_, node) = graph.get_node_by_id(1).unwrap();
    assert!(node.is_pinned);
    assert_eq!(node.url, "https://a.com");
}

#[test]
fn test_log_keys_are_big_endian_sequence_numbers() {
    assert_eq!(log_key(1), vec![0, 0, 0, 0, 0, 0, 0, 1]);
    assert_eq!(log_key(0x0102030405060708), 0x0102030405060708u64.to_be_bytes().to_vec());
    assert_eq!(log_key_sequence(&log_key(u64::MAX)), Some(u64::MAX));
    assert_eq!(log_key_sequence(&vec![1, 2, 3]), None);
}

#[test]
fn test_max_log_sequence_ignores_other_keys() {
    assert_eq!(max_log_sequence(&Vec::new()), 0);
    let keys = vec![log_key(3), vec![0xff, 0xff], log_key(17), log_key(2)];
    assert_eq!(max_log_sequence(&keys), 17);
}

#[test]
fn test_store_error_messages() {
    assert_eq!(GraphStoreError::Fjall("x".to_string()).message(), "Fjall error: x");
    assert_eq!(GraphStoreError::Redb("y".to_string()).message(), "Redb error: y");
    assert_eq!(GraphStoreError::Io("z".to_string()).message(), "IO error: z");
}

#[test]
fn test_snapshot_due_at_interval() {
    assert!(!snapshot_due(299, 300));
    assert!(snapshot_due(300, 300));
}

#[test]
fn test_identity_text_is_read_in_any_case() {
    let entries = vec![
        LogEntry::AddNode { node_id: "00000000-0000-0000-0000-00000000000A".to_string(), url: "https://upper.com".to_string(), position_x: 0, position_y: 0 },
        LogEntry::UpdateNodeTitle { node_id: node_id_to_string(10), title: "Upper".to_string() },
    ];
    let graph = recover_graph(None, &entries).unwrap();
    let (_, node) = graph.get_node_by_id(10).unwrap();
    assert_eq!(node.title, "Upper");
}

#[test]
fn test_log_keys_sort_in_write_order() {
    assert!(log_key(1) < log_key(2));
    assert!(log_key(255) < log_key(256));
    assert!(log_key(0x00ff_ffff_ffff_ffff) < log_key(0x0100_0000_0000_0000));
}
