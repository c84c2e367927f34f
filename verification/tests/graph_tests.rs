use graphshell::graph::clock::{unix_seconds_or_zero, unix_time_secs};
use graphshell::graph::{EdgeType, Graph, NodeKey, NodeLifecycle, Position};

fn pos(x: f32, y: f32) -> Position {
    Position { x: x.to_bits(), y: y.to_bits() }
}

#[test]
fn test_graph_new() {
    let graph = Graph::new();
    assert_eq!(graph.node_count(), 0);
    assert_eq!(graph.edge_count(), 0);
}

#[test]
fn test_add_node() {
    let mut graph = Graph::new();
    let key = graph.add_node("https://example.com".to_string(), pos(100.0, 200.0));
    let node = graph.get_node(key).unwrap();
    assert_eq!(node.url, "https://example.com");
    assert_eq!(node.title, "https://example.com");
    assert_eq!(f32::from_bits(node.position.x), 100.0);
    assert_eq!(f32::from_bits(node.position.y), 200.0);
    assert_eq!(f32::from_bits(node.velocity.x), 0.0);
    assert_eq!(f32::from_bits(node.velocity.y), 0.0);
    assert!(!node.is_selected);
    assert!(!node.is_pinned);
    assert_eq!(node.lifecycle, NodeLifecycle::Cold);
}

#[test]
fn test_add_multiple_nodes() {
    let mut graph = Graph::new();
    let key1 = graph.add_node("https://a.com".to_string(), pos(0.0, 0.0));
    let key2 = graph.add_node("https://b.com".to_string(), pos(1.0, 1.0));
    let key3 = graph.add_node("https://c.com".to_string(), pos(2.0, 2.0));
    assert_eq!(graph.node_count(), 3);
    assert!(graph.get_node(key1).is_some());
    assert!(graph.get_node(key2).is_some());
    assert!(graph.get_node(key3).is_some());
}

#[test]
fn test_get_node_by_url() {
    let mut graph = Graph::new();
    graph.add_node("https://example.com".to_string(), pos(0.0, 0.0));
    let (_, node) = graph.get_node_by_url("https://example.com").unwrap();
    assert_eq!(node.url, "https://example.com");
    assert!(graph.get_node_by_url("https://notfound.com").is_none());
}

#[test]
fn test_get_node_mut() {
    let mut graph = Graph::new();
    let key = graph.add_node("https://example.com".to_string(), pos(0.0, 0.0));
    {
        let node = graph.get_node_mut(key).unwrap();
        node.position = pos(100.0, 200.0);
        node.is_selected = true;
        node.is_pinned = true;
    }
    let node = graph.get_node(key).unwrap();
    assert_eq!(f32::from_bits(node.position.x), 100.0);
    assert_eq!(f32::from_bits(node.position.y), 200.0);
    assert!(node.is_selected);
    assert!(node.is_pinned);
}

#[test]
fn test_add_edge() {
    let mut graph = Graph::new();
    let node1 = graph.add_node("https://a.com".to_string(), pos(0.0, 0.0));
    let node2 = graph.add_node("https://b.com".to_string(), pos(1.0, 1.0));
    graph.add_edge(node1, node2, EdgeType::Hyperlink).unwrap();
    assert!(graph.has_edge_between(node1, node2));
    assert!(!graph.has_edge_between(node2, node1));
    assert_eq!(graph.out_neighbors(node1).len(), 1);
    assert_eq!(graph.in_neighbors(node2).len(), 1);
}

#[test]
fn test_add_edge_invalid_nodes() {
    let mut graph = Graph::new();
    let node1 = graph.add_node("https://a.com".to_string(), pos(0.0, 0.0));
    let invalid_key = NodeKey::new(999);
    assert!(graph.add_edge(invalid_key, node1, EdgeType::Hyperlink).is_none());
    assert!(graph.add_edge(node1, invalid_key, EdgeType::Hyperlink).is_none());
}

#[test]
fn test_add_multiple_edges() {
    let mut graph = Graph::new();
    let node1 = graph.add_node("https://a.com".to_string(), pos(0.0, 0.0));
    let node2 = graph.add_node("https://b.com".to_string(), pos(1.0, 1.0));
    let node3 = graph.add_node("https://c.com".to_string(), pos(2.0, 2.0));
    graph.add_edge(node1, node2, EdgeType::Hyperlink).unwrap();
    graph.add_edge(node1, node3, EdgeType::Hyperlink).unwrap();
    graph.add_edge(node2, node3, EdgeType::Hyperlink).unwrap();
    assert_eq!(graph.edge_count(), 3);
    assert_eq!(graph.out_neighbors(node1).len(), 2);
    assert_eq!(graph.in_neighbors(node3).len(), 2);
}

#[test]
fn test_remove_node() {
    let mut graph = Graph::new();
    let n1 = graph.add_node("https://a.com".to_string(), pos(0.0, 0.0));
    let n2 = graph.add_node("https://b.com".to_string(), pos(1.0, 1.0));
    graph.add_edge(n1, n2, EdgeType::Hyperlink);
    assert_eq!(graph.node_count(), 2);
    assert_eq!(graph.edge_count(), 1);
    assert!(graph.remove_node(n1));
    assert_eq!(graph.node_count(), 1);
    assert_eq!(graph.edge_count(), 0);
    assert!(graph.get_node(n1).is_none());
    assert!(graph.get_node_by_url("https://a.com").is_none());
    assert!(graph.get_node(n2).is_some());
}

#[test]
fn test_remove_nonexistent_node() {
    let mut graph = Graph::new();
    assert!(!graph.remove_node(NodeKey::new(999)));
}

#[test]
fn test_nodes_iterator() {
    let mut graph = Graph::new();
    graph.add_node("https://a.com".to_string(), pos(0.0, 0.0));
    graph.add_node("https://b.com".to_string(), pos(1.0, 1.0));
    graph.add_node("https://c.com".to_string(), pos(2.0, 2.0));
    let urls: Vec<String> = graph.nodes().into_iter().map(|(_, n)| n.url.clone()).collect();
    assert_eq!(urls.len(), 3);
    assert!(urls.contains(&"https://a.com".to_string()));
    assert!(urls.contains(&"https://b.com".to_string()));
    assert!(urls.contains(&"https://c.com".to_string()));
}

#[test]
fn test_edges_iterator() {
    let mut graph = Graph::new();
    let node1 = graph.add_node("https://a.com".to_string(), pos(0.0, 0.0));
    let node2 = graph.add_node("https://b.com".to_string(), pos(1.0, 1.0));
    let node3 = graph.add_node("https://c.com".to_string(), pos(2.0, 2.0));
    graph.add_edge(node1, node2, EdgeType::Hyperlink);
    graph.add_edge(node1, node3, EdgeType::Hyperlink);
    let edge_count = graph.edges().len();
    assert_eq!(edge_count, 2);
    let edge_types: Vec<EdgeType> = graph.edges().into_iter().map(|e| e.edge_type).collect();
    assert!(edge_types.iter().all(|&t| t == EdgeType::Hyperlink));
}

#[test]
fn test_node_lifecycle_default() {
    let mut graph = Graph::new();
    let key = graph.add_node("https://example.com".to_string(), pos(0.0, 0.0));
    let node = graph.get_node(key).unwrap();
    assert_eq!(node.lifecycle, NodeLifecycle::Cold);
}

#[test]
fn test_empty_graph_operations() {
    let graph = Graph::new();
    assert_eq!(graph.node_count(), 0);
    assert_eq!(graph.edge_count(), 0);
    assert!(graph.get_node_by_url("https://example.com").is_none());
    let invalid_key = NodeKey::new(999);
    assert!(graph.get_node(invalid_key).is_none());
}

#[test]
fn test_node_count() {
    let mut graph = Graph::new();
    assert_eq!(graph.node_count(), 0);
    graph.add_node("https://a.com".to_string(), pos(0.0, 0.0));
    assert_eq!(graph.node_count(), 1);
    graph.add_node("https://b.com".to_string(), pos(1.0, 1.0));
    assert_eq!(graph.node_count(), 2);
}

#[test]
fn test_edge_count() {
    let mut graph = Graph::new();
    let node1 = graph.add_node("https://a.com".to_string(), pos(0.0, 0.0));
    let node2 = graph.add_node("https://b.com".to_string(), pos(1.0, 1.0));
    assert_eq!(graph.edge_count(), 0);
    graph.add_edge(node1, node2, EdgeType::Hyperlink);
    assert_eq!(graph.edge_count(), 1);
    graph.add_edge(node2, node1, EdgeType::Hyperlink);
    assert_eq!(graph.edge_count(), 2);
}

#[test]
fn test_snapshot_roundtrip() {
    let mut graph = Graph::new();
    let n1 = graph.add_node("https://a.com".to_string(), pos(10.0, 20.0));
    let n2 = graph.add_node("https://b.com".to_string(), pos(30.0, 40.0));
    graph.add_edge(n1, n2, EdgeType::Hyperlink);
    graph.get_node_mut(n1).unwrap().title = "Site A".to_string();
    graph.get_node_mut(n2).unwrap().is_pinned = true;
    let snapshot = graph.to_snapshot();
    let restored = Graph::from_snapshot(&snapshot);
    assert_eq!(restored.node_count(), 2);
    assert_eq!(restored.edge_count(), 1);
    let (_, ra) = restored.get_node_by_url("https://a.com").unwrap();
    assert_eq!(ra.title, "Site A");
    assert_eq!(f32::from_bits(ra.position.x), 10.0);
    assert_eq!(f32::from_bits(ra.position.y), 20.0);
    let (_, rb) = restored.get_node_by_url("https://b.com").unwrap();
    assert!(rb.is_pinned);
    assert_eq!(f32::from_bits(rb.position.x), 30.0);
}

#[test]
fn test_snapshot_empty_graph() {
    let graph = Graph::new();
    let snapshot = graph.to_snapshot();
    let restored = Graph::from_snapshot(&snapshot);
    assert_eq!(restored.node_count(), 0);
    assert_eq!(restored.edge_count(), 0);
}

#[test]
fn test_snapshot_preserves_edge_types() {
    let mut graph = Graph::new();
    let n1 = graph.add_node("https://a.com".to_string(), pos(0.0, 0.0));
    let n2 = graph.add_node("https://b.com".to_string(), pos(100.0, 0.0));
    graph.add_edge(n1, n2, EdgeType::Hyperlink);
    graph.add_edge(n2, n1, EdgeType::History);
    let snapshot = graph.to_snapshot();
    let restored = Graph::from_snapshot(&snapshot);
    assert_eq!(restored.edge_count(), 2);
    let edges = restored.edges();
    let has_hyperlink = edges.iter().any(|e| e.edge_type == EdgeType::Hyperlink);
    let has_history = edges.iter().any(|e| e.edge_type == EdgeType::History);
    assert!(has_hyperlink);
    assert!(has_history);
}

#[test]
fn test_snapshot_keeps_identity_history_and_images() {
    let mut graph = Graph::new();
    let key = graph.add_node_with_id(42, "https://id.com".to_string(), pos(1.0, 2.0));
    {
        let node = graph.get_node_mut(key).unwrap();
        node.history_entries = vec!["https://id.com".to_string(), "https://id.com/2".to_string()];
        node.history_index = 1;
        node.thumbnail_png = Some(vec![1, 2, 3]);
        node.thumbnail_width = 4;
        node.thumbnail_height = 5;
        node.favicon_rgba = Some(vec![9, 9, 9, 9]);
        node.favicon_width = 1;
        node.favicon_height = 1;
    }
    let snapshot = graph.to_snapshot();
    assert_eq!(snapshot.nodes.len(), 1);
    assert_eq!(snapshot.nodes[0].node_id, "00000000-0000-0000-0000-00000000002a");
    let restored = Graph::from_snapshot(&snapshot);
    let (_, node) = restored.get_node_by_id(42).unwrap();
    assert_eq!(node.history_entries.len(), 2);
    assert_eq!(node.history_index, 1);
    assert_eq!(node.thumbnail_png, Some(vec![1, 2, 3]));
    assert_eq!((node.thumbnail_width, node.thumbnail_height), (4, 5));
    assert_eq!(node.favicon_rgba, Some(vec![9, 9, 9, 9]));
}

#[test]
fn test_from_snapshot_skips_unreadable_and_repeated_identities() {
    let mut graph = Graph::new();
    graph.add_node_with_id(7, "https://first.com".to_string(), pos(0.0, 0.0));
    let mut snapshot = graph.to_snapshot();
    let mut repeated = graph.to_snapshot().nodes.remove(0);
    repeated.url = "https://second.com".to_string();
    snapshot.nodes.push(repeated);
    let mut unreadable = graph.to_snapshot().nodes.remove(0);
    unreadable.node_id = "not-a-uuid".to_string();
    unreadable.url = "https://bad.com".to_string();
    snapshot.nodes.push(unreadable);
    let restored = Graph::from_snapshot(&snapshot);
    assert_eq!(restored.node_count(), 1);
    assert!(restored.get_node_by_url("https://first.com").is_some());
    assert!(restored.get_node_by_url("https://second.com").is_none());
    assert!(restored.get_node_by_url("https://bad.com").is_none());
}

#[test]
fn test_update_node_url_moves_index() {
    let mut graph = Graph::new();
    let key = graph.add_node("https://old.com".to_string(), pos(0.0, 0.0));
    assert_eq!(graph.update_node_url(key, "https://new.com".to_string()), Some("https://old.com".to_string()));
    assert!(graph.get_node_by_url("https://old.com").is_none());
    assert_eq!(graph.get_node_by_url("https://new.com").unwrap().0, key);
    assert_eq!(graph.update_node_url(NodeKey::new(77), "x".to_string()), None);
}

#[test]
fn test_node_keys_are_increasing() {
    let mut graph = Graph::new();
    let a = graph.add_node("a".to_string(), pos(0.0, 0.0));
    let b = graph.add_node("b".to_string(), pos(0.0, 0.0));
    let c = graph.add_node("c".to_string(), pos(0.0, 0.0));
    graph.remove_node(b);
    assert_eq!(graph.node_keys(), vec![a, c]);
}

#[test]
fn test_unix_seconds_fall_back_to_zero() {
    assert_eq!(unix_seconds_or_zero(Some(1_700_000_000)), 1_700_000_000);
    assert_eq!(unix_seconds_or_zero(None), 0);
    assert!(unix_time_secs() > 1_600_000_000);
}
