use graphshell::app::{GraphBrowserApp, GraphIntent, StoreRequest, WebViewId};
use graphshell::graph::{Graph, NodeKey, NodeLifecycle, Position};
use graphshell::persistence::replay::recover_graph;
use graphshell::persistence::types::{LogEntry, PersistedEdgeType};

fn node_id_to_string(id: u128) -> String {
    uuid::Uuid::from_u128(id).to_string()
}

fn pos(x: f32, y: f32) -> Position {
    Position { x: x.to_bits(), y: y.to_bits() }
}

fn batch(intents: Vec<GraphIntent>) -> Vec<(GraphIntent, Position)> {
    intents.into_iter().map(|i| (i, pos(400.0, 300.0))).collect()
}

fn wv(n: u64) -> WebViewId {
    WebViewId::new(n)
}

fn add_node_entry(id: u128, url: &str, x: f32, y: f32) -> LogEntry {
    LogEntry::AddNode { node_id: node_id_to_string(id), url: url.to_string(), position_x: x.to_bits(), position_y: y.to_bits() }
}

fn app_from_log(entries: Vec<LogEntry>) -> GraphBrowserApp {
    let graph = recover_graph(None, &entries).unwrap_or_else(Graph::new);
    GraphBrowserApp::with_graph(graph, true, true)
}

#[test]
fn test_select_node_marks_selection_state() {
    let mut app = GraphBrowserApp::new_for_testing();
    let node_key = app.graph.add_node("test".to_string(), pos(100.0, 100.0));
    app.select_node(node_key, false);
    assert!(app.selected_nodes.contains(&node_key));
}

#[test]
fn test_request_fit_to_screen() {
    let mut app = GraphBrowserApp::new_for_testing();
    assert!(!app.fit_to_screen_requested);
    app.request_fit_to_screen();
    assert!(app.fit_to_screen_requested);
    app.fit_to_screen_requested = false;
    assert!(!app.fit_to_screen_requested);
}

#[test]
fn test_select_node_single() {
    let mut app = GraphBrowserApp::new_for_testing();
    let key = app.graph.add_node("test".to_string(), pos(0.0, 0.0));
    app.select_node(key, false);
    assert_eq!(app.selected_nodes.len(), 1);
    assert!(app.selected_nodes.contains(&key));
}

#[test]
fn test_select_node_multi() {
    let mut app = GraphBrowserApp::new_for_testing();
    let key1 = app.graph.add_node("a".to_string(), pos(0.0, 0.0));
    let key2 = app.graph.add_node("b".to_string(), pos(100.0, 0.0));
    app.select_node(key1, false);
    app.select_node(key2, true);
    assert_eq!(app.selected_nodes.len(), 2);
    assert!(app.selected_nodes.contains(&key1));
    assert!(app.selected_nodes.contains(&key2));
}

#[test]
fn test_selection_revision_increments_on_change() {
    let mut app = GraphBrowserApp::new_for_testing();
    let key1 = app.graph.add_node("a".to_string(), pos(0.0, 0.0));
    let key2 = app.graph.add_node("b".to_string(), pos(1.0, 0.0));
    let rev0 = app.selected_nodes.revision();
    app.select_node(key1, false);
    let rev1 = app.selected_nodes.revision();
    assert!(rev1 > rev0);
    app.select_node(key1, false);
    let rev2 = app.selected_nodes.revision();
    assert_eq!(rev2, rev1);
    app.select_node(key2, true);
    let rev3 = app.selected_nodes.revision();
    assert!(rev3 > rev2);
}

#[test]
fn test_intent_webview_created_links_parent_and_selects_child() {
    let mut app = GraphBrowserApp::new_for_testing();
    let parent = app.graph.add_node("https://parent.com".into(), pos(10.0, 20.0));
    let parent_wv = wv(1);
    let child_wv = wv(2);
    app.map_webview_to_node(parent_wv, parent);
    let edges_before = app.graph.edge_count();
    app.apply_intents(batch(vec![GraphIntent::WebViewCreated {
        parent_webview_id: parent_wv,
        child_webview_id: child_wv,
        initial_url: Some("https://child.com".into()),
    }]));
    assert_eq!(app.graph.edge_count(), edges_before + 1);
    let child = app.get_node_for_webview(child_wv).unwrap();
    assert_eq!(app.get_single_selected_node(), Some(child));
    assert_eq!(app.graph.get_node(child).unwrap().url, "https://child.com");
}

#[test]
fn test_intent_webview_created_about_blank_uses_placeholder() {
    let mut app = GraphBrowserApp::new_for_testing();
    let child_wv = wv(2);
    app.apply_intents(batch(vec![GraphIntent::WebViewCreated {
        parent_webview_id: wv(1),
        child_webview_id: child_wv,
        initial_url: Some("about:blank".into()),
    }]));
    let child = app.get_node_for_webview(child_wv).unwrap();
    assert!(app.graph.get_node(child).unwrap().url.starts_with("about:blank#"));
}

#[test]
fn test_intent_webview_url_changed_updates_existing_mapping() {
    let mut app = GraphBrowserApp::new_for_testing();
    let key = app.graph.add_node("https://before.com".into(), pos(0.0, 0.0));
    let w = wv(1);
    app.map_webview_to_node(w, key);
    app.apply_intents(batch(vec![GraphIntent::WebViewUrlChanged { webview_id: w, new_url: "https://after.com".into() }]));
    assert_eq!(app.graph.get_node(key).unwrap().url, "https://after.com");
    assert_eq!(app.get_node_for_webview(w), Some(key));
}

#[test]
fn test_intent_webview_url_changed_creates_mapping_when_missing() {
    let mut app = GraphBrowserApp::new_for_testing();
    let w = wv(1);
    let before = app.graph.node_count();
    app.apply_intents(batch(vec![GraphIntent::WebViewUrlChanged { webview_id: w, new_url: "https://newly-mapped.com".into() }]));
    assert_eq!(app.graph.node_count(), before + 1);
    let key = app.get_node_for_webview(w).unwrap();
    assert_eq!(app.graph.get_node(key).unwrap().url, "https://newly-mapped.com");
}

#[test]
fn test_intent_webview_history_changed_clamps_index() {
    let mut app = GraphBrowserApp::new_for_testing();
    let key = app.graph.add_node("https://a.com".into(), pos(0.0, 0.0));
    let w = wv(1);
    app.map_webview_to_node(w, key);
    app.apply_intents(batch(vec![GraphIntent::WebViewHistoryChanged {
        webview_id: w,
        entries: vec!["https://a.com".into(), "https://b.com".into()],
        current: 99,
    }]));
    let node = app.graph.get_node(key).unwrap();
    assert_eq!(node.history_entries.len(), 2);
    assert_eq!(node.history_index, 1);
}

#[test]
fn test_intent_webview_title_changed_updates_and_ignores_empty() {
    let mut app = GraphBrowserApp::new_for_testing();
    let key = app.graph.add_node("https://title.com".into(), pos(0.0, 0.0));
    let w = wv(1);
    app.map_webview_to_node(w, key);
    let title_before = app.graph.get_node(key).unwrap().title.clone();
    app.apply_intents(batch(vec![GraphIntent::WebViewTitleChanged { webview_id: w, title: Some("".into()) }]));
    assert_eq!(app.graph.get_node(key).unwrap().title, title_before);
    app.apply_intents(batch(vec![GraphIntent::WebViewTitleChanged { webview_id: w, title: Some("Hello".into()) }]));
    assert_eq!(app.graph.get_node(key).unwrap().title, "Hello");
}

#[test]
fn test_intent_thumbnail_and_favicon_update_node_metadata() {
    let mut app = GraphBrowserApp::new_for_testing();
    let key = app.graph.add_node("https://assets.com".into(), pos(0.0, 0.0));
    app.apply_intents(batch(vec![
        GraphIntent::SetNodeThumbnail { key, png_bytes: vec![1, 2, 3], width: 10, height: 20 },
        GraphIntent::SetNodeFavicon { key, rgba: vec![255, 0, 0, 255], width: 1, height: 1 },
    ]));
    let node = app.graph.get_node(key).unwrap();
    assert_eq!(node.thumbnail_png.as_ref().unwrap().len(), 3);
    assert_eq!(node.thumbnail_width, 10);
    assert_eq!(node.thumbnail_height, 20);
    assert_eq!(node.favicon_rgba.as_ref().unwrap().len(), 4);
    assert_eq!(node.favicon_width, 1);
    assert_eq!(node.favicon_height, 1);
}

#[test]
fn test_conflict_delete_dominates_title_update_any_order() {
    let mut app = GraphBrowserApp::new_for_testing();
    let key = app.graph.add_node("https://conflict-a.com".into(), pos(0.0, 0.0));
    let w = wv(1);
    app.map_webview_to_node(w, key);
    app.select_node(key, false);
    app.apply_intents(batch(vec![
        GraphIntent::RemoveSelectedNodes,
        GraphIntent::WebViewTitleChanged { webview_id: w, title: Some("updated".into()) },
    ]));
    assert!(app.graph.get_node(key).is_none());

    let mut app = GraphBrowserApp::new_for_testing();
    let key = app.graph.add_node("https://conflict-b.com".into(), pos(0.0, 0.0));
    let w = wv(2);
    app.map_webview_to_node(w, key);
    app.select_node(key, false);
    app.apply_intents(batch(vec![
        GraphIntent::WebViewTitleChanged { webview_id: w, title: Some("updated".into()) },
        GraphIntent::RemoveSelectedNodes,
    ]));
    assert!(app.graph.get_node(key).is_none());
}

#[test]
fn test_conflict_delete_dominates_metadata_updates() {
    let mut app = GraphBrowserApp::new_for_testing();
    let key = app.graph.add_node("https://conflict-meta.com".into(), pos(0.0, 0.0));
    let w = wv(1);
    app.map_webview_to_node(w, key);
    app.select_node(key, false);
    app.apply_intents(batch(vec![
        GraphIntent::RemoveSelectedNodes,
        GraphIntent::WebViewHistoryChanged { webview_id: w, entries: vec!["https://x.com".into()], current: 0 },
        GraphIntent::SetNodeThumbnail { key, png_bytes: vec![1, 2, 3], width: 8, height: 8 },
        GraphIntent::SetNodeFavicon { key, rgba: vec![0, 0, 0, 255], width: 1, height: 1 },
        GraphIntent::SetNodeUrl { key, new_url: "https://should-not-apply.com".into() },
    ]));
    assert!(app.graph.get_node(key).is_none());
}

#[test]
fn test_conflict_last_writer_wins_for_url_updates() {
    let mut app = GraphBrowserApp::new_for_testing();
    let key = app.graph.add_node("https://start.com".into(), pos(0.0, 0.0));
    app.apply_intents(batch(vec![
        GraphIntent::SetNodeUrl { key, new_url: "https://first.com".into() },
        GraphIntent::SetNodeUrl { key, new_url: "https://second.com".into() },
    ]));
    assert_eq!(app.graph.get_node(key).unwrap().url, "https://second.com");
}

#[test]
fn test_create_multiple_placeholder_nodes_unique_urls() {
    let mut app = GraphBrowserApp::new_for_testing();
    let k1 = app.create_new_node_near_center(pos(400.0, 300.0));
    let k2 = app.create_new_node_near_center(pos(410.0, 300.0));
    let k3 = app.create_new_node_near_center(pos(420.0, 300.0));
    let url1 = app.graph.get_node(k1).unwrap().url.clone();
    let url2 = app.graph.get_node(k2).unwrap().url.clone();
    let url3 = app.graph.get_node(k3).unwrap().url.clone();
    assert_ne!(url1, url2);
    assert_ne!(url2, url3);
    assert_ne!(url1, url3);
    assert!(url1.starts_with("about:blank#"));
    assert!(url2.starts_with("about:blank#"));
    assert!(url3.starts_with("about:blank#"));
    assert_eq!(app.graph.node_count(), 3);
    assert!(app.graph.get_node_by_url(&url1).is_some());
    assert!(app.graph.get_node_by_url(&url2).is_some());
    assert!(app.graph.get_node_by_url(&url3).is_some());
}

#[test]
fn test_placeholder_id_scan_on_recovery() {
    let mut graph = Graph::new();
    graph.add_node("about:blank#5".to_string(), pos(0.0, 0.0));
    graph.add_node("about:blank#2".to_string(), pos(100.0, 0.0));
    graph.add_node("https://example.com".to_string(), pos(200.0, 0.0));
    let next_id = GraphBrowserApp::scan_max_placeholder_id(&graph);
    assert_eq!(next_id, 6);
}

#[test]
fn test_placeholder_id_scan_empty_graph() {
    let graph = Graph::new();
    assert_eq!(GraphBrowserApp::scan_max_placeholder_id(&graph), 0);
}

#[test]
fn test_remove_selected_nodes_single() {
    let mut app = GraphBrowserApp::new_for_testing();
    let k1 = app.graph.add_node("a".to_string(), pos(0.0, 0.0));
    let _k2 = app.graph.add_node("b".to_string(), pos(100.0, 0.0));
    app.select_node(k1, false);
    app.remove_selected_nodes();
    assert_eq!(app.graph.node_count(), 1);
    assert!(app.graph.get_node(k1).is_none());
    assert!(app.selected_nodes.is_empty());
}

#[test]
fn test_remove_selected_nodes_multi() {
    let mut app = GraphBrowserApp::new_for_testing();
    let k1 = app.graph.add_node("a".to_string(), pos(0.0, 0.0));
    let k2 = app.graph.add_node("b".to_string(), pos(100.0, 0.0));
    let k3 = app.graph.add_node("c".to_string(), pos(200.0, 0.0));
    app.select_node(k1, false);
    app.select_node(k2, true);
    app.remove_selected_nodes();
    assert_eq!(app.graph.node_count(), 1);
    assert!(app.graph.get_node(k3).is_some());
    assert!(app.selected_nodes.is_empty());
}

#[test]
fn test_remove_selected_nodes_empty_selection() {
    let mut app = GraphBrowserApp::new_for_testing();
    app.graph.add_node("a".to_string(), pos(0.0, 0.0));
    app.remove_selected_nodes();
    assert_eq!(app.graph.node_count(), 1);
}

#[test]
fn test_remove_selected_nodes_clears_webview_mapping() {
    let mut app = GraphBrowserApp::new_for_testing();
    let k1 = app.graph.add_node("a".to_string(), pos(0.0, 0.0));
    let fake_wv_id = wv(1);
    app.map_webview_to_node(fake_wv_id, k1);
    assert!(app.get_node_for_webview(fake_wv_id).is_some());
    app.select_node(k1, false);
    app.remove_selected_nodes();
    assert!(app.get_node_for_webview(fake_wv_id).is_none());
    assert!(app.get_webview_for_node(k1).is_none());
}

#[test]
fn test_clear_graph_resets_everything() {
    let mut app = GraphBrowserApp::new_for_testing();
    let k1 = app.graph.add_node("a".to_string(), pos(0.0, 0.0));
    let k2 = app.graph.add_node("b".to_string(), pos(100.0, 0.0));
    app.select_node(k1, false);
    app.select_node(k2, false);
    let fake_wv_id = wv(1);
    app.map_webview_to_node(fake_wv_id, k1);
    app.clear_graph();
    assert_eq!(app.graph.node_count(), 0);
    assert!(app.selected_nodes.is_empty());
    assert!(app.get_node_for_webview(fake_wv_id).is_none());
}

#[test]
fn test_create_new_node_near_center_empty_graph() {
    let mut app = GraphBrowserApp::new_for_testing();
    let key = app.create_new_node_near_center(pos(400.0, 300.0));
    assert_eq!(app.graph.node_count(), 1);
    assert!(app.selected_nodes.contains(&key));
    let node = app.graph.get_node(key).unwrap();
    assert!(node.url.starts_with("about:blank#"));
}

#[test]
fn test_create_new_node_near_center_selects_node() {
    let mut app = GraphBrowserApp::new_for_testing();
    let k1 = app.graph.add_node("existing".to_string(), pos(0.0, 0.0));
    app.select_node(k1, false);
    let k2 = app.create_new_node_near_center(pos(10.0, 10.0));
    assert_eq!(app.selected_nodes.len(), 1);
    assert!(app.selected_nodes.contains(&k2));
}

#[test]
fn test_promote_and_demote_node_lifecycle() {
    let mut app = GraphBrowserApp::new_for_testing();
    let key = app.graph.add_node("a".to_string(), pos(0.0, 0.0));
    assert!(matches!(app.graph.get_node(key).unwrap().lifecycle, NodeLifecycle::Cold));
    app.promote_node_to_active(key);
    assert!(matches!(app.graph.get_node(key).unwrap().lifecycle, NodeLifecycle::Active));
    app.demote_node_to_cold(key);
    assert!(matches!(app.graph.get_node(key).unwrap().lifecycle, NodeLifecycle::Cold));
}

#[test]
fn test_demote_clears_webview_mapping() {
    let mut app = GraphBrowserApp::new_for_testing();
    let key = app.graph.add_node("a".to_string(), pos(0.0, 0.0));
    let fake_wv_id = wv(1);
    app.map_webview_to_node(fake_wv_id, key);
    assert!(app.get_webview_for_node(key).is_some());
    app.demote_node_to_cold(key);
    assert!(app.get_webview_for_node(key).is_none());
    assert!(app.get_node_for_webview(fake_wv_id).is_none());
}

#[test]
fn test_webview_mapping_bidirectional() {
    let mut app = GraphBrowserApp::new_for_testing();
    let key = app.graph.add_node("a".to_string(), pos(0.0, 0.0));
    let wv_id = wv(1);
    app.map_webview_to_node(wv_id, key);
    assert_eq!(app.get_node_for_webview(wv_id), Some(key));
    assert_eq!(app.get_webview_for_node(key), Some(wv_id));
}

#[test]
fn test_unmap_webview() {
    let mut app = GraphBrowserApp::new_for_testing();
    let key = app.graph.add_node("a".to_string(), pos(0.0, 0.0));
    let wv_id = wv(1);
    app.map_webview_to_node(wv_id, key);
    let unmapped_key = app.unmap_webview(wv_id);
    assert_eq!(unmapped_key, Some(key));
    assert!(app.get_node_for_webview(wv_id).is_none());
    assert!(app.get_webview_for_node(key).is_none());
}

#[test]
fn test_unmap_nonexistent_webview() {
    let mut app = GraphBrowserApp::new_for_testing();
    let wv_id = wv(1);
    assert_eq!(app.unmap_webview(wv_id), None);
}

#[test]
fn test_webview_node_mappings_iterator() {
    let mut app = GraphBrowserApp::new_for_testing();
    let k1 = app.graph.add_node("a".to_string(), pos(0.0, 0.0));
    let k2 = app.graph.add_node("b".to_string(), pos(100.0, 0.0));
    app.map_webview_to_node(wv(1), k1);
    app.map_webview_to_node(wv(2), k2);
    let mappings = app.webview_node_mappings();
    assert_eq!(mappings.len(), 2);
}

#[test]
fn test_get_single_selected_node_one() {
    let mut app = GraphBrowserApp::new_for_testing();
    let key = app.graph.add_node("a".to_string(), pos(0.0, 0.0));
    app.select_node(key, false);
    assert_eq!(app.get_single_selected_node(), Some(key));
}

#[test]
fn test_get_single_selected_node_none() {
    let app = GraphBrowserApp::new_for_testing();
    assert_eq!(app.get_single_selected_node(), None);
}

#[test]
fn test_get_single_selected_node_multi() {
    let mut app = GraphBrowserApp::new_for_testing();
    let k1 = app.graph.add_node("a".to_string(), pos(0.0, 0.0));
    let k2 = app.graph.add_node("b".to_string(), pos(100.0, 0.0));
    app.select_node(k1, false);
    app.select_node(k2, true);
    assert_eq!(app.get_single_selected_node(), None);
}

#[test]
fn test_update_node_url_and_log() {
    let mut app = GraphBrowserApp::new_for_testing();
    let key = app.graph.add_node("old-url".to_string(), pos(0.0, 0.0));
    let old = app.update_node_url_and_log(key, "new-url".to_string());
    assert_eq!(old, Some("old-url".to_string()));
    assert_eq!(app.graph.get_node(key).unwrap().url, "new-url");
    assert!(app.graph.get_node_by_url("new-url").is_some());
    assert!(app.graph.get_node_by_url("old-url").is_none());
}

#[test]
fn test_update_node_url_nonexistent() {
    let mut app = GraphBrowserApp::new_for_testing();
    let fake_key = NodeKey::new(999);
    assert_eq!(app.update_node_url_and_log(fake_key, "x".to_string()), None);
}

#[test]
fn test_new_from_dir_recovers_logged_graph() {
    let app = app_from_log(vec![
        add_node_entry(1, "https://a.com", 10.0, 20.0),
        add_node_entry(2, "https://b.com", 30.0, 40.0),
        LogEntry::AddEdge { from_node_id: node_id_to_string(1), to_node_id: node_id_to_string(2), edge_type: PersistedEdgeType::Hyperlink },
    ]);
    assert!(app.has_recovered_graph());
    assert_eq!(app.graph.node_count(), 2);
    assert_eq!(app.graph.edge_count(), 1);
    assert!(app.graph.get_node_by_url("https://a.com").is_some());
    assert!(app.graph.get_node_by_url("https://b.com").is_some());
}

#[test]
fn test_new_from_dir_scans_placeholder_ids_from_recovery() {
    let mut app = app_from_log(vec![add_node_entry(3, "about:blank#5", 0.0, 0.0)]);
    let key = app.create_new_node_near_center(pos(0.0, 0.0));
    let node = app.graph.get_node(key).unwrap();
    assert_eq!(node.url, "about:blank#6");
}

#[test]
fn test_clear_graph_and_persistence_in_memory_reset() {
    let mut app = GraphBrowserApp::new_for_testing();
    let key = app.graph.add_node("https://a.com".to_string(), pos(0.0, 0.0));
    app.select_node(key, false);
    app.clear_graph_and_persistence();
    assert_eq!(app.graph.node_count(), 0);
    assert!(app.selected_nodes.is_empty());
}

#[test]
fn test_clear_graph_and_persistence_wipes_store() {
    let mut app = GraphBrowserApp::with_graph(Graph::new(), true, true);
    app.add_node_and_sync("https://persisted.com".to_string(), pos(1.0, 2.0));
    app.take_snapshot();
    app.clear_graph_and_persistence();
    assert_eq!(app.store_requests.len(), 3);
    assert!(matches!(app.store_requests[0], StoreRequest::Log(LogEntry::AddNode { .. })));
    assert!(matches!(app.store_requests[1], StoreRequest::WriteSnapshot(_)));
    assert!(matches!(app.store_requests[2], StoreRequest::ClearAll));
    assert!(!app.has_recovered_graph());
    assert_eq!(app.graph.node_count(), 0);
}

#[test]
fn test_switch_persistence_dir_reloads_graph_state() {
    let mut app = app_from_log(vec![add_node_entry(1, "https://from-a.com", 1.0, 2.0)]);
    assert!(app.graph.get_node_by_url("https://from-a.com").is_some());
    assert!(app.graph.get_node_by_url("https://from-b.com").is_none());
    let other = recover_graph(None, &vec![
        add_node_entry(2, "https://from-b.com", 3.0, 4.0),
        add_node_entry(3, "about:blank#7", 5.0, 6.0),
    ]).unwrap();
    app.switch_to_recovered_graph(other);
    assert!(app.graph.get_node_by_url("https://from-a.com").is_none());
    assert!(app.graph.get_node_by_url("https://from-b.com").is_some());
    assert!(app.selected_nodes.is_empty());
    let new_placeholder = app.create_new_node_near_center(pos(0.0, 0.0));
    assert_eq!(app.graph.get_node(new_placeholder).unwrap().url, "about:blank#8");
}

#[test]
fn test_set_snapshot_interval_secs_updates_store() {
    let mut app = GraphBrowserApp::with_graph(Graph::new(), true, true);
    app.set_snapshot_interval_secs(45).unwrap();
    assert_eq!(app.snapshot_interval_secs(), Some(45));
}

#[test]
fn test_set_snapshot_interval_secs_without_persistence_fails() {
    let mut app = GraphBrowserApp::new_for_testing();
    assert!(app.set_snapshot_interval_secs(45).is_err());
    assert_eq!(app.snapshot_interval_secs(), None);
}

#[test]
fn test_snapshot_interval_zero_is_refused_with_store_message() {
    let mut app = GraphBrowserApp::with_graph(Graph::new(), true, true);
    assert_eq!(
        app.set_snapshot_interval_secs(0),
        Err("IO error: Snapshot interval must be greater than zero seconds".to_string())
    );
    assert_eq!(app.snapshot_interval_secs(), Some(300));
    let mut plain = GraphBrowserApp::new_for_testing();
    assert_eq!(plain.set_snapshot_interval_secs(5), Err("Persistence is not available".to_string()));
}

#[test]
fn test_periodic_snapshot_only_when_due() {
    let mut app = GraphBrowserApp::with_graph(Graph::new(), true, true);
    app.set_snapshot_interval_secs(10).unwrap();
    app.check_periodic_snapshot(9);
    assert!(app.store_requests.is_empty());
    app.check_periodic_snapshot(10);
    assert_eq!(app.store_requests.len(), 1);
    assert!(matches!(app.store_requests[0], StoreRequest::WriteSnapshot(_)));
}

#[test]
fn test_mutations_are_logged_with_node_identity() {
    let mut app = GraphBrowserApp::with_graph(Graph::new(), true, true);
    let a = app.add_node_and_sync("https://a.com".to_string(), pos(1.0, 2.0));
    let b = app.add_node_and_sync("https://b.com".to_string(), pos(3.0, 4.0));
    app.add_edge_and_sync(a, b, graphshell::graph::EdgeType::History);
    let id_a = node_id_to_string(app.graph.get_node(a).unwrap().id);
    match &app.store_requests[2] {
        StoreRequest::Log(LogEntry::AddEdge { from_node_id, edge_type, .. }) => {
            assert_eq!(from_node_id, &id_a);
            assert_eq!(*edge_type, PersistedEdgeType::History);
        },
        _ => panic!("expected an edge log entry"),
    }
    app.select_node(a, false);
    app.remove_selected_nodes();
    assert!(matches!(&app.store_requests[3], StoreRequest::Log(LogEntry::RemoveNode { node_id }) if *node_id == id_a));
}

#[test]
fn test_interaction_pauses_and_restores_physics() {
    let mut app = GraphBrowserApp::new_for_testing();
    assert!(app.physics_running);
    app.set_interacting(true);
    assert!(!app.physics_running);
    app.toggle_physics();
    app.set_interacting(false);
    assert!(!app.physics_running);
    app.set_interacting(true);
    app.set_interacting(false);
    assert!(!app.physics_running);
}
