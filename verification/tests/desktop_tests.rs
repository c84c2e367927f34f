use graphshell::app::{GraphBrowserApp, GraphIntent, WebViewId};
use graphshell::desktop::{
    active_graph_search_match, apply_graph_view_address_submit, collect_tile_invariant_violations,
    graph_intent_for_thumbnail_result, graph_intents_from_pending_semantic_events, handle_address_bar_submit,
    ensure_initial_node, load_pending_thumbnail_results, nodes_outside_matches, webview_address, webview_url_for_node, webviews_for_nodes,
    request_pending_thumbnail_captures, graph_intents_from_semantic_events,
    parse_data_dir_input, reconcile_mappings_and_selection, refresh_graph_search_matches,
    step_graph_search_active_match, thumbnail_capture_url, GraphSemanticEvent, ThumbnailCaptureResult,
};
use graphshell::graph::{NodeKey, NodeLifecycle, Position};

fn pos(x: f32, y: f32) -> Position {
    Position { x: x.to_bits(), y: y.to_bits() }
}

fn wv(n: u64) -> WebViewId {
    WebViewId::new(n)
}

fn windows_path_parts(p: &str) -> Vec<String> {
    p.split('\\').filter(|s| !s.is_empty()).map(|s| s.to_string()).collect()
}

#[test]
fn test_reconcile_mappings_removes_stale_webviews() {
    let mut app = GraphBrowserApp::new_for_testing();
    let n1 = app.graph.add_node("https://a.com".into(), pos(0.0, 0.0));
    let n2 = app.graph.add_node("https://b.com".into(), pos(1.0, 1.0));
    let w1 = wv(1);
    let w2 = wv(2);
    app.map_webview_to_node(w1, n1);
    app.map_webview_to_node(w2, n2);
    let seen = vec![w1];
    reconcile_mappings_and_selection(&mut app, &seen, Some(w1));
    assert_eq!(app.get_node_for_webview(w1), Some(n1));
    assert_eq!(app.get_node_for_webview(w2), None);
    assert_eq!(app.get_single_selected_node(), Some(n1));
}

#[test]
fn test_apply_graph_view_submit_updates_selected_node_url() {
    let mut app = GraphBrowserApp::new_for_testing();
    let key = app.graph.add_node("https://old.com".into(), pos(0.0, 0.0));
    app.select_node(key, false);
    apply_graph_view_address_submit(&mut app, "https://new.com");
    let node = app.graph.get_node(key).unwrap();
    assert_eq!(node.url, "https://new.com");
}

#[test]
fn test_apply_graph_view_submit_creates_node_when_none_selected() {
    let mut app = GraphBrowserApp::new_for_testing();
    let before = app.graph.node_count();
    apply_graph_view_address_submit(&mut app, "https://created.com");
    assert_eq!(app.graph.node_count(), before + 1);
    let selected = app.get_single_selected_node().unwrap();
    assert_eq!(app.graph.get_node(selected).unwrap().url, "https://created.com");
}

#[test]
fn test_invariant_check_detects_desync() {
    let mut app = GraphBrowserApp::new_for_testing();
    let node_key = app.add_node_and_sync("https://example.test".into(), pos(0.0, 0.0));
    let tiles = vec![node_key];
    let contexts: Vec<NodeKey> = Vec::new();
    let violations = collect_tile_invariant_violations(&tiles, &app, &contexts);
    assert!(violations.iter().any(|v| v.contains("missing webview mapping")));
    assert!(violations.iter().any(|v| v.contains("missing rendering context")));
}

#[test]
fn test_refresh_graph_search_matches_updates_active_index() {
    let mut app = GraphBrowserApp::new_for_testing();
    let github = app.add_node_and_sync("https://github.com".into(), pos(0.0, 0.0));
    let _example = app.add_node_and_sync("https://example.com".into(), pos(10.0, 0.0));
    let mut matches = Vec::new();
    let mut active = None;
    refresh_graph_search_matches(&app, "gthub", &mut matches, &mut active);
    assert_eq!(matches.first().copied(), Some(github));
    assert_eq!(active, Some(0));
    refresh_graph_search_matches(&app, "", &mut matches, &mut active);
    assert!(matches.is_empty());
    assert_eq!(active, None);
}

#[test]
fn test_step_graph_search_active_match_wraps() {
    let matches = vec![NodeKey::new(1), NodeKey::new(2), NodeKey::new(3)];
    let mut active = Some(2);
    step_graph_search_active_match(&matches, &mut active, 1);
    assert_eq!(active, Some(0));
    step_graph_search_active_match(&matches, &mut active, -1);
    assert_eq!(active, Some(2));
}

#[test]
fn test_active_graph_search_match_returns_current_key() {
    let matches = vec![NodeKey::new(10), NodeKey::new(11)];
    assert_eq!(active_graph_search_match(&matches, Some(1)), Some(NodeKey::new(11)));
    assert_eq!(active_graph_search_match(&matches, Some(2)), None);
    assert_eq!(active_graph_search_match(&matches, None), None);
}

#[test]
fn test_parse_data_dir_input_trims_quotes_and_whitespace() {
    let parsed = parse_data_dir_input("  \"C:\\\\tmp\\\\graph data\"  ").expect("should parse quoted path");
    assert_eq!(windows_path_parts(&parsed), windows_path_parts("C:\\tmp\\graph data"));
    let parsed_single = parse_data_dir_input(" 'C:\\\\tmp\\\\graph' ").expect("should parse single-quoted path");
    assert_eq!(windows_path_parts(&parsed_single), windows_path_parts("C:\\tmp\\graph"));
}

#[test]
fn test_parse_data_dir_input_empty_is_none() {
    assert!(parse_data_dir_input("").is_none());
    assert!(parse_data_dir_input("   ").is_none());
    assert!(parse_data_dir_input("\"\"").is_none());
}

#[test]
fn test_graph_intents_from_semantic_events_preserves_order_and_variants() {
    let w1 = wv(1);
    let w2 = wv(2);
    let w3 = wv(3);
    let events = vec![
        GraphSemanticEvent::UrlChanged { webview_id: w1, new_url: "https://a.com".to_string() },
        GraphSemanticEvent::HistoryChanged { webview_id: w2, entries: vec!["https://x.com".to_string()], current: 0 },
        GraphSemanticEvent::PageTitleChanged { webview_id: w1, title: Some("A".to_string()) },
        GraphSemanticEvent::CreateNewWebView { parent_webview_id: w1, child_webview_id: w3, initial_url: Some("https://child.com".to_string()) },
    ];
    let intents = graph_intents_from_semantic_events(events);
    assert_eq!(intents.len(), 4);
    assert!(matches!(&intents[0], GraphIntent::WebViewUrlChanged { webview_id, new_url } if *webview_id == w1 && new_url == "https://a.com"));
    assert!(matches!(&intents[1], GraphIntent::WebViewHistoryChanged { webview_id, entries, current } if *webview_id == w2 && entries.len() == 1 && *current == 0));
    assert!(matches!(&intents[2], GraphIntent::WebViewTitleChanged { webview_id, title } if *webview_id == w1 && title.as_deref() == Some("A")));
    assert!(matches!(&intents[3], GraphIntent::WebViewCreated { parent_webview_id, child_webview_id, initial_url } if *parent_webview_id == w1 && *child_webview_id == w3 && initial_url.as_deref() == Some("https://child.com")));
}

#[test]
fn test_semantic_events_to_intents_apply_to_graph_state() {
    let mut app = GraphBrowserApp::new_for_testing();
    let parent = app.add_node_and_sync("https://parent.com".into(), pos(10.0, 20.0));
    let parent_wv = wv(1);
    let child_wv = wv(2);
    app.map_webview_to_node(parent_wv, parent);
    let events = vec![
        GraphSemanticEvent::UrlChanged { webview_id: parent_wv, new_url: "https://parent-updated.com".into() },
        GraphSemanticEvent::HistoryChanged { webview_id: parent_wv, entries: vec!["https://a.com".into(), "https://b.com".into()], current: 1 },
        GraphSemanticEvent::PageTitleChanged { webview_id: parent_wv, title: Some("Updated Parent".into()) },
        GraphSemanticEvent::CreateNewWebView { parent_webview_id: parent_wv, child_webview_id: child_wv, initial_url: Some("https://child.com".into()) },
    ];
    let intents = graph_intents_from_semantic_events(events);
    app.apply_intents(intents.into_iter().map(|i| (i, pos(150.0, 100.0))).collect());
    let parent_node = app.graph.get_node(parent).unwrap();
    assert_eq!(parent_node.url, "https://parent-updated.com");
    assert_eq!(parent_node.title, "Updated Parent");
    assert_eq!(parent_node.history_entries.len(), 2);
    assert_eq!(parent_node.history_index, 1);
    let child = app.get_node_for_webview(child_wv).unwrap();
    assert_eq!(app.graph.get_node(child).unwrap().url, "https://child.com");
}

#[test]
fn test_graph_intent_for_thumbnail_result_accepts_matching_url() {
    let mut app = GraphBrowserApp::new_for_testing();
    let key = app.add_node_and_sync("https://thumb.com".to_string(), pos(0.0, 0.0));
    let webview_id = wv(1);
    app.map_webview_to_node(webview_id, key);
    let result = ThumbnailCaptureResult {
        webview_id,
        requested_url: "https://thumb.com".to_string(),
        png_bytes: Some(vec![1, 2, 3, 4]),
        width: 2,
        height: 2,
    };
    let intent = graph_intent_for_thumbnail_result(&app, &result);
    assert!(matches!(intent, Some(GraphIntent::SetNodeThumbnail { key: k, width, height, .. }) if k == key && width == 2 && height == 2));
}

#[test]
fn test_graph_intent_for_thumbnail_result_rejects_stale_or_empty() {
    let mut app = GraphBrowserApp::new_for_testing();
    let key = app.add_node_and_sync("https://thumb.com".to_string(), pos(0.0, 0.0));
    let webview_id = wv(1);
    app.map_webview_to_node(webview_id, key);
    let stale = ThumbnailCaptureResult {
        webview_id,
        requested_url: "https://other.com".to_string(),
        png_bytes: Some(vec![1, 2, 3, 4]),
        width: 2,
        height: 2,
    };
    assert!(graph_intent_for_thumbnail_result(&app, &stale).is_none());
    let empty_png = ThumbnailCaptureResult {
        webview_id,
        requested_url: "https://thumb.com".to_string(),
        png_bytes: None,
        width: 2,
        height: 2,
    };
    assert!(graph_intent_for_thumbnail_result(&app, &empty_png).is_none());
}

#[test]
fn test_creation_events_come_first() {
    let events = vec![
        GraphSemanticEvent::PageTitleChanged { webview_id: wv(1), title: None },
        GraphSemanticEvent::CreateNewWebView { parent_webview_id: wv(1), child_webview_id: wv(5), initial_url: None },
        GraphSemanticEvent::UrlChanged { webview_id: wv(5), new_url: "https://x.com".into() },
    ];
    let (intents, created) = graph_intents_from_pending_semantic_events(events);
    assert_eq!(created, vec![wv(5)]);
    assert!(matches!(intents[0], GraphIntent::WebViewCreated { .. }));
    assert!(matches!(intents[1], GraphIntent::WebViewTitleChanged { .. }));
    assert!(matches!(intents[2], GraphIntent::WebViewUrlChanged { .. }));
}

#[test]
fn test_thumbnail_capture_skips_placeholders() {
    let mut app = GraphBrowserApp::new_for_testing();
    let page = app.add_node_and_sync("https://page.com".to_string(), pos(0.0, 0.0));
    let blank = app.add_node_and_sync("about:blank#3".to_string(), pos(0.0, 0.0));
    app.map_webview_to_node(wv(1), page);
    app.map_webview_to_node(wv(2), blank);
    assert_eq!(thumbnail_capture_url(&app, wv(1)), Some("https://page.com".to_string()));
    assert_eq!(thumbnail_capture_url(&app, wv(2)), None);
    assert_eq!(thumbnail_capture_url(&app, wv(3)), None);
}

#[test]
fn test_stale_tile_is_reported() {
    let app = GraphBrowserApp::new_for_testing();
    let violations = collect_tile_invariant_violations(&vec![NodeKey::new(4)], &app, &Vec::new());
    assert_eq!(violations, vec!["tile/webview desync: tile has stale node key 4".to_string()]);
}

#[test]
fn test_park_and_restore_webviews() {
    let mut app = GraphBrowserApp::new_for_testing();
    let a = app.add_node_and_sync("https://a.com".to_string(), pos(0.0, 0.0));
    let b = app.add_node_and_sync("https://b.com".to_string(), pos(0.0, 0.0));
    app.map_webview_to_node(wv(1), a);
    app.map_webview_to_node(wv(2), b);
    app.promote_node_to_active(a);
    let closing = app.park_webviews(&vec![wv(1), wv(2)]);
    assert_eq!(closing, vec![wv(1), wv(2)]);
    assert_eq!(app.active_webview_nodes, vec![a, b]);
    assert!(app.get_node_for_webview(wv(1)).is_none());
    assert_eq!(app.graph.get_node(a).unwrap().lifecycle, NodeLifecycle::Cold);
    assert!(app.park_webviews(&vec![wv(3)]).is_empty());
    let plan = app.webviews_to_create(b);
    assert_eq!(plan, vec![(a, false), (b, true)]);
    app.record_created_webview(wv(7), a, false);
    app.record_created_webview(wv(8), b, true);
    app.finish_webview_restore(b);
    assert!(app.active_webview_nodes.is_empty());
    assert_eq!(app.get_webview_for_node(b), Some(wv(8)));
    assert_eq!(app.graph.get_node(b).unwrap().lifecycle, NodeLifecycle::Active);
}

#[test]
fn test_thumbnail_requests_skip_busy_dead_and_placeholder_webviews() {
    let mut app = GraphBrowserApp::new_for_testing();
    let page = app.add_node_and_sync("https://page.com".to_string(), pos(0.0, 0.0));
    let other = app.add_node_and_sync("https://other.com".to_string(), pos(1.0, 0.0));
    let blank = app.add_node_and_sync("about:blank#1".to_string(), pos(2.0, 0.0));
    app.map_webview_to_node(wv(1), page);
    app.map_webview_to_node(wv(2), other);
    app.map_webview_to_node(wv(3), blank);
    let live = vec![wv(1), wv(2), wv(3)];
    // wv(9) is gone: forgotten; wv(2) is in flight: skipped.
    let mut in_flight = vec![wv(9), wv(2)];
    let requested = vec![wv(1), wv(2), wv(3), wv(4), wv(1)];
    let captures = request_pending_thumbnail_captures(&app, &requested, &live, &mut in_flight);
    assert_eq!(captures, vec![(wv(1), "https://page.com".to_string())]);
    let mut ids: Vec<u64> = in_flight.iter().map(|w| w.id).collect();
    ids.sort();
    assert_eq!(ids, vec![1, 2]);
}

#[test]
fn test_thumbnail_results_clear_in_flight_and_keep_accepted() {
    let mut app = GraphBrowserApp::new_for_testing();
    let page = app.add_node_and_sync("https://page.com".to_string(), pos(0.0, 0.0));
    app.map_webview_to_node(wv(1), page);
    let results = vec![
        ThumbnailCaptureResult {
            webview_id: wv(1),
            requested_url: "https://page.com".to_string(),
            png_bytes: Some(vec![9, 9]),
            width: 3,
            height: 4,
        },
        ThumbnailCaptureResult {
            webview_id: wv(2),
            requested_url: "https://gone.com".to_string(),
            png_bytes: Some(vec![1]),
            width: 1,
            height: 1,
        },
    ];
    let mut in_flight = vec![wv(1), wv(2), wv(5), wv(6)];
    let live = vec![wv(1), wv(2), wv(5)];
    let intents = load_pending_thumbnail_results(&app, &results, &live, &mut in_flight);
    assert_eq!(in_flight.iter().map(|w| w.id).collect::<Vec<u64>>(), vec![5]);
    assert_eq!(intents.len(), 1);
    match &intents[0] {
        GraphIntent::SetNodeThumbnail { key, png_bytes, width, height } => {
            assert_eq!(*key, page);
            assert_eq!(png_bytes, &vec![9, 9]);
            assert_eq!((*width, *height), (3, 4));
        },
        _ => panic!("expected a thumbnail intent"),
    }
}

#[test]
fn test_address_bar_submit_in_graph_view_updates_graph() {
    let mut app = GraphBrowserApp::new_for_testing();
    assert!(handle_address_bar_submit(&mut app, "https://typed.com", true));
    assert_eq!(app.graph.node_count(), 1);
    let selected = app.get_single_selected_node().unwrap();
    assert_eq!(app.graph.get_node(selected).unwrap().url, "https://typed.com");
}

#[test]
fn test_address_bar_submit_in_detail_view_leaves_graph() {
    let mut app = GraphBrowserApp::new_for_testing();
    assert!(!handle_address_bar_submit(&mut app, "https://typed.com", false));
    assert_eq!(app.graph.node_count(), 0);
}

#[test]
fn test_webviews_for_nodes_skips_unmapped() {
    let mut app = GraphBrowserApp::new_for_testing();
    let a = app.graph.add_node("https://a.com".into(), pos(0.0, 0.0));
    let b = app.graph.add_node("https://b.com".into(), pos(1.0, 0.0));
    let c = app.graph.add_node("https://c.com".into(), pos(2.0, 0.0));
    app.map_webview_to_node(wv(10), a);
    app.map_webview_to_node(wv(30), c);
    assert_eq!(webviews_for_nodes(&app, &vec![c, b, a]), vec![wv(30), wv(10)]);
}

#[test]
fn test_nodes_outside_matches() {
    let mut app = GraphBrowserApp::new_for_testing();
    let a = app.graph.add_node("https://a.com".into(), pos(0.0, 0.0));
    let b = app.graph.add_node("https://b.com".into(), pos(1.0, 0.0));
    let c = app.graph.add_node("https://c.com".into(), pos(2.0, 0.0));
    assert_eq!(nodes_outside_matches(&app, &vec![b]), vec![a, c]);
    assert_eq!(nodes_outside_matches(&app, &vec![a, b, c]), Vec::<NodeKey>::new());
}

#[test]
fn test_webview_url_is_parsed_or_blank() {
    let mut app = GraphBrowserApp::new_for_testing();
    let page = app.graph.add_node("https://Example.com".into(), pos(0.0, 0.0));
    let junk = app.graph.add_node("not a url".into(), pos(1.0, 0.0));
    assert_eq!(webview_url_for_node(&app, page), Some("https://example.com/".to_string()));
    assert_eq!(webview_url_for_node(&app, junk), Some("about:blank".to_string()));
    assert_eq!(webview_url_for_node(&app, NodeKey::new(9)), None);
}

#[test]
fn test_webview_address_falls_back_to_blank() {
    assert_eq!(webview_address(None), "about:blank");
    assert_eq!(webview_address(Some("https://x.org/".to_string())), "https://x.org/");
}

#[test]
fn test_fresh_session_gets_initial_node() {
    let mut app = GraphBrowserApp::new_for_testing();
    let key = ensure_initial_node(&mut app, "https://start.org").unwrap();
    assert_eq!(app.graph.node_count(), 1);
    let node = app.graph.get_node(key).unwrap();
    assert_eq!(node.url, "https://start.org");
    assert_eq!(node.position, pos(400.0, 300.0));
    assert!(ensure_initial_node(&mut app, "https://other.org").is_none());
    assert_eq!(app.graph.node_count(), 1);
}
