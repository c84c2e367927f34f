use graphshell::app::{GraphBrowserApp, WebViewId};
use graphshell::graph::{NodeKey, NodeLifecycle, Position};
use graphshell::render::{lifecycle_color, node_displays, search_node_colors, NodeColor};
use graphshell::tiles::{
    all_webview_tile_nodes, has_any_webview_tiles_in, is_tab_closable, open_or_focus_webview_tile,
    on_tab_close, preferred_detail_node, prune_stale_webview_tile_keys_only, remove_all_webview_tiles,
    reset_if_graph_empty, reset_runtime_webview_state, tab_label,
    remove_webview_tile_for_node, stale_webview_tile_nodes, tab_title_for_pane, toggle_tile_view, TileKind,
    TileViewToggle,
};

fn pos(x: f32, y: f32) -> Position {
    Position { x: x.to_bits(), y: y.to_bits() }
}

fn rgb(r: u8, g: u8, b: u8) -> NodeColor {
    NodeColor { r, g, b }
}

#[test]
fn test_tab_titles() {
    let mut app = GraphBrowserApp::new_for_testing();
    let key = app.graph.add_node("https://a.com".into(), pos(0.0, 0.0));
    assert_eq!(tab_title_for_pane(&app, &TileKind::Graph), "Graph");
    assert_eq!(tab_title_for_pane(&app, &TileKind::WebView(key)), "https://a.com");
    assert_eq!(
        tab_title_for_pane(&app, &TileKind::WebView(NodeKey::new(42))),
        "Node NodeIndex(42)"
    );
}

#[test]
fn test_only_webview_tabs_close() {
    assert!(is_tab_closable(&TileKind::WebView(NodeKey::new(0))));
    assert!(!is_tab_closable(&TileKind::Graph));
}

#[test]
fn test_preferred_detail_node_prefers_single_selection() {
    let mut app = GraphBrowserApp::new_for_testing();
    assert_eq!(preferred_detail_node(&app), None);
    let a = app.graph.add_node("https://a.com".into(), pos(0.0, 0.0));
    let b = app.graph.add_node("https://b.com".into(), pos(1.0, 0.0));
    assert_eq!(preferred_detail_node(&app), Some(a));
    app.select_node(b, false);
    assert_eq!(preferred_detail_node(&app), Some(b));
    app.select_node(a, true);
    assert_eq!(preferred_detail_node(&app), Some(a));
}

#[test]
fn test_webview_tile_nodes_once_each() {
    let a = NodeKey::new(1);
    let b = NodeKey::new(2);
    let panes = vec![TileKind::Graph, TileKind::WebView(b), TileKind::WebView(a), TileKind::WebView(b)];
    assert_eq!(all_webview_tile_nodes(&panes), vec![b, a]);
    assert_eq!(all_webview_tile_nodes(&vec![TileKind::Graph]), Vec::<NodeKey>::new());
}

#[test]
fn test_stale_tile_nodes() {
    let mut app = GraphBrowserApp::new_for_testing();
    let a = app.graph.add_node("https://a.com".into(), pos(0.0, 0.0));
    let gone = NodeKey::new(7);
    let panes = vec![TileKind::Graph, TileKind::WebView(a), TileKind::WebView(gone), TileKind::WebView(gone)];
    assert_eq!(stale_webview_tile_nodes(&panes, &app), vec![gone]);
}

#[test]
fn test_toggle_tile_view() {
    let mut app = GraphBrowserApp::new_for_testing();
    assert!(matches!(toggle_tile_view(&vec![TileKind::Graph], &app), TileViewToggle::Nothing));
    let a = app.graph.add_node("https://a.com".into(), pos(0.0, 0.0));
    match toggle_tile_view(&vec![TileKind::Graph], &app) {
        TileViewToggle::OpenDetail(k) => assert_eq!(k, a),
        _ => panic!("expected the detail view to open"),
    }
    match toggle_tile_view(&vec![TileKind::Graph, TileKind::WebView(a)], &app) {
        TileViewToggle::CloseWebviewTiles(nodes) => assert_eq!(nodes, vec![a]),
        _ => panic!("expected the webview tiles to close"),
    }
}

#[test]
fn test_lifecycle_colors() {
    assert_eq!(lifecycle_color(NodeLifecycle::Active), rgb(100, 200, 255));
    assert_eq!(lifecycle_color(NodeLifecycle::Cold), rgb(140, 140, 165));
}

#[test]
fn test_search_node_colors() {
    let mut app = GraphBrowserApp::new_for_testing();
    let a = app.graph.add_node("https://a.com".into(), pos(0.0, 0.0));
    let b = app.graph.add_node("https://b.com".into(), pos(1.0, 0.0));
    let c = app.graph.add_node("https://c.com".into(), pos(2.0, 0.0));
    let d = app.graph.add_node("https://d.com".into(), pos(3.0, 0.0));
    app.promote_node_to_active(d);
    app.select_node(c, false);
    let matches = vec![a, b];
    let colors = search_node_colors(&app, &matches, Some(a), true);
    assert_eq!(
        colors,
        vec![
            (a, rgb(140, 255, 140)),
            (b, rgb(95, 220, 130)),
            (c, rgb(255, 200, 100)),
            (d, rgb(100, 200, 255)),
        ]
    );
    let plain = search_node_colors(&app, &matches, Some(a), false);
    assert_eq!(plain[0], (a, rgb(140, 140, 165)));
}

fn tree_with_graph_root() -> Vec<TileKind> {
    vec![TileKind::Graph]
}

fn webview_tile_count(panes: &Vec<TileKind>, node_key: NodeKey) -> usize {
    panes.iter().filter(|p| **p == TileKind::WebView(node_key)).count()
}

#[test]
fn test_open_duplicate_tile_focuses_existing() {
    let mut tree = tree_with_graph_root();
    let node_key = NodeKey::new(7);

    open_or_focus_webview_tile(&mut tree, node_key);
    open_or_focus_webview_tile(&mut tree, node_key);

    assert_eq!(webview_tile_count(&tree, node_key), 1);
}

#[test]
fn test_close_last_webview_tile_leaves_graph_only() {
    let app = GraphBrowserApp::new_for_testing();
    let mut tree = tree_with_graph_root();
    let node_key = NodeKey::new(3);
    open_or_focus_webview_tile(&mut tree, node_key);

    remove_all_webview_tiles(&mut tree, &app);

    assert!(!has_any_webview_tiles_in(&tree));
    let has_graph_pane = tree.iter().any(|tile| matches!(tile, TileKind::Graph));
    assert!(has_graph_pane);
}

#[test]
fn test_all_webview_tile_nodes_tracks_correctly() {
    let mut tree = tree_with_graph_root();
    let a = NodeKey::new(1);
    let b = NodeKey::new(2);
    open_or_focus_webview_tile(&mut tree, a);
    open_or_focus_webview_tile(&mut tree, b);

    let nodes = all_webview_tile_nodes(&tree);
    assert_eq!(nodes.len(), 2);
    assert!(nodes.contains(&a));
    assert!(nodes.contains(&b));
}

#[test]
fn test_stale_node_cleanup_removes_tile() {
    let mut app = GraphBrowserApp::new_for_testing();
    let alive_key = app.add_node_and_sync("https://alive.example".into(), pos(0.0, 0.0));
    let stale_key = NodeKey::new(9999);
    let mut tree = tree_with_graph_root();
    open_or_focus_webview_tile(&mut tree, alive_key);
    open_or_focus_webview_tile(&mut tree, stale_key);

    prune_stale_webview_tile_keys_only(&mut tree, &app);
    let nodes = all_webview_tile_nodes(&tree);
    assert!(nodes.contains(&alive_key));
    assert!(!nodes.contains(&stale_key));
}

#[test]
fn test_open_returns_active_pane() {
    let mut tree = tree_with_graph_root();
    let a = NodeKey::new(1);
    let b = NodeKey::new(2);
    assert_eq!(open_or_focus_webview_tile(&mut tree, a), 1);
    assert_eq!(open_or_focus_webview_tile(&mut tree, b), 2);
    assert_eq!(open_or_focus_webview_tile(&mut tree, a), 1);
    assert_eq!(tree, vec![TileKind::Graph, TileKind::WebView(a), TileKind::WebView(b)]);
}

#[test]
fn test_remove_tile_for_node_keeps_others_in_order() {
    let app = GraphBrowserApp::new_for_testing();
    let a = NodeKey::new(1);
    let b = NodeKey::new(2);
    let mut tree = vec![TileKind::WebView(a), TileKind::Graph, TileKind::WebView(b), TileKind::WebView(a)];
    remove_webview_tile_for_node(&mut tree, &app, a);
    assert_eq!(tree, vec![TileKind::Graph, TileKind::WebView(b)]);
    assert!(has_any_webview_tiles_in(&tree));
}

#[test]
fn test_node_displays_follow_graph_and_selection() {
    let mut app = GraphBrowserApp::new_for_testing();
    let a = app.graph.add_node("https://a.com".into(), pos(100.0, 200.0));
    let b = app.graph.add_node("this is a very long title that should be truncated".into(), pos(1.0, 2.0));
    app.promote_node_to_active(a);
    app.select_node(b, false);
    let displays = node_displays(&app.graph, &app.selected_nodes);
    assert_eq!(displays.len(), 2);
    assert_eq!(displays[0].key, a);
    assert_eq!(displays[0].position, pos(100.0, 200.0));
    assert_eq!(displays[0].label, "https://a.com");
    assert_eq!(displays[0].color, rgb(100, 200, 255));
    assert!(displays[0].active && !displays[0].selected);
    assert_eq!(displays[1].key, b);
    assert_eq!(displays[1].label.chars().count(), 20);
    assert!(displays[1].label.ends_with('\u{2026}'));
    assert!(displays[1].selected && !displays[1].active);
    assert_eq!(displays[1].color, rgb(255, 200, 100));
    assert!(node_displays(&graphshell::graph::Graph::new(), &app.selected_nodes).is_empty());
}

#[test]
fn test_tab_labels_are_cut_to_26_characters() {
    let mut app = GraphBrowserApp::new_for_testing();
    let long = app.graph.add_node("https://example.com/a/very/long/path/for/a/tab".into(), pos(0.0, 0.0));
    let short = app.graph.add_node("https://a.com".into(), pos(1.0, 0.0));
    assert_eq!(tab_label(&app, &TileKind::Graph), "Graph");
    assert_eq!(tab_label(&app, &TileKind::WebView(short)), "https://a.com");
    let label = tab_label(&app, &TileKind::WebView(long));
    assert_eq!(label.chars().count(), 26);
    assert!(label.starts_with("https://example.com/a/ver"));
    assert!(label.ends_with('\u{2026}'));
}

#[test]
fn test_closing_a_webview_tab_queues_its_node() {
    let mut pending = Vec::new();
    assert!(on_tab_close(&TileKind::Graph, &mut pending));
    assert!(pending.is_empty());
    assert!(on_tab_close(&TileKind::WebView(NodeKey::new(4)), &mut pending));
    assert_eq!(pending, vec![NodeKey::new(4)]);
}

#[test]
fn test_reset_runtime_webview_state_clears_tiles_and_texture_caches() {
    let mut tree = tree_with_graph_root();
    let node_key = NodeKey::new(77);
    open_or_focus_webview_tile(&mut tree, node_key);

    let mut tile_rendering_contexts: Vec<NodeKey> = Vec::new();
    let mut tile_favicon_textures: Vec<NodeKey> = vec![node_key];
    let mut favicon_textures: Vec<WebViewId> = vec![WebViewId::new(1)];

    reset_runtime_webview_state(&mut tree, &mut tile_rendering_contexts, &mut tile_favicon_textures, &mut favicon_textures);

    assert!(!has_any_webview_tiles_in(&tree));
    assert!(tile_rendering_contexts.is_empty());
    assert!(tile_favicon_textures.is_empty());
    assert!(favicon_textures.is_empty());
}

#[test]
fn test_empty_graph_resets_webview_state() {
    let mut app = GraphBrowserApp::new_for_testing();
    let key = app.graph.add_node("https://a.com".into(), pos(0.0, 0.0));
    let mut tree = vec![TileKind::Graph, TileKind::WebView(key)];
    let mut contexts = vec![key];
    let mut tile_favicons = vec![key];
    let mut favicons = vec![WebViewId::new(3)];
    app.active_webview_nodes = vec![key];
    assert!(!reset_if_graph_empty(&mut app, &mut tree, &mut contexts, &mut tile_favicons, &mut favicons));
    assert_eq!(tree.len(), 2);
    assert_eq!(app.active_webview_nodes, vec![key]);
    app.clear_graph();
    assert!(reset_if_graph_empty(&mut app, &mut tree, &mut contexts, &mut tile_favicons, &mut favicons));
    assert_eq!(tree, vec![TileKind::Graph]);
    assert!(contexts.is_empty() && tile_favicons.is_empty() && favicons.is_empty());
    assert!(app.active_webview_nodes.is_empty());
}
