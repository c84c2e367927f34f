use graphshell::app::{GraphBrowserApp, GraphIntent, StoreRequest, WebViewId};
use graphshell::graph::{EdgeType, Graph, Position};
use graphshell::persistence::replay::{recover_graph, replay_log};
use graphshell::persistence::types::LogEntry;

fn pos(x: f32, y: f32) -> Position {
    Position { x: x.to_bits(), y: y.to_bits() }
}

fn logged(app: &GraphBrowserApp) -> Vec<LogEntry> {
    app.store_requests
        .iter()
        .filter_map(|r| match r {
            StoreRequest::Log(e) => Some(match e {
                LogEntry::AddNode { node_id, url, position_x, position_y } => LogEntry::AddNode {
                    node_id: node_id.clone(),
                    url: url.clone(),
                    position_x: *position_x,
                    position_y: *position_y,
                },
                LogEntry::AddEdge { from_node_id, to_node_id, edge_type } => LogEntry::AddEdge {
                    from_node_id: from_node_id.clone(),
                    to_node_id: to_node_id.clone(),
                    edge_type: *edge_type,
                },
                LogEntry::UpdateNodeTitle { node_id, title } => LogEntry::UpdateNodeTitle { node_id: node_id.clone(), title: title.clone() },
                LogEntry::PinNode { node_id, is_pinned } => LogEntry::PinNode { node_id: node_id.clone(), is_pinned: *is_pinned },
                LogEntry::RemoveNode { node_id } => LogEntry::RemoveNode { node_id: node_id.clone() },
                LogEntry::ClearGraph => LogEntry::ClearGraph,
                LogEntry::UpdateNodeUrl { node_id, new_url } => LogEntry::UpdateNodeUrl { node_id: node_id.clone(), new_url: new_url.clone() },
            }),
            _ => None,
        })
        .collect()
}

#[test]
fn test_log_replay_matches_live_graph() {
    let mut app = GraphBrowserApp::with_graph(Graph::new(), true, true);
    let a = app.add_node_and_sync("https://a.com".to_string(), pos(1.0, 2.0));
    let b = app.add_node_and_sync("https://b.com".to_string(), pos(3.0, 4.0));
    let c = app.add_node_and_sync("https://c.com".to_string(), pos(5.0, 6.0));
    app.add_edge_and_sync(a, b, EdgeType::Hyperlink);
    app.add_edge_and_sync(b, c, EdgeType::History);
    app.map_webview_to_node(WebViewId::new(1), b);
    app.apply_intents(vec![
        (GraphIntent::WebViewTitleChanged { webview_id: WebViewId::new(1), title: Some("Bee".to_string()) }, pos(0.0, 0.0)),
        (GraphIntent::SetNodeUrl { key: c, new_url: "https://see.com".to_string() }, pos(0.0, 0.0)),
    ]);
    app.select_node(a, false);
    app.remove_selected_nodes();
    let replayed = recover_graph(None, &logged(&app)).unwrap();
    assert_eq!(replayed.node_count(), app.graph.node_count());
    assert_eq!(replayed.edge_count(), app.graph.edge_count());
    for (_, live) in app.graph.nodes() {
        let (_, back) = replayed.get_node_by_id(live.id).unwrap();
        assert_eq!(back.url, live.url);
        assert_eq!(back.title, live.title);
        assert_eq!(back.position, live.position);
    }
}

#[test]
fn test_toggle_twice_gives_back_state() {
    let mut app = GraphBrowserApp::new_for_testing();
    let before = (app.physics_running, app.show_physics_panel, app.show_help_panel);
    app.toggle_physics();
    app.toggle_physics();
    app.toggle_physics_panel();
    app.toggle_physics_panel();
    app.toggle_help_panel();
    app.toggle_help_panel();
    assert_eq!((app.physics_running, app.show_physics_panel, app.show_help_panel), before);
}

#[test]
fn test_add_then_remove_gives_back_graph() {
    let mut graph = Graph::new();
    let a = graph.add_node("https://a.com".to_string(), pos(0.0, 0.0));
    let b = graph.add_node("https://b.com".to_string(), pos(0.0, 0.0));
    graph.add_edge(a, b, EdgeType::Hyperlink);
    let keys_before = graph.node_keys();
    let n = graph.add_node("https://n.com".to_string(), pos(0.0, 0.0));
    graph.remove_node(n);
    assert_eq!(graph.node_keys(), keys_before);
    assert_eq!(graph.edge_count(), 1);
    assert!(graph.has_edge_between(a, b));
}

#[test]
fn test_replaying_an_add_twice_adds_once() {
    let entry = || LogEntry::AddNode {
        node_id: uuid::Uuid::from_u128(5).to_string(),
        url: "https://once.com".to_string(),
        position_x: 0,
        position_y: 0,
    };
    let mut graph = Graph::new();
    replay_log(&mut graph, &vec![entry(), entry()]);
    assert_eq!(graph.node_count(), 1);
}

#[test]
fn test_search_ranks_best_first() {
    let mut graph = Graph::new();
    graph.add_node("https://zzz.example/kitchen".to_string(), pos(0.0, 0.0));
    let exact = graph.add_node("https://kit.com".to_string(), pos(0.0, 0.0));
    let matches = graphshell::search::fuzzy_match_node_keys(&graph, "kit.com");
    assert_eq!(matches.first().copied(), Some(exact));
}

#[test]
fn test_key_preserving_run_replays_onto_snapshot() {
    let mut app = GraphBrowserApp::with_graph(Graph::new(), true, true);
    let a = app.add_node_and_sync("https://a.com".to_string(), pos(1.0, 2.0));
    let b = app.add_node_and_sync("https://b.com".to_string(), pos(3.0, 4.0));
    let c = app.add_node_and_sync("https://c.com".to_string(), pos(5.0, 6.0));
    app.add_edge_and_sync(a, b, EdgeType::Hyperlink);
    let snapshot = app.graph.to_snapshot();
    let logged_before = logged(&app).len();

    app.map_webview_to_node(WebViewId::new(1), b);
    app.apply_intents(vec![
        (GraphIntent::SetNodeUrl { key: a, new_url: "https://aa.com".to_string() }, pos(0.0, 0.0)),
        (GraphIntent::WebViewTitleChanged { webview_id: WebViewId::new(1), title: Some("Bee".to_string()) }, pos(0.0, 0.0)),
        (GraphIntent::SetNodeUrl { key: a, new_url: "https://aaa.com".to_string() }, pos(0.0, 0.0)),
    ]);
    app.select_node(c, false);
    app.remove_selected_nodes();

    let after: Vec<LogEntry> = logged(&app).into_iter().skip(logged_before).collect();
    let mut replayed = Graph::from_snapshot(&snapshot);
    replay_log(&mut replayed, &after);
    assert_eq!(replayed.node_count(), 2);
    assert_eq!(replayed.edge_count(), 1);
    for (_, live) in app.graph.nodes() {
        let (_, back) = replayed.get_node_by_id(live.id).unwrap();
        assert_eq!(back.url, live.url);
        assert_eq!(back.title, live.title);
    }
    assert_eq!(replayed.get_node_by_url("https://aaa.com").unwrap().1.title, "https://a.com");
}

fn identity_edges(g: &Graph) -> Vec<(u128, u128, EdgeType)> {
    let mut out: Vec<(u128, u128, EdgeType)> = g
        .edges()
        .iter()
        .map(|e| (g.get_node(e.from).unwrap().id, g.get_node(e.to).unwrap().id, e.edge_type))
        .collect();
    out.sort_by_key(|(a, b, t)| (*a, *b, matches!(t, EdgeType::History)));
    out
}

#[test]
fn test_log_replay_recovers_run_with_additions() {
    let mut app = GraphBrowserApp::with_graph(Graph::new(), true, true);
    let a = app.add_node_and_sync("https://a.com".to_string(), pos(1.0, 2.0));
    let b = app.add_node_and_sync("https://b.com".to_string(), pos(3.0, 4.0));
    app.add_edge_and_sync(a, b, EdgeType::Hyperlink);
    let snapshot = app.graph.to_snapshot();
    let logged_before = logged(&app).len();

    let c = app.add_node_and_sync("https://c.com".to_string(), pos(5.0, 6.0));
    app.add_edge_and_sync(a, c, EdgeType::History);
    app.add_edge_and_sync(a, c, EdgeType::History);
    app.add_edge_and_sync(c, b, EdgeType::Hyperlink);
    app.apply_intents(vec![(GraphIntent::SetNodeUrl { key: c, new_url: "https://see.com".to_string() }, pos(0.0, 0.0))]);
    app.select_node(b, false);
    app.remove_selected_nodes();

    let after: Vec<LogEntry> = logged(&app).into_iter().skip(logged_before).collect();
    let mut replayed = Graph::from_snapshot(&snapshot);
    replay_log(&mut replayed, &after);

    assert_eq!(replayed.node_count(), app.graph.node_count());
    for (_, live) in app.graph.nodes() {
        let (_, back) = replayed.get_node_by_id(live.id).unwrap();
        assert_eq!(back.url, live.url);
        assert_eq!(back.title, live.title);
        assert_eq!(back.position, live.position);
        assert_eq!(back.is_pinned, live.is_pinned);
    }
    assert_eq!(identity_edges(&replayed), identity_edges(&app.graph));
    assert_eq!(identity_edges(&replayed).len(), 2);

    let recovered = recover_graph(Some(&snapshot), &after).unwrap();
    assert_eq!(recovered.node_count(), app.graph.node_count());
    assert_eq!(identity_edges(&recovered), identity_edges(&app.graph));
}

#[test]
fn test_logged_identity_text_is_hyphenated_lower_hex() {
    let mut app = GraphBrowserApp::with_graph(Graph::new(), true, true);
    let key = app.add_node_and_sync("https://a.com".to_string(), pos(0.0, 0.0));
    let id = app.graph.get_node(key).unwrap().id;
    let entries = logged(&app);
    match &entries[0] {
        LogEntry::AddNode { node_id, .. } => {
            let hex = format!("{:032x}", id);
            let expected = format!("{}-{}-{}-{}-{}", &hex[0..8], &hex[8..12], &hex[12..16], &hex[16..20], &hex[20..32]);
            assert_eq!(node_id, &expected);
            assert_eq!(node_id.len(), 36);
        },
        _ => panic!("expected an AddNode entry"),
    }
}

#[test]
fn test_delete_wins_over_every_update_in_any_order() {
    for at in 0..=5 {
        let mut app = GraphBrowserApp::with_graph(Graph::new(), true, true);
        let key = app.add_node_and_sync("https://a.com".to_string(), pos(0.0, 0.0));
        let wv = WebViewId::new(1);
        app.map_webview_to_node(wv, key);
        app.select_node(key, false);
        let mut intents = vec![
            GraphIntent::WebViewTitleChanged { webview_id: wv, title: Some("T".to_string()) },
            GraphIntent::WebViewHistoryChanged { webview_id: wv, entries: vec!["https://a.com".to_string()], current: 0 },
            GraphIntent::SetNodeThumbnail { key, png_bytes: vec![1], width: 1, height: 1 },
            GraphIntent::SetNodeFavicon { key, rgba: vec![1, 2, 3, 4], width: 1, height: 1 },
            GraphIntent::SetNodeUrl { key, new_url: "https://b.com".to_string() },
        ];
        intents.insert(at, GraphIntent::RemoveSelectedNodes);
        app.apply_intents(intents.into_iter().map(|i| (i, pos(0.0, 0.0))).collect());
        assert!(app.graph.get_node(key).is_none());
        assert!(app.get_node_for_webview(wv).is_none());
        assert_eq!(app.graph.node_count(), 0);
    }
}

#[test]
fn test_same_intents_on_equal_states_give_equal_states() {
    let build = || {
        let mut app = GraphBrowserApp::with_graph(Graph::new(), false, true);
        let a = app.add_node_and_sync("https://a.com".to_string(), pos(1.0, 2.0));
        let b = app.add_node_and_sync("https://b.com".to_string(), pos(3.0, 4.0));
        app.map_webview_to_node(WebViewId::new(7), b);
        (app, a, b)
    };
    let (mut first, a1, b1) = build();
    let (mut second, a2, b2) = build();
    assert_eq!((a1, b1), (a2, b2));
    let batch = |a, b| {
        vec![
            (GraphIntent::SelectNode { key: a, multi_select: false }, pos(0.0, 0.0)),
            (GraphIntent::SelectNode { key: b, multi_select: true }, pos(0.0, 0.0)),
            (GraphIntent::SetInteracting { interacting: true }, pos(0.0, 0.0)),
            (GraphIntent::TogglePhysics, pos(0.0, 0.0)),
            (GraphIntent::SetNodePosition { key: a, position: pos(9.0, 9.0) }, pos(0.0, 0.0)),
            (GraphIntent::SetNodeThumbnail { key: b, png_bytes: vec![1, 2], width: 2, height: 1 }, pos(0.0, 0.0)),
            (GraphIntent::WebViewHistoryChanged {
                webview_id: WebViewId::new(7),
                entries: vec!["https://b.com".to_string(), "https://c.com".to_string()],
                current: 5,
            }, pos(0.0, 0.0)),
            (GraphIntent::ToggleHelpPanel, pos(0.0, 0.0)),
        ]
    };
    first.apply_intents(batch(a1, b1));
    second.apply_intents(batch(a2, b2));
    assert_eq!(first.selected_nodes.keys(), second.selected_nodes.keys());
    assert_eq!(first.selected_nodes.primary(), second.selected_nodes.primary());
    assert_eq!(first.selected_nodes.revision(), second.selected_nodes.revision());
    assert_eq!(first.physics_running, second.physics_running);
    assert_eq!(first.physics_running_before_interaction, second.physics_running_before_interaction);
    assert_eq!(first.show_help_panel, second.show_help_panel);
    for key in [a1, b1] {
        let x = first.graph.get_node(key).unwrap();
        let y = second.graph.get_node(key).unwrap();
        assert_eq!(x.url, y.url);
        assert_eq!(x.position, y.position);
        assert_eq!(x.thumbnail_png, y.thumbnail_png);
        assert_eq!(x.history_entries, y.history_entries);
        assert_eq!(x.history_index, y.history_index);
    }
    assert_eq!(first.graph.get_node(a1).unwrap().position, pos(9.0, 9.0));
    assert_eq!(first.graph.get_node(b1).unwrap().history_index, 1);
    assert_eq!(first.physics_running_before_interaction, Some(false));
}

fn mixed_batch() -> Vec<(GraphIntent, Position)> {
    vec![
        (GraphIntent::CreateNodeAtUrl { url: "https://a.com".to_string(), position: pos(1.0, 1.0) }, pos(0.0, 0.0)),
        (GraphIntent::WebViewUrlChanged { webview_id: WebViewId::new(1), new_url: "https://b.com".to_string() }, pos(0.0, 0.0)),
        (GraphIntent::WebViewCreated {
            parent_webview_id: WebViewId::new(1),
            child_webview_id: WebViewId::new(2),
            initial_url: None,
        }, pos(5.0, 5.0)),
        (GraphIntent::WebViewTitleChanged { webview_id: WebViewId::new(1), title: Some("Bee".to_string()) }, pos(0.0, 0.0)),
        (GraphIntent::WebViewUrlChanged { webview_id: WebViewId::new(1), new_url: "https://bee.com".to_string() }, pos(0.0, 0.0)),
        (GraphIntent::CreateNodeNearCenter, pos(7.0, 8.0)),
        (GraphIntent::RemoveSelectedNodes, pos(0.0, 0.0)),
    ]
}

fn summary(app: &GraphBrowserApp) -> Vec<(String, String, Position, Option<u64>)> {
    let mut all: Vec<(String, String, Position, Option<u64>)> = app
        .graph
        .nodes()
        .into_iter()
        .map(|(k, n)| (n.url.clone(), n.title.clone(), n.position, app.get_webview_for_node(k).map(|w| w.id)))
        .collect();
    all.sort_by(|x, y| x.0.cmp(&y.0));
    all
}

#[test]
fn test_same_intents_with_new_nodes_give_alike_states() {
    let mut first = GraphBrowserApp::with_graph(Graph::new(), true, false);
    let mut second = GraphBrowserApp::with_graph(Graph::new(), true, false);
    first.apply_intents(mixed_batch());
    second.apply_intents(mixed_batch());
    assert_eq!(summary(&first), summary(&second));
    assert_eq!(first.graph.node_count(), 3);
    assert_eq!(first.graph.edge_count(), second.graph.edge_count());
    assert_eq!(first.graph.edge_count(), 1);
    assert_eq!(first.next_placeholder_id, second.next_placeholder_id);
    assert_eq!(first.store_requests.len(), second.store_requests.len());
    assert!(first.selected_nodes.is_empty());
    let nodes = summary(&first);
    assert!(nodes[0].0.starts_with("about:blank#"));
    assert_eq!(nodes[0].3, Some(2));
    assert_eq!(nodes[1].0, "https://a.com");
    assert_eq!((nodes[2].0.as_str(), nodes[2].1.as_str(), nodes[2].3), ("https://bee.com", "Bee", Some(1)));
}

#[test]
fn test_two_batches_match_one_concatenated_batch() {
    let mut split = GraphBrowserApp::with_graph(Graph::new(), false, true);
    let mut whole = GraphBrowserApp::with_graph(Graph::new(), false, true);
    let mut xs = mixed_batch();
    let ys = xs.split_off(3);
    split.apply_intents(xs);
    split.apply_intents(ys);
    whole.apply_intents(mixed_batch());
    assert_eq!(summary(&split), summary(&whole));
    assert_eq!(split.graph.edge_count(), whole.graph.edge_count());
    assert_eq!(split.next_placeholder_id, whole.next_placeholder_id);
    assert_eq!(split.selected_nodes.keys(), whole.selected_nodes.keys());
}
