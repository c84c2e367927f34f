use graphshell::app::GraphBrowserApp;
use graphshell::graph::{NodeKey, Position};
use graphshell::render::{intents_from_graph_actions, sync_graph_positions_from_layout, GraphAction, ViewIntent};

fn pos(x: f32, y: f32) -> Position {
    Position { x: x.to_bits(), y: y.to_bits() }
}

fn test_app() -> GraphBrowserApp {
    GraphBrowserApp::new_for_testing()
}

/// Apply the graph intents to `app` and return the zooms handed to the
/// camera, in order.
fn apply(app: &mut GraphBrowserApp, intents: Vec<ViewIntent>) -> Vec<f32> {
    let mut zooms = Vec::new();
    for intent in intents {
        match intent {
            ViewIntent::Graph(intent) => app.apply_intents(vec![(intent, pos(400.0, 300.0))]),
            ViewIntent::SetZoom { zoom_bits } => zooms.push(f32::from_bits(zoom_bits)),
        }
    }
    zooms
}

#[test]
fn test_focus_node_action() {
    let mut app = test_app();
    let key = app.add_node_and_sync("https://example.com".into(), pos(0.0, 0.0));

    let intents = intents_from_graph_actions(vec![GraphAction::FocusNode(key)]);
    apply(&mut app, intents);

    assert!(app.selected_nodes.contains(&key));
}

#[test]
fn test_drag_start_sets_interacting() {
    let mut app = test_app();
    assert!(!app.is_interacting);

    let intents = intents_from_graph_actions(vec![GraphAction::DragStart]);
    apply(&mut app, intents);

    assert!(app.is_interacting);
}

#[test]
fn test_drag_end_clears_interacting_and_updates_position() {
    let mut app = test_app();
    let key = app.add_node_and_sync("https://example.com".into(), pos(0.0, 0.0));
    app.set_interacting(true);

    let intents = intents_from_graph_actions(vec![GraphAction::DragEnd(key, pos(150.0, 250.0))]);
    apply(&mut app, intents);

    assert!(!app.is_interacting);
    let node = app.graph.get_node(key).unwrap();
    assert_eq!(node.position, pos(150.0, 250.0));
}

#[test]
fn test_move_node_updates_position() {
    let mut app = test_app();
    let key = app.add_node_and_sync("https://example.com".into(), pos(0.0, 0.0));

    let intents = intents_from_graph_actions(vec![GraphAction::MoveNode(key, pos(42.0, 84.0))]);
    apply(&mut app, intents);

    let node = app.graph.get_node(key).unwrap();
    assert_eq!(node.position, pos(42.0, 84.0));
}

#[test]
fn test_select_node_action() {
    let mut app = test_app();
    let key = app.add_node_and_sync("https://example.com".into(), pos(0.0, 0.0));

    let intents = intents_from_graph_actions(vec![GraphAction::SelectNode(key)]);
    apply(&mut app, intents);

    assert!(app.selected_nodes.contains(&key));
}

#[test]
fn test_multiple_actions_sequence() {
    let mut app = test_app();
    let k1 = app.add_node_and_sync("a".into(), pos(0.0, 0.0));
    let k2 = app.add_node_and_sync("b".into(), pos(100.0, 100.0));

    let intents = intents_from_graph_actions(vec![
        GraphAction::SelectNode(k1),
        GraphAction::MoveNode(k2, pos(200.0, 300.0)),
        GraphAction::Zoom(1.5f32.to_bits()),
    ]);
    let zooms = apply(&mut app, intents);

    assert!(app.selected_nodes.contains(&k1));
    assert_eq!(app.graph.get_node(k2).unwrap().position, pos(200.0, 300.0));
    assert_eq!(zooms.len(), 1);
    assert!((zooms[0] - 1.5).abs() < 0.01);
}

#[test]
fn test_empty_actions_is_noop() {
    let mut app = test_app();
    let key = app.add_node_and_sync("a".into(), pos(50.0, 60.0));
    let pos_before = app.graph.get_node(key).unwrap().position;

    let intents = intents_from_graph_actions(vec![]);
    let zooms = apply(&mut app, intents);

    assert_eq!(app.graph.get_node(key).unwrap().position, pos_before);
    assert!(zooms.is_empty());
}

#[test]
fn test_drag_end_gives_two_intents_in_order() {
    let key = NodeKey::new(3);
    let intents = intents_from_graph_actions(vec![GraphAction::DragEnd(key, pos(1.0, 2.0)), GraphAction::Zoom(7)]);
    assert_eq!(intents.len(), 3);
    assert!(matches!(intents[0], ViewIntent::Graph(graphshell::app::GraphIntent::SetInteracting { interacting: false })));
    assert!(matches!(intents[1], ViewIntent::Graph(graphshell::app::GraphIntent::SetNodePosition { key: k, .. }) if k == key));
    assert!(matches!(intents[2], ViewIntent::SetZoom { zoom_bits: 7 }));
}

#[test]
fn test_layout_positions_skip_pinned_nodes() {
    let mut app = test_app();
    let a = app.add_node_and_sync("https://a.com".into(), pos(0.0, 0.0));
    let b = app.add_node_and_sync("https://b.com".into(), pos(5.0, 5.0));
    app.graph.get_node_mut(b).unwrap().is_pinned = true;

    let layout = vec![(a, pos(10.0, 20.0)), (b, pos(30.0, 40.0)), (NodeKey::new(99), pos(1.0, 1.0))];
    let pinned = sync_graph_positions_from_layout(&mut app, &layout);

    assert_eq!(app.graph.get_node(a).unwrap().position, pos(10.0, 20.0));
    assert_eq!(app.graph.get_node(b).unwrap().position, pos(5.0, 5.0));
    assert_eq!(pinned, vec![(b, pos(5.0, 5.0))]);
}
