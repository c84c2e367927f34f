use graphshell::app::{GraphBrowserApp, GraphIntent};
use graphshell::graph::Position;
use graphshell::input::{collect_actions, intents_from_actions, KeyPresses, KeyboardActions};

fn pos(x: f32, y: f32) -> Position {
    Position { x: x.to_bits(), y: y.to_bits() }
}

fn apply(app: &mut GraphBrowserApp, intents: Vec<GraphIntent>) {
    app.apply_intents(intents.into_iter().map(|i| (i, pos(400.0, 300.0))).collect());
}

fn test_app() -> GraphBrowserApp {
    GraphBrowserApp::new_for_testing()
}

#[test]
fn test_toggle_view_action_is_gui_owned() {
    let mut app = test_app();
    app.add_node_and_sync("https://example.com".into(), pos(0.0, 0.0));
    let selected_before = app.selected_nodes.clone();
    let count_before = app.graph.node_count();
    let intents = intents_from_actions(&KeyboardActions { toggle_view: true, ..Default::default() });
    apply(&mut app, intents);
    assert_eq!(app.selected_nodes, selected_before);
    assert_eq!(app.graph.node_count(), count_before);
}

#[test]
fn test_toggle_physics_action() {
    let mut app = test_app();
    let was_running = app.physics_running;
    let intents = intents_from_actions(&KeyboardActions { toggle_physics: true, ..Default::default() });
    apply(&mut app, intents);
    assert_ne!(app.physics_running, was_running);
}

#[test]
fn test_fit_to_screen_action() {
    let mut app = test_app();
    assert!(!app.fit_to_screen_requested);
    let intents = intents_from_actions(&KeyboardActions { fit_to_screen: true, ..Default::default() });
    apply(&mut app, intents);
    assert!(app.fit_to_screen_requested);
}

#[test]
fn test_toggle_physics_panel_action() {
    let mut app = test_app();
    let was_shown = app.show_physics_panel;
    let intents = intents_from_actions(&KeyboardActions { toggle_physics_panel: true, ..Default::default() });
    apply(&mut app, intents);
    assert_ne!(app.show_physics_panel, was_shown);
}

#[test]
fn test_toggle_help_panel_action() {
    let mut app = test_app();
    assert!(!app.show_help_panel);
    let intents = intents_from_actions(&KeyboardActions { toggle_help_panel: true, ..Default::default() });
    apply(&mut app, intents);
    assert!(app.show_help_panel);
    let intents = intents_from_actions(&KeyboardActions { toggle_help_panel: true, ..Default::default() });
    apply(&mut app, intents);
    assert!(!app.show_help_panel);
}

#[test]
fn test_create_node_action() {
    let mut app = test_app();
    assert_eq!(app.graph.node_count(), 0);
    let intents = intents_from_actions(&KeyboardActions { create_node: true, ..Default::default() });
    apply(&mut app, intents);
    assert_eq!(app.graph.node_count(), 1);
}

#[test]
fn test_delete_selected_action() {
    let mut app = test_app();
    let key = app.add_node_and_sync("https://example.com".into(), pos(0.0, 0.0));
    app.select_node(key, false);
    assert_eq!(app.graph.node_count(), 1);
    let intents = intents_from_actions(&KeyboardActions { delete_selected: true, ..Default::default() });
    apply(&mut app, intents);
    assert_eq!(app.graph.node_count(), 0);
}

#[test]
fn test_clear_graph_action() {
    let mut app = test_app();
    app.add_node_and_sync("a".into(), pos(0.0, 0.0));
    app.add_node_and_sync("b".into(), pos(100.0, 0.0));
    assert_eq!(app.graph.node_count(), 2);
    let intents = intents_from_actions(&KeyboardActions { clear_graph: true, ..Default::default() });
    apply(&mut app, intents);
    assert_eq!(app.graph.node_count(), 0);
}

#[test]
fn test_no_actions_is_noop() {
    let mut app = test_app();
    app.add_node_and_sync("https://example.com".into(), pos(0.0, 0.0));
    let before_count = app.graph.node_count();
    let before_physics = app.physics_running;
    let intents = intents_from_actions(&KeyboardActions::default());
    apply(&mut app, intents);
    assert_eq!(app.graph.node_count(), before_count);
    assert_eq!(app.physics_running, before_physics);
}

#[test]
fn test_actions_give_intents_in_fixed_order() {
    let all = KeyboardActions {
        toggle_physics: true,
        toggle_view: true,
        fit_to_screen: true,
        toggle_physics_panel: true,
        toggle_help_panel: true,
        create_node: true,
        delete_selected: true,
        clear_graph: true,
    };
    let intents = intents_from_actions(&all);
    assert_eq!(intents.len(), 7);
    assert!(matches!(intents[0], GraphIntent::TogglePhysics));
    assert!(matches!(intents[1], GraphIntent::RequestFitToScreen));
    assert!(matches!(intents[2], GraphIntent::TogglePhysicsPanel));
    assert!(matches!(intents[3], GraphIntent::ToggleHelpPanel));
    assert!(matches!(intents[4], GraphIntent::CreateNodeNearCenter));
    assert!(matches!(intents[5], GraphIntent::RemoveSelectedNodes));
    assert!(matches!(intents[6], GraphIntent::ClearGraph));
}

fn no_keys() -> KeyPresses {
    KeyPresses {
        escape: false,
        home: false,
        t: false,
        c: false,
        p: false,
        n: false,
        f1: false,
        question_mark: false,
        delete: false,
        ctrl: false,
        shift: false,
    }
}

#[test]
fn test_collect_actions_maps_keys() {
    let a = collect_actions(&KeyPresses { t: true, c: true, p: true, n: true, question_mark: true, ..no_keys() }, false);
    assert!(a.toggle_physics && a.fit_to_screen && a.toggle_physics_panel && a.create_node && a.toggle_help_panel);
    assert!(!a.toggle_view && !a.delete_selected && !a.clear_graph);
    let esc = collect_actions(&KeyPresses { escape: true, ..no_keys() }, false);
    assert!(esc.toggle_view);
}

#[test]
fn test_collect_actions_delete_modifiers() {
    let plain = collect_actions(&KeyPresses { delete: true, ..no_keys() }, false);
    assert!(plain.delete_selected && !plain.clear_graph);
    let both = collect_actions(&KeyPresses { delete: true, ctrl: true, shift: true, ..no_keys() }, false);
    assert!(both.clear_graph && !both.delete_selected);
    let ctrl_only = collect_actions(&KeyPresses { delete: true, ctrl: true, ..no_keys() }, false);
    assert!(!ctrl_only.clear_graph && !ctrl_only.delete_selected);
}

#[test]
fn test_collect_actions_respects_text_focus() {
    let all = KeyPresses { home: true, t: true, c: true, n: true, delete: true, ..no_keys() };
    let focused = collect_actions(&all, true);
    assert!(focused.toggle_view);
    assert!(!focused.toggle_physics && !focused.fit_to_screen && !focused.create_node && !focused.delete_selected);
    let escape_focused = collect_actions(&KeyPresses { escape: true, home: true, ..no_keys() }, true);
    assert!(!escape_focused.toggle_view);
}
