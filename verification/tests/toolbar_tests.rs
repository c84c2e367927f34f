use graphshell::app::GraphBrowserApp;
use graphshell::graph::Position;
use graphshell::toolbar::{FocusedWebview, LoadStatus, ToolbarState};

fn pos(x: f32, y: f32) -> Position {
    Position { x: x.to_bits(), y: y.to_bits() }
}

#[test]
fn test_location_follows_selected_node_in_graph_view() {
    let mut app = GraphBrowserApp::new_for_testing();
    let key = app.graph.add_node("https://a.com".into(), pos(0.0, 0.0));
    let mut toolbar = ToolbarState::new("about:blank");
    assert!(!toolbar.update_location_in_toolbar(&app, false, None));
    app.select_node(key, false);
    assert!(toolbar.update_location_in_toolbar(&app, false, None));
    assert_eq!(toolbar.location, "https://a.com");
    assert!(!toolbar.update_location_in_toolbar(&app, false, None));
}

#[test]
fn test_location_follows_focused_webview_unless_edited() {
    let app = GraphBrowserApp::new_for_testing();
    let mut toolbar = ToolbarState::new("about:blank");
    assert!(toolbar.update_location_in_toolbar(&app, true, Some("https://b.com/".to_string())));
    assert_eq!(toolbar.location, "https://b.com/");
    toolbar.location_dirty = true;
    assert!(!toolbar.update_location_in_toolbar(&app, true, Some("https://c.com/".to_string())));
    assert_eq!(toolbar.location, "https://b.com/");
}

#[test]
fn test_load_status_change_clears_edit() {
    let mut toolbar = ToolbarState::new("about:blank");
    toolbar.location_dirty = true;
    assert!(!toolbar.update_load_status(None));
    assert!(toolbar.location_dirty);
    assert!(toolbar.update_load_status(Some(LoadStatus::Started)));
    assert!(!toolbar.location_dirty);
    assert_eq!(toolbar.load_status, LoadStatus::Started);
}

#[test]
fn test_status_text_and_navigation_changes() {
    let mut toolbar = ToolbarState::new("about:blank");
    assert!(!toolbar.update_status_text(None));
    assert!(toolbar.update_status_text(Some("Loading".to_string())));
    assert!(!toolbar.update_status_text(Some("Loading".to_string())));
    assert!(toolbar.update_can_go_back_and_forward(Some((true, false))));
    assert!(!toolbar.update_can_go_back_and_forward(Some((true, false))));
    assert!(toolbar.update_can_go_back_and_forward(None));
    assert!(!toolbar.can_go_back && !toolbar.can_go_forward);
}

#[test]
fn test_update_webview_data_reports_any_change() {
    let app = GraphBrowserApp::new_for_testing();
    let mut toolbar = ToolbarState::new("about:blank");
    assert!(!toolbar.update_webview_data(&app, true, None));
    let focused = FocusedWebview {
        url: Some("https://d.com/".to_string()),
        load_status: LoadStatus::Complete,
        status_text: None,
        can_go_back: false,
        can_go_forward: false,
    };
    assert!(toolbar.update_webview_data(&app, true, Some(focused)));
    assert_eq!(toolbar.location, "https://d.com/");
}

#[test]
fn test_begin_graph_search_keeps_existing_query() {
    let mut toolbar = ToolbarState::new("https://a.com");
    toolbar.begin_graph_search();
    assert_eq!(toolbar.location, "@");
    assert!(toolbar.location_dirty);
    toolbar.location = "@rust".to_string();
    toolbar.begin_graph_search();
    assert_eq!(toolbar.location, "@rust");
}
