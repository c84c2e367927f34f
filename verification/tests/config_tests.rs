use graphshell::config::keybinds::KeybindConfig;
use graphshell::config::{config_dir, join_path};
use graphshell::graph::persistence::GraphPersistence;

#[test]
fn test_keybind_defaults() {
    let c = KeybindConfig::default();
    assert_eq!(c.toggle_physics, "T");
    assert_eq!(c.toggle_view, "Home");
    assert_eq!(c.center_camera, "C");
    assert_eq!(c.new_node, "N");
    assert_eq!(c.delete_node, "Delete");
    assert_eq!(c.select_all, "Ctrl+A");
    assert_eq!(c.deselect_all, "Escape");
}

#[test]
fn test_config_paths() {
    assert_eq!(config_dir(Some("/home/u/.config")), "/home/u/.config/graphshell");
    assert_eq!(config_dir(None), ".graphshell");
    assert_eq!(KeybindConfig::config_path(Some("/etc/")), "/etc/graphshell/keybinds.toml");
    assert_eq!(join_path("", "a"), "a");
}

#[test]
fn test_graph_persistence_paths() {
    let p = GraphPersistence::new("/data");
    assert_eq!(p.snapshot_path, "/data/graph_snapshot.json");
    assert_eq!(p.log_path, "/data/graph_log.json");
    assert!(p.save_snapshot(&graphshell::graph::Graph::new()).is_ok());
    assert_eq!(p.load_graph().unwrap().node_count(), 0);
}
