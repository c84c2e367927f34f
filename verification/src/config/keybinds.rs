//! Keybind configuration system.

use vstd::prelude::*;

use super::{config_dir, config_dir_path, join_path, joined};

verus! {

/// Keybind configuration
pub struct KeybindConfig {
    /// Toggle physics simulation (default: T)
    pub toggle_physics: String,
    /// Toggle view (Graph ↔ Detail) (default: Home)
    pub toggle_view: String,
    /// Center camera on graph (default: C)
    pub center_camera: String,
    /// New node (default: N)
    pub new_node: String,
    /// Delete selected node (default: Delete)
    pub delete_node: String,
    /// Select all nodes (default: Ctrl+A)
    pub select_all: String,
    /// Deselect all nodes (default: Escape)
    pub deselect_all: String,
}

impl KeybindConfig {
    /// The default bindings.
    pub open spec fn is_default(&self) -> bool {
        &&& self.toggle_physics@ == "T"@
        &&& self.toggle_view@ == "Home"@
        &&& self.center_camera@ == "C"@
        &&& self.new_node@ == "N"@
        &&& self.delete_node@ == "Delete"@
        &&& self.select_all@ == "Ctrl+A"@
        &&& self.deselect_all@ == "Escape"@
    }

    /// Get the path to the keybinds config file: `keybinds.toml` in the
    /// configuration directory (see [`config_dir`](super::config_dir)).
    pub fn config_path(config_home: Option<&str>) -> (path: String)
        ensures
            path@ == joined(config_dir_path(match config_home { Some(h) => Some(h@), None => None }), "keybinds.toml"@),
    {
        let dir = config_dir(config_home);
        join_path(dir.as_str(), "keybinds.toml")
    }
}

impl Default for KeybindConfig {
    fn default() -> (c: Self)
        ensures
            c.is_default(),
    {
        KeybindConfig {
            toggle_physics: String::from_str("T"),
            toggle_view: String::from_str("Home"),
            center_camera: String::from_str("C"),
            new_node: String::from_str("N"),
            delete_node: String::from_str("Delete"),
            select_all: String::from_str("Ctrl+A"),
            deselect_all: String::from_str("Escape"),
        }
    }
}

} // verus!
