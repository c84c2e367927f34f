//! Records written to the snapshot store and the mutation log.

use vstd::prelude::*;

verus! {

/// Persisted node.
pub struct PersistedNode {
    /// Stable node identity (hyphenated UUID text).
    pub node_id: String,
    pub url: String,
    pub title: String,
    /// Bit pattern of the `f32` x coordinate.
    pub position_x: u32,
    /// Bit pattern of the `f32` y coordinate.
    pub position_y: u32,
    pub is_pinned: bool,
    pub history_entries: Vec<String>,
    pub history_index: usize,
    pub thumbnail_png: Option<Vec<u8>>,
    pub thumbnail_width: u32,
    pub thumbnail_height: u32,
    pub favicon_rgba: Option<Vec<u8>>,
    pub favicon_width: u32,
    pub favicon_height: u32,
}

/// Edge type for persistence.
#[derive(Clone, Copy, Debug, PartialEq, Eq, Structural)]
pub enum PersistedEdgeType {
    Hyperlink,
    History,
}

/// Persisted edge.
pub struct PersistedEdge {
    pub from_node_id: String,
    pub to_node_id: String,
    pub edge_type: PersistedEdgeType,
}

/// Full graph snapshot for periodic saves.
pub struct GraphSnapshot {
    pub nodes: Vec<PersistedNode>,
    pub edges: Vec<PersistedEdge>,
    pub timestamp_secs: u64,
}

} // verus!

verus! {

/// Log entry for mutation journaling.
pub enum LogEntry {
    AddNode {
        node_id: String,
        url: String,
        /// Bit pattern of the `f32` x coordinate.
        position_x: u32,
        /// Bit pattern of the `f32` y coordinate.
        position_y: u32,
    },
    AddEdge {
        from_node_id: String,
        to_node_id: String,
        edge_type: PersistedEdgeType,
    },
    UpdateNodeTitle {
        node_id: String,
        title: String,
    },
    PinNode {
        node_id: String,
        is_pinned: bool,
    },
    RemoveNode {
        node_id: String,
    },
    ClearGraph,
    UpdateNodeUrl {
        node_id: String,
        new_url: String,
    },
}

} // verus!
