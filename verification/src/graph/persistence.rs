//! Graph persistence paths: where a snapshot and an append-only log of the
//! graph are kept inside a data directory.

use vstd::prelude::*;

use super::Graph;
use crate::config::{join_path, joined};

verus! {

/// Where the snapshot and the log of a graph are kept.
pub struct GraphPersistence {
    pub snapshot_path: String,
    pub log_path: String,
}

impl GraphPersistence {
    /// The snapshot at `graph_snapshot.json` and the log at `graph_log.json`
    /// inside `data_dir`.
    pub fn new(data_dir: &str) -> (p: Self)
        ensures
            p.snapshot_path@ == joined(data_dir@, "graph_snapshot.json"@),
            p.log_path@ == joined(data_dir@, "graph_log.json"@),
    {
        GraphPersistence {
            snapshot_path: join_path(data_dir, "graph_snapshot.json"),
            log_path: join_path(data_dir, "graph_log.json"),
        }
    }

    /// Save a full snapshot of the graph. Nothing is written in this
    /// format; the store of the persistence module keeps the graph.
    pub fn save_snapshot(&self, _graph: &Graph) -> (r: Result<(), String>)
        ensures
            r is Ok,
    {
        Ok(())
    }

    /// Load the graph from snapshot and log. Nothing is read in this
    /// format, so the graph is empty.
    pub fn load_graph(&self) -> (r: Result<Graph, String>)
        ensures
            r matches Ok(g) && g.is_empty_graph(),
    {
        Ok(Graph::new())
    }
}

} // verus!
