//! Replay of logged mutations onto a graph, and recovery from a snapshot
//! plus the log written after it.
//!
//! Log entries name nodes by their stable identity; an entry whose
//! identity does not read back, or names no node, changes nothing.

use vstd::prelude::*;

use super::types::{GraphSnapshot, LogEntry};
use crate::graph::node_id::{parse_node_id, uuid_parse};
use crate::graph::snapshot::{distinct_ids, from_persisted_edge_type, is_snapshot_of, lemma_snapshot_round_trip, restored_edge_type, same_page};
use crate::graph::{EdgeKey, EdgeView, Graph, Node, NodeKey, Position};

verus! {

/// The node that identity text `text` names in `g`, through the identity
/// index.
pub open spec fn named_node(g: Graph, text: Seq<char>) -> Option<NodeKey> {
    match uuid_parse(text) {
        Some(id) => if g.id_index().contains_key(id) { Some(g.id_index()[id]) } else { None },
        None => None,
    }
}

/// `next` is `g` after replaying `entry`:
/// - `AddNode` adds a node under the entry's identity, unless that
///   identity is already indexed;
/// - `AddEdge` adds an edge between the two named nodes;
/// - `UpdateNodeTitle`, `PinNode` and `UpdateNodeUrl` change the named node;
/// - `RemoveNode` removes the named node and its edges;
/// - `ClearGraph` empties the graph.
/// An entry whose nodes are not named changes nothing.
pub open spec fn replays_entry(g: Graph, next: Graph, entry: LogEntry) -> bool {
    let unchanged = next.wf() && g.same_contents(next);
    match entry {
        LogEntry::AddNode { node_id, url, position_x, position_y } => match uuid_parse(node_id@) {
            Some(id) => if g.id_index().contains_key(id) {
                unchanged
            } else {
                exists|key: NodeKey| #[trigger] g.added_node(next, key, id, url@, Position { x: position_x, y: position_y })
            },
            None => unchanged,
        },
        LogEntry::AddEdge { from_node_id, to_node_id, edge_type } => {
            let from = named_node(g, from_node_id@);
            let to = named_node(g, to_node_id@);
            if from is Some && to is Some {
                exists|e: EdgeKey| #[trigger] g.added_edge(next, e, EdgeView {
                    from: from->0,
                    to: to->0,
                    edge_type: restored_edge_type(edge_type),
                })
            } else {
                unchanged
            }
        },
        LogEntry::UpdateNodeTitle { node_id, title } => match named_node(g, node_id@) {
            Some(key) => g.edited_node(next, key, Node { title, ..g.node_map()[key] }),
            None => unchanged,
        },
        LogEntry::PinNode { node_id, is_pinned } => match named_node(g, node_id@) {
            Some(key) => g.edited_node(next, key, Node { is_pinned, ..g.node_map()[key] }),
            None => unchanged,
        },
        LogEntry::RemoveNode { node_id } => match named_node(g, node_id@) {
            Some(key) => g.removed_node(next, key),
            None => unchanged,
        },
        LogEntry::ClearGraph => next.is_empty_graph(),
        LogEntry::UpdateNodeUrl { node_id, new_url } => match named_node(g, node_id@) {
            Some(key) => g.renamed_node(next, key, new_url),
            None => unchanged,
        },
    }
}

/// `gs` runs from its first graph to its last by replaying `entries` in turn.
pub open spec fn replay_trace(gs: Seq<Graph>, entries: Seq<LogEntry>) -> bool {
    &&& gs.len() == entries.len() + 1
    &&& forall|i: int| 0 <= i < entries.len() ==> #[trigger] replays_entry(gs[i], gs[i + 1], entries[i])
}

/// `next` is `g` after replaying `entries` in order.
pub open spec fn replays(g: Graph, next: Graph, entries: Seq<LogEntry>) -> bool {
    exists|gs: Seq<Graph>| {
        &&& #[trigger] replay_trace(gs, entries)
        &&& gs[0] == g
        &&& gs.last() == next
    }
}

/// The node named by identity text, through the identity index.
fn find_named(g: &Graph, text: &String) -> (key: Option<NodeKey>)
    requires
        g.wf(),
    ensures
        key == named_node(*g, text@),
        key is Some ==> g.node_map().contains_key(key->0),
{
    match parse_node_id(text.as_str()) {
        Some(id) => g.get_node_key_by_id(id),
        None => None,
    }
}

/// Replay one log entry onto `graph`.
pub fn replay_entry(graph: &mut Graph, entry: &LogEntry)
    requires
        old(graph).wf(),
        old(graph).node_map().len() < u32::MAX,
        old(graph).edge_map().len() < u32::MAX,
    ensures
        replays_entry(*old(graph), *final(graph), *entry),
        final(graph).node_map().len() <= old(graph).node_map().len() + 1,
        final(graph).edge_map().len() <= old(graph).edge_map().len() + 1,
{
    match entry {
        LogEntry::AddNode { node_id, url, position_x, position_y } => {
            match parse_node_id(node_id.as_str()) {
                Some(id) => {
                    if graph.get_node_key_by_id(id).is_none() {
                        let key = graph.add_node_with_id(id, url.clone(), Position { x: *position_x, y: *position_y });
                        assert(old(graph).added_node(*graph, key, id, url@, Position { x: *position_x, y: *position_y }));
                    }
                },
                None => {},
            }
        },
        LogEntry::AddEdge { from_node_id, to_node_id, edge_type } => {
            let from = find_named(graph, from_node_id);
            let to = find_named(graph, to_node_id);
            match (from, to) {
                (Some(a), Some(b)) => {
                    let edge = graph.add_edge(a, b, from_persisted_edge_type(*edge_type));
                    assert(old(graph).added_edge(*graph, edge->0, EdgeView { from: a, to: b, edge_type: restored_edge_type(*edge_type) }));
                },
                _ => {},
            }
        },
        LogEntry::UpdateNodeTitle { node_id, title } => {
            match find_named(graph, node_id) {
                Some(key) => set_title(graph, key, title.clone()),
                None => {},
            }
        },
        LogEntry::PinNode { node_id, is_pinned } => {
            match find_named(graph, node_id) {
                Some(key) => set_pinned(graph, key, *is_pinned),
                None => {},
            }
        },
        LogEntry::RemoveNode { node_id } => {
            match find_named(graph, node_id) {
                Some(key) => {
                    graph.remove_node(key);
                    proof {
                        vstd::set_lib::lemma_len_subset(graph.edge_map().dom(), old(graph).edge_map().dom());
                    }
                },
                None => {},
            }
        },
        LogEntry::ClearGraph => {
            *graph = Graph::new();
        },
        LogEntry::UpdateNodeUrl { node_id, new_url } => {
            match find_named(graph, node_id) {
                Some(key) => {
                    graph.update_node_url(key, new_url.clone());
                },
                None => {},
            }
        },
    }
}

/// Give node `key` the title `title`.
fn set_title(graph: &mut Graph, key: NodeKey, title: String)
    requires
        old(graph).wf(),
        old(graph).node_map().contains_key(key),
    ensures
        old(graph).edited_node(*final(graph), key, Node { title, ..old(graph).node_map()[key] }),
{
    let ghost g0 = *graph;
    match graph.get_node_mut(key) {
        Some(node) => {
            node.title = title;
        },
        None => {},
    }
    proof {
        Graph::lemma_edit_keeps_wf(&g0, graph, key);
    }
}

/// Set whether node `key` is pinned.
fn set_pinned(graph: &mut Graph, key: NodeKey, is_pinned: bool)
    requires
        old(graph).wf(),
        old(graph).node_map().contains_key(key),
    ensures
        old(graph).edited_node(*final(graph), key, Node { is_pinned, ..old(graph).node_map()[key] }),
{
    let ghost g0 = *graph;
    match graph.get_node_mut(key) {
        Some(node) => {
            node.is_pinned = is_pinned;
        },
        None => {},
    }
    proof {
        Graph::lemma_edit_keeps_wf(&g0, graph, key);
    }
}

/// Replay logged entries onto `graph`, oldest first.
pub fn replay_log(graph: &mut Graph, entries: &Vec<LogEntry>)
    requires
        old(graph).wf(),
        old(graph).node_map().len() + entries@.len() < u32::MAX,
        old(graph).edge_map().len() + entries@.len() < u32::MAX,
    ensures
        final(graph).wf(),
        replays(*old(graph), *final(graph), entries@),
        final(graph).node_map().len() <= old(graph).node_map().len() + entries@.len(),
        final(graph).edge_map().len() <= old(graph).edge_map().len() + entries@.len(),
{
    let ghost mut gs: Seq<Graph> = seq![*graph];
    let mut i: usize = 0;
    while i < entries.len()
        invariant
            i <= entries@.len(),
            graph.wf(),
            old(graph).node_map().len() + entries@.len() < u32::MAX,
            old(graph).edge_map().len() + entries@.len() < u32::MAX,
            graph.node_map().len() <= old(graph).node_map().len() + i,
            graph.edge_map().len() <= old(graph).edge_map().len() + i,
            replay_trace(gs, entries@.take(i as int)),
            gs[0] == *old(graph),
            gs.last() == *graph,
        decreases entries@.len() - i,
    {
        replay_entry(graph, &entries[i]);
        proof {
            let prev = gs;
            gs = gs.push(*graph);
            assert forall|j: int| 0 <= j < i + 1 implies #[trigger] replays_entry(gs[j], gs[j + 1], entries@.take(i + 1)[j]) by {
                if j < i {
                    assert(replays_entry(prev[j], prev[j + 1], entries@.take(i as int)[j]));
                }
            }
        }
        i = i + 1;
    }
    proof {
        assert(entries@.take(entries@.len() as int) =~= entries@);
    }
}

/// `recovered` is what recovery gives from an optional snapshot and the
/// log written after it: the snapshot's graph (or an empty one) with the
/// log replayed, when that graph has a node; `None` when it has none.
pub open spec fn is_recovery(snapshot: Option<GraphSnapshot>, entries: Seq<LogEntry>, recovered: Option<Graph>) -> bool {
    exists|start: Graph, end: Graph| {
        &&& #[trigger] replays(start, end, entries)
        &&& start.wf()
        &&& match snapshot {
            Some(snap) => Graph::is_loaded_from(snap, start),
            None => start.is_empty_graph(),
        }
        &&& end.wf()
        &&& match recovered {
            Some(g) => g == end && end.node_map().len() > 0,
            None => end.node_map().len() == 0,
        }
    }
}

/// Recover graph state from an optional snapshot and the log entries
/// written after it, oldest first. `None` when the result has no node.
pub fn recover_graph(snapshot: Option<&GraphSnapshot>, entries: &Vec<LogEntry>) -> (recovered: Option<Graph>)
    requires
        snapshot matches Some(s) ==> s.nodes@.len() + entries@.len() < u32::MAX && s.edges@.len() + entries@.len() < u32::MAX,
        entries@.len() < u32::MAX,
    ensures
        is_recovery(match snapshot { Some(s) => Some(*s), None => None }, entries@, recovered),
        recovered matches Some(g) ==> g.wf(),
{
    let mut graph = match snapshot {
        Some(snap) => Graph::from_snapshot(snap),
        None => Graph::new(),
    };
    replay_log(&mut graph, entries);
    if graph.node_count() > 0 {
        Some(graph)
    } else {
        None
    }
}

} // verus!

verus! {

/// Replaying the same node addition twice adds the node once: the second
/// replay finds the identity indexed and changes nothing.
pub proof fn lemma_add_node_replay_idempotent(g: Graph, g1: Graph, g2: Graph, entry: LogEntry)
    requires
        g.wf(),
        entry is AddNode,
        replays_entry(g, g1, entry),
        replays_entry(g1, g2, entry),
    ensures
        g1.same_contents(g2),
{
    match entry {
        LogEntry::AddNode { node_id, url, position_x, position_y } => {
            match uuid_parse(node_id@) {
                Some(id) => {
                    if !g.id_index().contains_key(id) {
                        let key = choose|key: NodeKey| #[trigger] g.added_node(g1, key, id, url@, Position { x: position_x, y: position_y });
                        assert(g1.id_index().contains_key(id));
                    }
                },
                None => {},
            }
        },
        _ => {},
    }
}

} // verus!

verus! {

/// Recovering from a snapshot of a graph with an empty log gives back every
/// page of the graph (when its nodes have distinct identities): the
/// recovered graph indexes each node's identity under a node that shows the
/// same page.
pub proof fn lemma_recover_from_snapshot_alone(g: Graph, snap: GraphSnapshot, recovered: Option<Graph>)
    requires
        g.wf(),
        distinct_ids(g),
        is_snapshot_of(snap, g),
        is_recovery(Some(snap), Seq::<LogEntry>::empty(), recovered),
    ensures
        forall|k: NodeKey| #[trigger] g.node_map().contains_key(k) ==> {
            &&& recovered is Some
            &&& recovered->0.id_index().contains_key(g.node_map()[k].id)
            &&& same_page(recovered->0.node_map()[recovered->0.id_index()[g.node_map()[k].id]], g.node_map()[k])
        },
{
    let (start, end) = choose|start: Graph, end: Graph| {
        &&& #[trigger] replays(start, end, Seq::<LogEntry>::empty())
        &&& start.wf()
        &&& Graph::is_loaded_from(snap, start)
        &&& end.wf()
        &&& match recovered {
            Some(r) => r == end && end.node_map().len() > 0,
            None => end.node_map().len() == 0,
        }
    };
    let gs = choose|gs: Seq<Graph>| {
        &&& #[trigger] replay_trace(gs, Seq::<LogEntry>::empty())
        &&& gs[0] == start
        &&& gs.last() == end
    };
    assert(end == start);
    lemma_snapshot_round_trip(g, snap, start);
    assert forall|k: NodeKey| #[trigger] g.node_map().contains_key(k) implies {
        &&& recovered is Some
        &&& recovered->0.id_index().contains_key(g.node_map()[k].id)
        &&& same_page(recovered->0.node_map()[recovered->0.id_index()[g.node_map()[k].id]], g.node_map()[k])
    } by {
        let key = start.id_index()[g.node_map()[k].id];
        assert(start.node_map().contains_key(key));
        if recovered is None {
            assert(start.node_map().dom().contains(key));
            vstd::set_lib::lemma_set_empty_equivalency_len(start.node_map().dom());
        }
    }
}

/// A `ClearGraph` entry absorbs everything logged before it: whatever
/// graph replay starts from (a snapshot's, say), replaying a log that
/// holds `ClearGraph` after `prefix` ends where replaying the entries after
/// it from an empty graph ends.
pub proof fn lemma_clear_absorbs_prefix(g: Graph, next: Graph, prefix: Seq<LogEntry>, suffix: Seq<LogEntry>)
    requires
        replays(g, next, prefix + seq![LogEntry::ClearGraph] + suffix),
    ensures
        exists|empty: Graph| #[trigger] empty.is_empty_graph() && replays(empty, next, suffix),
{
    let entries = prefix + seq![LogEntry::ClearGraph] + suffix;
    let gs = choose|gs: Seq<Graph>| {
        &&& #[trigger] replay_trace(gs, entries)
        &&& gs[0] == g
        &&& gs.last() == next
    };
    let k = prefix.len() as int;
    assert(entries[k] == LogEntry::ClearGraph);
    assert(replays_entry(gs[k], gs[k + 1], entries[k]));
    let empty = gs[k + 1];
    let hs = gs.subrange(k + 1, gs.len() as int);
    assert(replay_trace(hs, suffix)) by {
        assert forall|j: int| 0 <= j < suffix.len() implies #[trigger] replays_entry(hs[j], hs[j + 1], suffix[j]) by {
            let i = k + 1 + j;
            assert(entries[i] == suffix[j]);
            assert(replays_entry(gs[i], gs[i + 1], entries[i]));
            assert(hs[j] == gs[i]);
            assert(hs[j + 1] == gs[i + 1]);
        }
    }
    assert(hs[0] == empty);
    assert(hs.last() == next);
    assert(replays(empty, next, suffix));
    assert(empty.is_empty_graph());
}

} // verus!
