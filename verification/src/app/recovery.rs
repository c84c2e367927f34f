//! What the store keeps of a graph, and the law that replaying the log
//! recovers it: the entries that the application logs, replayed in order
//! onto a graph that keeps the same as the one they were logged from, give
//! a graph that keeps the same as the one the application ends with. Node
//! keys are not kept (replay hands out keys of its own); nodes are known by
//! their identity, and edges by the identities of their ends.

use vstd::prelude::*;

use super::laws::{indexed_under_identity, key_preserving_logged_step};
use super::{
    is_add_edge_entry, is_add_node_entry, is_remove_entry, is_title_entry, is_url_entry, logs, GraphBrowserApp,
    StoreRequest,
};
use crate::graph::node_id::uuid_parse;
use crate::graph::snapshot::{
    is_node_key_order, is_snapshot_of, lemma_edge_trace_keeps_nodes, lemma_node_trace, persisted_edge_type, persists_edge,
    persists_node, restored_edge_type,
};
use crate::graph::stable_graph::edges_not_touching;
use crate::graph::{is_key_order, EdgeKey, EdgeType, EdgeView, Graph, Node, NodeKey, Position};
use crate::persistence::replay::{is_recovery, named_node, replay_trace, replays, replays_entry};
use crate::persistence::types::{GraphSnapshot, LogEntry, PersistedEdge, PersistedNode};

verus! {

/// What the store keeps of a node: its URL, title, position and pin.
pub open spec fn kept_fields(n: Node) -> (Seq<char>, Seq<char>, Position, bool) {
    (n.url@, n.title@, n.position, n.is_pinned)
}

/// Every node is the one indexed under its identity: no two nodes share
/// an identity.
pub open spec fn identities_unique(g: Graph) -> bool {
    forall|k: NodeKey| #[trigger] g.node_map().contains_key(k) ==> {
        &&& g.id_index().contains_key(g.node_map()[k].id)
        &&& g.id_index()[g.node_map()[k].id] == k
    }
}

/// The kept fields of the nodes of `g`, by identity.
pub open spec fn kept_nodes(g: Graph) -> Map<u128, (Seq<char>, Seq<char>, Position, bool)> {
    Map::new(|id: u128| g.id_index().contains_key(id), |id: u128| kept_fields(g.node_map()[g.id_index()[id]]))
}

/// Edge `e` of `g` goes from identity `a` to identity `b` with type `t`.
pub open spec fn joins(g: Graph, e: EdgeKey, a: u128, b: u128, t: EdgeType) -> bool {
    &&& g.node_map()[g.edge_map()[e].from].id == a
    &&& g.node_map()[g.edge_map()[e].to].id == b
    &&& g.edge_map()[e].edge_type == t
}

/// The edges of `g` from identity `a` to identity `b` with type `t`.
pub open spec fn edges_joining(g: Graph, a: u128, b: u128, t: EdgeType) -> Set<EdgeKey> {
    g.edge_map().dom().filter(|e: EdgeKey| joins(g, e, a, b, t))
}

/// Both graphs keep the same: the same nodes by identity, and as many
/// edges of each type between any two identities.
pub open spec fn keeps_same(g1: Graph, g2: Graph) -> bool {
    &&& g1.wf()
    &&& g2.wf()
    &&& identities_unique(g1)
    &&& identities_unique(g2)
    &&& kept_nodes(g1) == kept_nodes(g2)
    &&& forall|a: u128, b: u128, t: EdgeType| #[trigger] edges_joining(g1, a, b, t).len() == edges_joining(g2, a, b, t).len()
}

/// The edges joining two identities are finitely many.
proof fn lemma_edges_joining_finite(g: Graph, a: u128, b: u128, t: EdgeType)
    requires
        g.wf(),
    ensures
        edges_joining(g, a, b, t).finite(),
{
    vstd::set_lib::lemma_set_subset_finite(g.edge_map().dom(), edges_joining(g, a, b, t));
}

/// Adding a node of a new identity to both graphs, with the same URL and
/// position, keeps them keeping the same.
pub proof fn lemma_keeps_added_node(
    g1: Graph,
    g2: Graph,
    n1: Graph,
    n2: Graph,
    k1: NodeKey,
    k2: NodeKey,
    id: u128,
    url: Seq<char>,
    position: Position,
)
    requires
        keeps_same(g1, g2),
        !g1.id_index().contains_key(id),
        g1.added_node(n1, k1, id, url, position),
        g2.added_node(n2, k2, id, url, position),
    ensures
        keeps_same(n1, n2),
{
    assert(!g2.id_index().contains_key(id)) by {
        assert(!kept_nodes(g1).contains_key(id));
    }
    assert forall|k: NodeKey| #[trigger] n1.node_map().contains_key(k) implies
        n1.id_index().contains_key(n1.node_map()[k].id) && n1.id_index()[n1.node_map()[k].id] == k by {
        if k != k1 {
            assert(g1.node_map().contains_key(k));
        }
    }
    assert forall|k: NodeKey| #[trigger] n2.node_map().contains_key(k) implies
        n2.id_index().contains_key(n2.node_map()[k].id) && n2.id_index()[n2.node_map()[k].id] == k by {
        if k != k2 {
            assert(g2.node_map().contains_key(k));
        }
    }
    assert(kept_nodes(n1) =~= kept_nodes(n2)) by {
        assert(g1.id_index().dom() =~= kept_nodes(g1).dom());
        assert(g2.id_index().dom() =~= kept_nodes(g2).dom());
        assert(kept_nodes(n1).dom() =~= kept_nodes(n2).dom());
        assert forall|i: u128| #[trigger] kept_nodes(n1).contains_key(i) implies kept_nodes(n1)[i] == kept_nodes(n2)[i] by {
            if i == id {
                assert(n1.id_index()[id] == k1);
                assert(n2.id_index()[id] == k2);
                assert(kept_fields(n1.node_map()[k1]) == kept_fields(n2.node_map()[k2]));
            } else {
                assert(kept_nodes(g1).contains_key(i));
                assert(kept_nodes(g1)[i] == kept_nodes(g2)[i]);
                assert(g1.id_index()[i] != k1);
                assert(g2.id_index()[i] != k2);
            }
        }
    }
    assert forall|a: u128, b: u128, t: EdgeType| #[trigger] edges_joining(n1, a, b, t).len() == edges_joining(n2, a, b, t).len() by {
        assert(edges_joining(n1, a, b, t) =~= edges_joining(g1, a, b, t)) by {
            assert forall|e: EdgeKey| n1.edge_map().contains_key(e) implies joins(n1, e, a, b, t) == joins(g1, e, a, b, t) by {
                assert(g1.node_map().contains_key(g1.edge_map()[e].from));
                assert(g1.node_map().contains_key(g1.edge_map()[e].to));
            }
        }
        assert(edges_joining(n2, a, b, t) =~= edges_joining(g2, a, b, t)) by {
            assert forall|e: EdgeKey| n2.edge_map().contains_key(e) implies joins(n2, e, a, b, t) == joins(g2, e, a, b, t) by {
                assert(g2.node_map().contains_key(g2.edge_map()[e].from));
                assert(g2.node_map().contains_key(g2.edge_map()[e].to));
            }
        }
        assert(edges_joining(g1, a, b, t).len() == edges_joining(g2, a, b, t).len());
    }
}

/// The edges joining two identities after an edge is added: one more
/// where the new edge joins them, the same otherwise.
proof fn lemma_edges_joining_after_edge(g: Graph, n: Graph, e: EdgeKey, edge: EdgeView, a: u128, b: u128, t: EdgeType)
    requires
        g.wf(),
        g.added_edge(n, e, edge),
    ensures
        edges_joining(n, a, b, t).len() == edges_joining(g, a, b, t).len() + (if joins(n, e, a, b, t) { 1int } else { 0int }),
{
    lemma_edges_joining_finite(g, a, b, t);
    if joins(n, e, a, b, t) {
        assert(edges_joining(n, a, b, t) =~= edges_joining(g, a, b, t).insert(e));
        assert(!edges_joining(g, a, b, t).contains(e));
    } else {
        assert(edges_joining(n, a, b, t) =~= edges_joining(g, a, b, t));
    }
}

/// Adding an edge between nodes of the same identities, with the same
/// type, to both graphs keeps them keeping the same.
pub proof fn lemma_keeps_added_edge(g1: Graph, g2: Graph, n1: Graph, n2: Graph, e1: EdgeKey, e2: EdgeKey, edge1: EdgeView, edge2: EdgeView)
    requires
        keeps_same(g1, g2),
        g1.added_edge(n1, e1, edge1),
        g2.added_edge(n2, e2, edge2),
        g1.node_map()[edge1.from].id == g2.node_map()[edge2.from].id,
        g1.node_map()[edge1.to].id == g2.node_map()[edge2.to].id,
        edge1.edge_type == edge2.edge_type,
    ensures
        keeps_same(n1, n2),
{
    assert(identities_unique(n1));
    assert(identities_unique(n2));
    assert(kept_nodes(n1) =~= kept_nodes(g1));
    assert(kept_nodes(n2) =~= kept_nodes(g2));
    assert forall|a: u128, b: u128, t: EdgeType| #[trigger] edges_joining(n1, a, b, t).len() == edges_joining(n2, a, b, t).len() by {
        lemma_edges_joining_after_edge(g1, n1, e1, edge1, a, b, t);
        lemma_edges_joining_after_edge(g2, n2, e2, edge2, a, b, t);
        assert(edges_joining(g1, a, b, t).len() == edges_joining(g2, a, b, t).len());
    }
}

/// Changing a node's kept fields leaves the edges joining any two
/// identities as they were, when its identity stays.
proof fn lemma_edges_joining_after_edit(g: Graph, n: Graph, a: u128, b: u128, t: EdgeType)
    requires
        g.wf(),
        n.edge_map() == g.edge_map(),
        n.node_map().dom() == g.node_map().dom(),
        forall|k: NodeKey| #[trigger] g.node_map().contains_key(k) ==> n.node_map()[k].id == g.node_map()[k].id,
    ensures
        edges_joining(n, a, b, t) == edges_joining(g, a, b, t),
{
    assert forall|e: EdgeKey| g.edge_map().contains_key(e) implies joins(n, e, a, b, t) == joins(g, e, a, b, t) by {
        assert(g.node_map().contains_key(g.edge_map()[e].from));
        assert(g.node_map().contains_key(g.edge_map()[e].to));
    }
    assert(edges_joining(n, a, b, t) =~= edges_joining(g, a, b, t));
}

/// `n` is `g` with the node under `k` replaced by `m` of the same
/// identity; the edges and the identity index stay.
pub open spec fn replaced_in_place(g: Graph, n: Graph, k: NodeKey, m: Node) -> bool {
    &&& n.wf()
    &&& g.node_map().contains_key(k)
    &&& m.id == g.node_map()[k].id
    &&& n.node_map() == g.node_map().insert(k, m)
    &&& n.edge_map() == g.edge_map()
    &&& n.id_index() == g.id_index()
}

/// Replacing a node of the same identity in both graphs by nodes with the
/// same kept fields keeps them keeping the same.
proof fn lemma_keeps_replaced_node(g1: Graph, g2: Graph, n1: Graph, n2: Graph, k1: NodeKey, k2: NodeKey, m1: Node, m2: Node)
    requires
        keeps_same(g1, g2),
        replaced_in_place(g1, n1, k1, m1),
        replaced_in_place(g2, n2, k2, m2),
        g1.node_map()[k1].id == g2.node_map()[k2].id,
        kept_fields(m1) == kept_fields(m2),
    ensures
        keeps_same(n1, n2),
{
    let id = g1.node_map()[k1].id;
    assert(n1.node_map().dom() =~= g1.node_map().dom());
    assert(n2.node_map().dom() =~= g2.node_map().dom());
    assert(identities_unique(n1)) by {
        assert forall|k: NodeKey| #[trigger] n1.node_map().contains_key(k) implies
            n1.id_index().contains_key(n1.node_map()[k].id) && n1.id_index()[n1.node_map()[k].id] == k by {
            assert(g1.node_map().contains_key(k));
        }
    }
    assert(identities_unique(n2)) by {
        assert forall|k: NodeKey| #[trigger] n2.node_map().contains_key(k) implies
            n2.id_index().contains_key(n2.node_map()[k].id) && n2.id_index()[n2.node_map()[k].id] == k by {
            assert(g2.node_map().contains_key(k));
        }
    }
    assert(kept_nodes(n1) =~= kept_nodes(n2)) by {
        assert(kept_nodes(g1).dom() =~= g1.id_index().dom());
        assert(kept_nodes(g2).dom() =~= g2.id_index().dom());
        assert forall|i: u128| #[trigger] kept_nodes(n1).contains_key(i) implies kept_nodes(n1)[i] == kept_nodes(n2)[i] by {
            assert(kept_nodes(g1).contains_key(i));
            if i == id {
                assert(g1.id_index()[id] == k1);
                assert(g2.id_index()[id] == k2);
            } else {
                assert(kept_nodes(g1)[i] == kept_nodes(g2)[i]);
                assert(g1.node_map()[g1.id_index()[i]].id == i);
                assert(g2.node_map()[g2.id_index()[i]].id == i);
            }
        }
    }
    assert forall|a: u128, b: u128, t: EdgeType| #[trigger] edges_joining(n1, a, b, t).len() == edges_joining(n2, a, b, t).len() by {
        lemma_edges_joining_after_edit(g1, n1, a, b, t);
        lemma_edges_joining_after_edit(g2, n2, a, b, t);
        assert(edges_joining(g1, a, b, t).len() == edges_joining(g2, a, b, t).len());
    }
}

/// Replacing a node of the same identity in both graphs, keeping its URL,
/// by nodes with the same kept fields keeps them keeping the same.
pub proof fn lemma_keeps_edited_node(g1: Graph, g2: Graph, n1: Graph, n2: Graph, k1: NodeKey, k2: NodeKey, m1: Node, m2: Node)
    requires
        keeps_same(g1, g2),
        g1.edited_node(n1, k1, m1),
        g2.edited_node(n2, k2, m2),
        g1.node_map()[k1].id == g2.node_map()[k2].id,
        kept_fields(m1) == kept_fields(m2),
    ensures
        keeps_same(n1, n2),
{
    lemma_keeps_replaced_node(g1, g2, n1, n2, k1, k2, m1, m2);
}

/// Moving a node of the same identity in both graphs to the same URL keeps
/// them keeping the same.
pub proof fn lemma_keeps_renamed_node(g1: Graph, g2: Graph, n1: Graph, n2: Graph, k1: NodeKey, k2: NodeKey, new_url: String)
    requires
        keeps_same(g1, g2),
        g1.renamed_node(n1, k1, new_url),
        g2.renamed_node(n2, k2, new_url),
        g1.node_map()[k1].id == g2.node_map()[k2].id,
    ensures
        keeps_same(n1, n2),
{
    let id = g1.node_map()[k1].id;
    assert(g1.id_index()[id] == k1);
    assert(g2.id_index()[id] == k2);
    assert(kept_nodes(g1)[id] == kept_nodes(g2)[id]);
    lemma_keeps_replaced_node(g1, g2, n1, n2, k1, k2, Node { url: new_url, ..g1.node_map()[k1] }, Node { url: new_url, ..g2.node_map()[k2] });
}

/// The edges joining two identities after the node under `k` is removed:
/// none where one end is its identity, the same otherwise.
proof fn lemma_edges_joining_after_removal(g: Graph, n: Graph, k: NodeKey, a: u128, b: u128, t: EdgeType)
    requires
        g.wf(),
        identities_unique(g),
        g.removed_node(n, k),
    ensures
        edges_joining(n, a, b, t) == (if a == g.node_map()[k].id || b == g.node_map()[k].id {
            Set::<EdgeKey>::empty()
        } else {
            edges_joining(g, a, b, t)
        }),
{
    let id = g.node_map()[k].id;
    assert forall|e: EdgeKey| #[trigger] n.edge_map().contains_key(e) implies {
        &&& g.edge_map().contains_key(e)
        &&& g.node_map()[g.edge_map()[e].from].id != id
        &&& g.node_map()[g.edge_map()[e].to].id != id
        &&& n.edge_map()[e] == g.edge_map()[e]
    } by {
        let f = g.edge_map()[e].from;
        let to = g.edge_map()[e].to;
        assert(g.node_map().contains_key(f));
        assert(g.node_map().contains_key(to));
        assert(g.id_index()[g.node_map()[f].id] == f);
        assert(g.id_index()[g.node_map()[to].id] == to);
        assert(g.id_index()[id] == k);
    }
    if a == id || b == id {
        assert(edges_joining(n, a, b, t) =~= Set::<EdgeKey>::empty()) by {
            assert forall|e: EdgeKey| !edges_joining(n, a, b, t).contains(e) by {
                if n.edge_map().contains_key(e) {
                    assert(n.node_map()[n.edge_map()[e].from] == g.node_map()[g.edge_map()[e].from]);
                    assert(n.node_map()[n.edge_map()[e].to] == g.node_map()[g.edge_map()[e].to]);
                }
            }
        }
    } else {
        assert(edges_joining(n, a, b, t) =~= edges_joining(g, a, b, t)) by {
            assert forall|e: EdgeKey| edges_joining(n, a, b, t).contains(e) <==> edges_joining(g, a, b, t).contains(e) by {
                if n.edge_map().contains_key(e) {
                    assert(n.node_map()[n.edge_map()[e].from] == g.node_map()[g.edge_map()[e].from]);
                    assert(n.node_map()[n.edge_map()[e].to] == g.node_map()[g.edge_map()[e].to]);
                }
                if edges_joining(g, a, b, t).contains(e) {
                    assert(g.edge_map()[e].from != k);
                    assert(g.edge_map()[e].to != k);
                    assert(n.edge_map().contains_key(e));
                    assert(n.node_map()[n.edge_map()[e].from] == g.node_map()[g.edge_map()[e].from]);
                    assert(n.node_map()[n.edge_map()[e].to] == g.node_map()[g.edge_map()[e].to]);
                }
            }
        }
    }
}

/// Removing the node of the same identity from both graphs keeps them
/// keeping the same.
pub proof fn lemma_keeps_removed_node(g1: Graph, g2: Graph, n1: Graph, n2: Graph, k1: NodeKey, k2: NodeKey)
    requires
        keeps_same(g1, g2),
        g1.removed_node(n1, k1),
        g2.removed_node(n2, k2),
        g1.node_map()[k1].id == g2.node_map()[k2].id,
    ensures
        keeps_same(n1, n2),
{
    let id = g1.node_map()[k1].id;
    assert(g1.id_index()[id] == k1);
    assert(g2.id_index()[id] == k2);
    assert(identities_unique(n1)) by {
        assert forall|k: NodeKey| #[trigger] n1.node_map().contains_key(k) implies
            n1.id_index().contains_key(n1.node_map()[k].id) && n1.id_index()[n1.node_map()[k].id] == k by {
            assert(g1.node_map().contains_key(k));
        }
    }
    assert(identities_unique(n2)) by {
        assert forall|k: NodeKey| #[trigger] n2.node_map().contains_key(k) implies
            n2.id_index().contains_key(n2.node_map()[k].id) && n2.id_index()[n2.node_map()[k].id] == k by {
            assert(g2.node_map().contains_key(k));
        }
    }
    assert(kept_nodes(n1) =~= kept_nodes(n2)) by {
        assert(kept_nodes(g1).dom() =~= g1.id_index().dom());
        assert(kept_nodes(g2).dom() =~= g2.id_index().dom());
        assert forall|i: u128| #[trigger] kept_nodes(n1).contains_key(i) implies kept_nodes(n1)[i] == kept_nodes(n2)[i] by {
            assert(kept_nodes(g1).contains_key(i));
            assert(kept_nodes(g1)[i] == kept_nodes(g2)[i]);
            assert(g1.node_map()[g1.id_index()[i]].id == i);
            assert(g2.node_map()[g2.id_index()[i]].id == i);
        }
    }
    assert forall|a: u128, b: u128, t: EdgeType| #[trigger] edges_joining(n1, a, b, t).len() == edges_joining(n2, a, b, t).len() by {
        lemma_edges_joining_after_removal(g1, n1, k1, a, b, t);
        lemma_edges_joining_after_removal(g2, n2, k2, a, b, t);
        assert(edges_joining(g1, a, b, t).len() == edges_joining(g2, a, b, t).len());
    }
}

/// Two empty graphs keep the same.
pub proof fn lemma_empty_graphs_keep_same(g1: Graph, g2: Graph)
    requires
        g1.is_empty_graph(),
        g2.is_empty_graph(),
    ensures
        keeps_same(g1, g2),
{
    assert(kept_nodes(g1) =~= kept_nodes(g2));
    assert forall|a: u128, b: u128, t: EdgeType| #[trigger] edges_joining(g1, a, b, t).len() == edges_joining(g2, a, b, t).len() by {
        assert(edges_joining(g1, a, b, t) =~= edges_joining(g2, a, b, t));
    }
}

/// `next` follows `s` by one logged operation: adding a node of a new
/// identity, adding an edge between two present nodes, or one of the
/// operations that keep node keys (see `key_preserving_logged_step`).
pub open spec fn logged_step(s: GraphBrowserApp, next: GraphBrowserApp) -> bool {
    ||| exists|key: NodeKey, url: Seq<char>, position: Position|
        !s.graph.id_index().contains_key(next.graph.node_map()[key].id) && #[trigger] s.added_node_synced(next, key, url, position)
    ||| exists|from: NodeKey, to: NodeKey, edge_type: EdgeType, edge: Option<EdgeKey>|
        s.graph.node_map().contains_key(from) && s.graph.node_map().contains_key(to)
            && #[trigger] s.edge_added_synced(next, from, to, edge_type, edge)
    ||| key_preserving_logged_step(s, next)
}

/// The node of `r` under identity `id`.
proof fn lemma_named_in_replay(r: Graph, text: Seq<char>, id: u128)
    requires
        r.wf(),
        uuid_parse(text) == Some(id),
        r.id_index().contains_key(id),
    ensures
        named_node(r, text) == Some(r.id_index()[id]),
        r.node_map().contains_key(r.id_index()[id]),
        r.node_map()[r.id_index()[id]].id == id,
{
}

/// One logged step, replayed onto a graph that keeps the same as the one
/// it started from, gives a graph that keeps the same as the one it left.
proof fn lemma_logged_step_replays(s: GraphBrowserApp, next: GraphBrowserApp, r: Graph, r2: Graph, entry: LogEntry)
    requires
        s.wf(),
        s.persistence_enabled,
        keeps_same(s.graph, r),
        logged_step(s, next),
        next.store_requests@.last() == StoreRequest::Log(entry),
        replays_entry(r, r2, entry),
    ensures
        keeps_same(next.graph, r2),
{
    let g = s.graph;
    assert(g.id_index().dom() =~= kept_nodes(g).dom());
    assert(r.id_index().dom() =~= kept_nodes(r).dom());
    if exists|key: NodeKey, url: Seq<char>, position: Position|
        !s.graph.id_index().contains_key(next.graph.node_map()[key].id) && #[trigger] s.added_node_synced(next, key, url, position) {
        let (key, url, position) = choose|key: NodeKey, url: Seq<char>, position: Position|
            !s.graph.id_index().contains_key(next.graph.node_map()[key].id) && #[trigger] s.added_node_synced(next, key, url, position);
        let id = next.graph.node_map()[key].id;
        assert(logs(next.store_requests@.last(), |e: LogEntry| is_add_node_entry(e, id, url, position)));
        assert(!r.id_index().contains_key(id));
        if let LogEntry::AddNode { node_id, url: u, position_x, position_y } = entry {
            assert(Position { x: position_x, y: position_y } == position);
            let k2 = choose|k2: NodeKey| #[trigger] r.added_node(r2, k2, id, u@, Position { x: position_x, y: position_y });
            lemma_keeps_added_node(g, r, next.graph, r2, key, k2, id, url, position);
        }
    } else if exists|from: NodeKey, to: NodeKey, edge_type: EdgeType, edge: Option<EdgeKey>|
        s.graph.node_map().contains_key(from) && s.graph.node_map().contains_key(to)
            && #[trigger] s.edge_added_synced(next, from, to, edge_type, edge) {
        let (from, to, edge_type, edge) = choose|from: NodeKey, to: NodeKey, edge_type: EdgeType, edge: Option<EdgeKey>|
            s.graph.node_map().contains_key(from) && s.graph.node_map().contains_key(to)
                && #[trigger] s.edge_added_synced(next, from, to, edge_type, edge);
        let a = g.node_map()[from].id;
        let b = g.node_map()[to].id;
        assert(logs(next.store_requests@.last(), |e: LogEntry| is_add_edge_entry(e, a, b, edge_type)));
        assert(g.id_index().contains_key(a));
        assert(g.id_index().contains_key(b));
        if let LogEntry::AddEdge { from_node_id, to_node_id, edge_type: t } = entry {
            lemma_named_in_replay(r, from_node_id@, a);
            lemma_named_in_replay(r, to_node_id@, b);
            let rf = r.id_index()[a];
            let rt = r.id_index()[b];
            assert(restored_edge_type(persisted_edge_type(edge_type)) == edge_type);
            let e2 = choose|e2: EdgeKey| #[trigger] r.added_edge(r2, e2, EdgeView { from: rf, to: rt, edge_type: restored_edge_type(t) });
            lemma_keeps_added_edge(g, r, next.graph, r2, edge->0, e2, EdgeView { from, to, edge_type }, EdgeView { from: rf, to: rt, edge_type });
        }
    } else if exists|key: NodeKey, new_url: String, previous: Option<String>|
        indexed_under_identity(s.graph, key) && #[trigger] s.url_updated(next, key, new_url, previous) {
        let (key, new_url, previous) = choose|key: NodeKey, new_url: String, previous: Option<String>|
            indexed_under_identity(s.graph, key) && #[trigger] s.url_updated(next, key, new_url, previous);
        let id = g.node_map()[key].id;
        assert(logs(next.store_requests@.last(), |e: LogEntry| is_url_entry(e, id, new_url)));
        if let LogEntry::UpdateNodeUrl { node_id, new_url: nu } = entry {
            lemma_named_in_replay(r, node_id@, id);
            lemma_keeps_renamed_node(g, r, next.graph, r2, key, r.id_index()[id], new_url);
        }
    } else if exists|key: NodeKey, title: String|
        indexed_under_identity(s.graph, key) && #[trigger] s.retitled_and_logged(next, key, title) {
        let (key, title) = choose|key: NodeKey, title: String|
            indexed_under_identity(s.graph, key) && #[trigger] s.retitled_and_logged(next, key, title);
        let (retitled, logged) = choose|retitled: GraphBrowserApp, logged: GraphBrowserApp| {
            &&& #[trigger] s.retitled(retitled, key, title)
            &&& #[trigger] retitled.title_logged(logged, key)
            &&& next == (GraphBrowserApp { egui_state_dirty: true, ..logged })
        };
        let id = g.node_map()[key].id;
        assert(retitled.graph.node_map()[key].title == title);
        assert(logs(next.store_requests@.last(), |e: LogEntry| is_title_entry(e, retitled.graph.node_map()[key].id, retitled.graph.node_map()[key].title)));
        if let LogEntry::UpdateNodeTitle { node_id, title: t } = entry {
            lemma_named_in_replay(r, node_id@, id);
            let rk = r.id_index()[id];
            assert(kept_nodes(g)[id] == kept_nodes(r)[id]);
            lemma_keeps_edited_node(g, r, next.graph, r2, key, rk, Node { title, ..g.node_map()[key] }, Node { title: t, ..r.node_map()[rk] });
        }
    } else if exists|key: NodeKey| indexed_under_identity(s.graph, key) && #[trigger] s.removed_one(next, key) {
        let key = choose|key: NodeKey| indexed_under_identity(s.graph, key) && #[trigger] s.removed_one(next, key);
        let id = g.node_map()[key].id;
        assert(logs(next.store_requests@.last(), |e: LogEntry| is_remove_entry(e, id)));
        if let LogEntry::RemoveNode { node_id } = entry {
            lemma_named_in_replay(r, node_id@, id);
            lemma_keeps_removed_node(g, r, next.graph, r2, key, r.id_index()[id]);
        }
    } else {
        assert(s.graph_cleared(next));
        assert(logs(next.store_requests@.last(), |e: LogEntry| e is ClearGraph));
        lemma_empty_graphs_keep_same(next.graph, r2);
    }
}

/// Replaying the log recovers the graph: replaying, onto a graph that keeps
/// the same as the one a run of logged operations started from (a snapshot
/// of it, say), the entries that the run logged gives a graph that keeps
/// the same as the one the run left: the same nodes by identity, with the
/// same URLs, titles, positions and pins, and as many edges of each type
/// between any two of them.
pub proof fn lemma_log_replay_recovers_run(states: Seq<GraphBrowserApp>, gs: Seq<Graph>, entries: Seq<LogEntry>)
    requires
        states.len() == entries.len() + 1,
        forall|i: int| 0 <= i < entries.len() ==> {
            &&& (#[trigger] states[i]).wf()
            &&& states[i].persistence_enabled
            &&& logged_step(states[i], states[i + 1])
            &&& states[i + 1].store_requests@.last() == StoreRequest::Log(entries[i])
        },
        replay_trace(gs, entries),
        keeps_same(states[0].graph, gs[0]),
    ensures
        keeps_same(states.last().graph, gs.last()),
{
    lemma_recovered_prefix(states, gs, entries, entries.len() as int);
}

/// The first `n` steps of a run are recovered by the first `n` replays.
proof fn lemma_recovered_prefix(states: Seq<GraphBrowserApp>, gs: Seq<Graph>, entries: Seq<LogEntry>, n: int)
    requires
        states.len() == entries.len() + 1,
        forall|i: int| 0 <= i < entries.len() ==> {
            &&& (#[trigger] states[i]).wf()
            &&& states[i].persistence_enabled
            &&& logged_step(states[i], states[i + 1])
            &&& states[i + 1].store_requests@.last() == StoreRequest::Log(entries[i])
        },
        replay_trace(gs, entries),
        keeps_same(states[0].graph, gs[0]),
        0 <= n <= entries.len(),
    ensures
        keeps_same(states[n].graph, gs[n]),
    decreases n,
{
    if n > 0 {
        let i = n - 1;
        lemma_recovered_prefix(states, gs, entries, i);
        assert(states[i].wf());
        assert(replays_entry(gs[i], gs[i + 1], entries[i]));
        lemma_logged_step_replays(states[i], states[i + 1], gs[i], gs[i + 1], entries[i]);
    }
}

/// Loading node records onto an empty graph keeps identities unique.
proof fn lemma_node_trace_unique(gs: Seq<Graph>, pns: Seq<PersistedNode>, i: int)
    requires
        Graph::node_load_trace(gs, pns),
        gs[0].is_empty_graph(),
        0 <= i <= pns.len(),
    ensures
        gs[i].wf(),
        identities_unique(gs[i]),
        gs[i].edge_map() == Map::<EdgeKey, EdgeView>::empty(),
    decreases i,
{
    if i > 0 {
        lemma_node_trace_unique(gs, pns, i - 1);
        let h = i - 1;
        assert(gs[h].loads_node(gs[h + 1], pns[h]));
        let prev = gs[h];
        let next = gs[i];
        let pn = pns[h];
        if uuid_parse(pn.node_id@) is Some && !prev.id_index().contains_key(uuid_parse(pn.node_id@)->0) {
            let id = uuid_parse(pn.node_id@)->0;
            let key = choose|key: NodeKey| #[trigger] prev.restored_node_under(next, key, id, pn);
            assert forall|k: NodeKey| #[trigger] next.node_map().contains_key(k) implies
                next.id_index().contains_key(next.node_map()[k].id) && next.id_index()[next.node_map()[k].id] == k by {
                if k != key {
                    assert(prev.node_map().contains_key(k));
                    assert(prev.node_map()[k].id != id);
                }
            }
        } else {
            assert(identities_unique(next)) by {
                assert forall|k: NodeKey| #[trigger] next.node_map().contains_key(k) implies
                    next.id_index().contains_key(next.node_map()[k].id) && next.id_index()[next.node_map()[k].id] == k by {
                    assert(prev.node_map().contains_key(k));
                }
            }
        }
    }
}

/// Edge record `pe` joins identity `a` to identity `b` with type `t`.
pub open spec fn record_joins(pe: PersistedEdge, a: u128, b: u128, t: EdgeType) -> bool {
    &&& uuid_parse(pe.from_node_id@) == Some(a)
    &&& uuid_parse(pe.to_node_id@) == Some(b)
    &&& restored_edge_type(pe.edge_type) == t
}

/// How many records of `pes` join `a` to `b` with type `t`.
pub open spec fn records_joining(pes: Seq<PersistedEdge>, a: u128, b: u128, t: EdgeType) -> nat
    decreases pes.len(),
{
    if pes.len() == 0 {
        0
    } else {
        records_joining(pes.drop_last(), a, b, t) + if record_joins(pes.last(), a, b, t) { 1nat } else { 0nat }
    }
}

/// How many keys of `keys` are edges of `g` joining `a` to `b` with type
/// `t`.
pub open spec fn keys_joining(g: Graph, keys: Seq<EdgeKey>, a: u128, b: u128, t: EdgeType) -> nat
    decreases keys.len(),
{
    if keys.len() == 0 {
        0
    } else {
        keys_joining(g, keys.drop_last(), a, b, t) + if joins(g, keys.last(), a, b, t) { 1nat } else { 0nat }
    }
}

/// Counting along keys listed once each counts the set they list.
proof fn lemma_keys_joining_counts(g: Graph, keys: Seq<EdgeKey>, a: u128, b: u128, t: EdgeType)
    requires
        keys.no_duplicates(),
    ensures
        keys_joining(g, keys, a, b, t) == keys.to_set().filter(|e: EdgeKey| joins(g, e, a, b, t)).len(),
        keys.to_set().filter(|e: EdgeKey| joins(g, e, a, b, t)).finite(),
    decreases keys.len(),
{
    let p = |e: EdgeKey| joins(g, e, a, b, t);
    if keys.len() == 0 {
        assert(keys.to_set().filter(p) =~= Set::<EdgeKey>::empty());
    } else {
        let prev = keys.drop_last();
        let x = keys.last();
        assert(prev.no_duplicates()) by {
            assert forall|i: int, j: int| 0 <= i < prev.len() && 0 <= j < prev.len() && i != j implies prev[i] != prev[j] by {
                assert(keys[i] == prev[i]);
                assert(keys[j] == prev[j]);
            }
        }
        lemma_keys_joining_counts(g, prev, a, b, t);
        assert(!prev.to_set().contains(x)) by {
            if prev.contains(x) {
                let i = choose|i: int| 0 <= i < prev.len() && prev[i] == x;
                assert(keys[i] == keys[keys.len() - 1]);
            }
        }
        assert(keys.to_set() =~= prev.to_set().insert(x)) by {
            assert(keys =~= prev.push(x));
            assert forall|e: EdgeKey| keys.to_set().contains(e) <==> prev.to_set().insert(x).contains(e) by {
                if keys.contains(e) {
                    let i = choose|i: int| 0 <= i < keys.len() && keys[i] == e;
                    if i < keys.len() - 1 {
                        assert(prev[i] == e);
                    }
                }
                if prev.contains(e) {
                    let i = choose|i: int| 0 <= i < prev.len() && prev[i] == e;
                    assert(keys[i] == e);
                }
                if e == x {
                    assert(keys[keys.len() - 1] == e);
                }
            }
        }
        if joins(g, x, a, b, t) {
            assert(keys.to_set().filter(p) =~= prev.to_set().filter(p).insert(x));
        } else {
            assert(keys.to_set().filter(p) =~= prev.to_set().filter(p));
        }
    }
}

/// Loading edge records, each of whose endpoint identities is indexed,
/// makes as many edges joining two identities as there are records
/// joining them.
proof fn lemma_edge_trace_counts(hs: Seq<Graph>, pes: Seq<PersistedEdge>, i: int, a: u128, b: u128, t: EdgeType)
    requires
        Graph::edge_load_trace(hs, pes),
        hs[0].wf(),
        hs[0].edge_map() == Map::<EdgeKey, EdgeView>::empty(),
        forall|j: int| 0 <= j < pes.len() ==> {
            &&& uuid_parse(#[trigger] pes[j].from_node_id@) is Some
            &&& uuid_parse(pes[j].to_node_id@) is Some
            &&& hs[0].id_index().contains_key(uuid_parse(pes[j].from_node_id@)->0)
            &&& hs[0].id_index().contains_key(uuid_parse(pes[j].to_node_id@)->0)
        },
        0 <= i <= pes.len(),
    ensures
        hs[i].wf(),
        edges_joining(hs[i], a, b, t).len() == records_joining(pes.take(i), a, b, t),
    decreases i,
{
    if i == 0 {
        assert(edges_joining(hs[0], a, b, t) =~= Set::<EdgeKey>::empty());
        assert(pes.take(0) =~= Seq::<PersistedEdge>::empty());
    } else {
        let h = i - 1;
        lemma_edge_trace_counts(hs, pes, h, a, b, t);
        lemma_edge_trace_keeps_nodes(hs, pes, h);
        assert(hs[h].loads_edge(hs[h + 1], pes[h]));
        let g = hs[h];
        let pe = pes[h];
        let from = uuid_parse(pe.from_node_id@)->0;
        let to = uuid_parse(pe.to_node_id@)->0;
        let view = EdgeView { from: g.id_index()[from], to: g.id_index()[to], edge_type: restored_edge_type(pe.edge_type) };
        let e = choose|e: EdgeKey| #[trigger] g.added_edge(hs[i], e, view);
        lemma_edges_joining_after_edge(g, hs[i], e, view, a, b, t);
        assert(g.node_map()[g.id_index()[from]].id == from);
        assert(g.node_map()[g.id_index()[to]].id == to);
        assert(joins(hs[i], e, a, b, t) == record_joins(pe, a, b, t));
        assert(pes.take(i).drop_last() =~= pes.take(h));
        assert(pes.take(i).last() == pe);
    }
}

/// The records of a snapshot join identities as the graph's edges do.
proof fn lemma_records_match_keys(g: Graph, pes: Seq<PersistedEdge>, keys: Seq<EdgeKey>, i: int, a: u128, b: u128, t: EdgeType)
    requires
        g.wf(),
        keys.len() == pes.len(),
        forall|j: int| 0 <= j < keys.len() ==> g.edge_map().contains_key(#[trigger] keys[j]),
        forall|j: int| 0 <= j < keys.len() ==> persists_edge(#[trigger] pes[j], g.edge_map()[keys[j]], g.node_map()),
        0 <= i <= pes.len(),
    ensures
        records_joining(pes.take(i), a, b, t) == keys_joining(g, keys.take(i), a, b, t),
    decreases i,
{
    if i > 0 {
        let h = i - 1;
        lemma_records_match_keys(g, pes, keys, h, a, b, t);
        assert(pes.take(i).drop_last() =~= pes.take(h));
        assert(keys.take(i).drop_last() =~= keys.take(h));
        assert(pes.take(i).last() == pes[h]);
        assert(keys.take(i).last() == keys[h]);
        assert(persists_edge(pes[h], g.edge_map()[keys[h]], g.node_map()));
        let ty = g.edge_map()[keys[h]].edge_type;
        assert(restored_edge_type(persisted_edge_type(ty)) == ty);
    }
}

/// Loading a snapshot of a graph whose identities are unique gives a graph
/// that keeps the same.
pub proof fn lemma_snapshot_keeps_same(g: Graph, snap: GraphSnapshot, loaded: Graph)
    requires
        g.wf(),
        identities_unique(g),
        is_snapshot_of(snap, g),
        Graph::is_loaded_from(snap, loaded),
    ensures
        keeps_same(g, loaded),
{
    let keys = choose|keys: Seq<NodeKey>| {
        &&& #[trigger] is_node_key_order(keys, g.node_map())
        &&& keys.len() == snap.nodes@.len()
        &&& forall|i: int| 0 <= i < keys.len() ==> persists_node(#[trigger] snap.nodes@[i], g.node_map()[keys[i]])
    };
    let ekeys = choose|keys: Seq<EdgeKey>| {
        &&& #[trigger] is_key_order(keys, g.edge_map())
        &&& keys.len() == snap.edges@.len()
        &&& forall|i: int| 0 <= i < keys.len() ==> persists_edge(#[trigger] snap.edges@[i], g.edge_map()[keys[i]], g.node_map())
    };
    let (gs, hs) = choose|gs: Seq<Graph>, hs: Seq<Graph>| {
        &&& #[trigger] Graph::node_load_trace(gs, snap.nodes@)
        &&& #[trigger] Graph::edge_load_trace(hs, snap.edges@)
        &&& gs[0].is_empty_graph()
        &&& hs[0].same_contents(gs.last())
        &&& loaded.same_contents(hs.last())
    };
    let pns = snap.nodes@;
    let pes = snap.edges@;
    let ids = Seq::new(keys.len(), |j: int| g.node_map()[keys[j]].id);
    assert forall|j: int| 0 <= j < pns.len() implies uuid_parse(#[trigger] pns[j].node_id@) == Some(ids[j]) by {
        assert(persists_node(pns[j], g.node_map()[keys[j]]));
    }
    assert forall|x: int, y: int| 0 <= x < y < ids.len() implies ids[x] != ids[y] by {
        assert(keys[x].index < keys[y].index);
        assert(g.node_map().contains_key(keys[x]));
        assert(g.node_map().contains_key(keys[y]));
        assert(g.id_index()[ids[x]] == keys[x]);
        assert(g.id_index()[ids[y]] == keys[y]);
    }
    lemma_node_trace(gs, pns, ids, pns.len() as int);
    lemma_node_trace_unique(gs, pns, pns.len() as int);
    lemma_edge_trace_keeps_nodes(hs, pes, pes.len() as int);
    let last = gs.last();
    assert(last == gs[pns.len() as int]);
    // The loaded graph's nodes are those of the last node-loading step.
    assert(loaded.node_map() == last.node_map());
    assert(loaded.id_index() == last.id_index());
    assert(identities_unique(loaded)) by {
        assert forall|k: NodeKey| #[trigger] loaded.node_map().contains_key(k) implies
            loaded.id_index().contains_key(loaded.node_map()[k].id) && loaded.id_index()[loaded.node_map()[k].id] == k by {
            assert(last.node_map().contains_key(k));
        }
    }
    // Nodes: the same identities, with the same kept fields.
    assert(kept_nodes(g) =~= kept_nodes(loaded)) by {
        assert forall|id: u128| kept_nodes(g).contains_key(id) <==> kept_nodes(loaded).contains_key(id) by {
            if g.id_index().contains_key(id) {
                let k = g.id_index()[id];
                assert(g.node_map().contains_key(k));
                assert(keys.contains(k));
                let j = choose|j: int| 0 <= j < keys.len() && keys[j] == k;
                assert(ids[j] == id);
                assert(last.id_index().contains_key(ids[j]));
            }
            if loaded.id_index().contains_key(id) {
                assert(last.id_index().contains_key(id));
                let j = choose|j: int| 0 <= j < pns.len() && ids[j] == id;
                assert(g.node_map().contains_key(keys[j]));
                assert(g.id_index().contains_key(g.node_map()[keys[j]].id));
            }
        }
        assert forall|id: u128| #[trigger] kept_nodes(g).contains_key(id) implies kept_nodes(g)[id] == kept_nodes(loaded)[id] by {
            let k = g.id_index()[id];
            assert(g.node_map().contains_key(k));
            assert(keys.contains(k));
            let j = choose|j: int| 0 <= j < keys.len() && keys[j] == k;
            assert(ids[j] == id);
            assert(last.id_index().contains_key(ids[j]));
            assert(persists_node(pns[j], g.node_map()[keys[j]]));
        }
    }
    // Edges: as many joining any two identities.
    assert(hs[0].wf());
    assert(hs[0].edge_map() == Map::<EdgeKey, EdgeView>::empty());
    assert forall|j: int| 0 <= j < pes.len() implies {
        &&& uuid_parse(#[trigger] pes[j].from_node_id@) is Some
        &&& uuid_parse(pes[j].to_node_id@) is Some
        &&& hs[0].id_index().contains_key(uuid_parse(pes[j].from_node_id@)->0)
        &&& hs[0].id_index().contains_key(uuid_parse(pes[j].to_node_id@)->0)
    } by {
        let ed = g.edge_map()[ekeys[j]];
        assert(persists_edge(pes[j], ed, g.node_map()));
        assert(g.edge_map().contains_key(ekeys[j]));
        assert(g.node_map().contains_key(ed.from));
        assert(g.node_map().contains_key(ed.to));
        assert(keys.contains(ed.from));
        assert(keys.contains(ed.to));
        let jf = choose|jf: int| 0 <= jf < keys.len() && keys[jf] == ed.from;
        let jt = choose|jt: int| 0 <= jt < keys.len() && keys[jt] == ed.to;
        assert(ids[jf] == g.node_map()[ed.from].id);
        assert(ids[jt] == g.node_map()[ed.to].id);
        assert(last.id_index().contains_key(ids[jf]));
        assert(last.id_index().contains_key(ids[jt]));
    }
    assert(ekeys.no_duplicates()) by {
        assert forall|x: int, y: int| 0 <= x < ekeys.len() && 0 <= y < ekeys.len() && x != y implies ekeys[x] != ekeys[y] by {
            if x < y {
                assert(ekeys[x].index < ekeys[y].index);
            } else {
                assert(ekeys[y].index < ekeys[x].index);
            }
        }
    }
    assert(ekeys.to_set() =~= g.edge_map().dom());
    lemma_edge_trace_counts(hs, pes, pes.len() as int, 0, 0, EdgeType::Hyperlink);
    assert(hs.last() == hs[pes.len() as int]);
    assert(loaded.wf());
    assert forall|a: u128, b: u128, t: EdgeType| #[trigger] edges_joining(g, a, b, t).len() == edges_joining(loaded, a, b, t).len() by {
        lemma_edge_trace_counts(hs, pes, pes.len() as int, a, b, t);
        lemma_records_match_keys(g, pes, ekeys, pes.len() as int, a, b, t);
        lemma_keys_joining_counts(g, ekeys, a, b, t);
        assert(pes.take(pes.len() as int) =~= pes);
        assert(ekeys.take(ekeys.len() as int) =~= ekeys);
        assert(edges_joining(g, a, b, t) =~= ekeys.to_set().filter(|e: EdgeKey| joins(g, e, a, b, t)));
        assert(edges_joining(loaded, a, b, t) =~= edges_joining(hs.last(), a, b, t));
        assert(hs.last() == hs[pes.len() as int]);
    }
}

/// Recovery restores what a run of logged operations left: loading a
/// snapshot of the graph the run started from (with unique identities) and
/// replaying the entries the run logged gives a graph that keeps the same
/// as the one the run ended with; where recovery finds nothing, the run
/// left no node.
pub proof fn lemma_recovery_restores_run(
    states: Seq<GraphBrowserApp>,
    entries: Seq<LogEntry>,
    snap: GraphSnapshot,
    recovered: Option<Graph>,
)
    requires
        states.len() == entries.len() + 1,
        states[0].wf(),
        identities_unique(states[0].graph),
        forall|i: int| 0 <= i < entries.len() ==> {
            &&& (#[trigger] states[i]).wf()
            &&& states[i].persistence_enabled
            &&& logged_step(states[i], states[i + 1])
            &&& states[i + 1].store_requests@.last() == StoreRequest::Log(entries[i])
        },
        is_snapshot_of(snap, states[0].graph),
        is_recovery(Some(snap), entries, recovered),
    ensures
        recovered matches Some(g) ==> keeps_same(states.last().graph, g),
        recovered is None ==> states.last().graph.node_map().len() == 0,
{
    let (start, end) = choose|start: Graph, end: Graph| {
        &&& #[trigger] replays(start, end, entries)
        &&& start.wf()
        &&& Graph::is_loaded_from(snap, start)
        &&& end.wf()
        &&& match recovered {
            Some(g) => g == end && end.node_map().len() > 0,
            None => end.node_map().len() == 0,
        }
    };
    let gs = choose|gs: Seq<Graph>| {
        &&& #[trigger] replay_trace(gs, entries)
        &&& gs[0] == start
        &&& gs.last() == end
    };
    lemma_snapshot_keeps_same(states[0].graph, snap, start);
    lemma_log_replay_recovers_run(states, gs, entries);
    let last = states.last().graph;
    if recovered is None {
        assert(end.node_map().dom().len() == 0);
        assert(end.node_map().dom() =~= Set::<NodeKey>::empty());
        assert(end.id_index().dom() =~= Set::<u128>::empty());
        assert(kept_nodes(last).dom() =~= kept_nodes(end).dom());
        assert(last.node_map().dom() =~= Set::<NodeKey>::empty()) by {
            assert forall|k: NodeKey| !last.node_map().contains_key(k) by {
                if last.node_map().contains_key(k) {
                    assert(last.id_index().contains_key(last.node_map()[k].id));
                    assert(kept_nodes(last).contains_key(last.node_map()[k].id));
                }
            }
        }
    }
}

/// Loading node records with distinct identities onto an empty graph adds
/// one node per record.
proof fn lemma_node_trace_len(gs: Seq<Graph>, pns: Seq<PersistedNode>, ids: Seq<u128>, i: int)
    requires
        Graph::node_load_trace(gs, pns),
        gs[0].is_empty_graph(),
        0 <= i <= pns.len(),
        ids.len() == pns.len(),
        forall|j: int| 0 <= j < pns.len() ==> uuid_parse(#[trigger] pns[j].node_id@) == Some(ids[j]),
        forall|a: int, b: int| 0 <= a < b < ids.len() ==> ids[a] != ids[b],
    ensures
        gs[i].node_map().len() == i,
    decreases i,
{
    if i == 0 {
        assert(gs[0].node_map().dom() =~= Set::<NodeKey>::empty());
    } else {
        let h = i - 1;
        lemma_node_trace_len(gs, pns, ids, h);
        lemma_node_trace(gs, pns, ids, h);
        lemma_node_trace_unique(gs, pns, h);
        assert(gs[h].loads_node(gs[h + 1], pns[h]));
        let id = ids[h];
        assert(uuid_parse(pns[h].node_id@) == Some(id));
        assert(!gs[h].id_index().contains_key(id)) by {
            if gs[h].id_index().contains_key(id) {
                let j = choose|j: int| 0 <= j < h && ids[j] == id;
            }
        }
        let key = choose|key: NodeKey| #[trigger] gs[h].restored_node_under(gs[h + 1], key, id, pns[h]);
        assert(gs[i].node_map().dom() =~= gs[h].node_map().dom().insert(key));
    }
}

/// Loading edge records whose endpoints are all indexed adds one edge per
/// record.
proof fn lemma_edge_trace_len(hs: Seq<Graph>, pes: Seq<PersistedEdge>, i: int)
    requires
        Graph::edge_load_trace(hs, pes),
        hs[0].wf(),
        hs[0].edge_map() == Map::<EdgeKey, EdgeView>::empty(),
        forall|j: int| 0 <= j < pes.len() ==> {
            &&& uuid_parse(#[trigger] pes[j].from_node_id@) is Some
            &&& uuid_parse(pes[j].to_node_id@) is Some
            &&& hs[0].id_index().contains_key(uuid_parse(pes[j].from_node_id@)->0)
            &&& hs[0].id_index().contains_key(uuid_parse(pes[j].to_node_id@)->0)
        },
        0 <= i <= pes.len(),
    ensures
        hs[i].edge_map().len() == i,
    decreases i,
{
    if i == 0 {
        assert(hs[0].edge_map().dom() =~= Set::<EdgeKey>::empty());
    } else {
        let h = i - 1;
        lemma_edge_trace_len(hs, pes, h);
        lemma_edge_trace_counts(hs, pes, h, 0, 0, EdgeType::Hyperlink);
        lemma_edge_trace_keeps_nodes(hs, pes, h);
        assert(hs[h].loads_edge(hs[h + 1], pes[h]));
        let g = hs[h];
        let pe = pes[h];
        let from = uuid_parse(pe.from_node_id@)->0;
        let to = uuid_parse(pe.to_node_id@)->0;
        let view = EdgeView { from: g.id_index()[from], to: g.id_index()[to], edge_type: restored_edge_type(pe.edge_type) };
        let e = choose|e: EdgeKey| #[trigger] g.added_edge(hs[i], e, view);
        assert(hs[i].edge_map().dom() =~= g.edge_map().dom().insert(e));
    }
}

/// Loading a graph's snapshot gives back as many nodes and as many edges as
/// the graph has, when its nodes have distinct identities.
pub proof fn lemma_snapshot_keeps_counts(g: Graph, snap: GraphSnapshot, loaded: Graph)
    requires
        g.wf(),
        identities_unique(g),
        is_snapshot_of(snap, g),
        Graph::is_loaded_from(snap, loaded),
    ensures
        loaded.node_map().len() == g.node_map().len(),
        loaded.edge_map().len() == g.edge_map().len(),
{
    lemma_snapshot_keeps_same(g, snap, loaded);
    let keys = choose|keys: Seq<NodeKey>| {
        &&& #[trigger] is_node_key_order(keys, g.node_map())
        &&& keys.len() == snap.nodes@.len()
        &&& forall|i: int| 0 <= i < keys.len() ==> persists_node(#[trigger] snap.nodes@[i], g.node_map()[keys[i]])
    };
    let ekeys = choose|keys: Seq<EdgeKey>| {
        &&& #[trigger] is_key_order(keys, g.edge_map())
        &&& keys.len() == snap.edges@.len()
        &&& forall|i: int| 0 <= i < keys.len() ==> persists_edge(#[trigger] snap.edges@[i], g.edge_map()[keys[i]], g.node_map())
    };
    let (gs, hs) = choose|gs: Seq<Graph>, hs: Seq<Graph>| {
        &&& #[trigger] Graph::node_load_trace(gs, snap.nodes@)
        &&& #[trigger] Graph::edge_load_trace(hs, snap.edges@)
        &&& gs[0].is_empty_graph()
        &&& hs[0].same_contents(gs.last())
        &&& loaded.same_contents(hs.last())
    };
    let pns = snap.nodes@;
    let pes = snap.edges@;
    let ids = Seq::new(keys.len(), |j: int| g.node_map()[keys[j]].id);
    assert forall|j: int| 0 <= j < pns.len() implies uuid_parse(#[trigger] pns[j].node_id@) == Some(ids[j]) by {
        assert(persists_node(pns[j], g.node_map()[keys[j]]));
    }
    assert forall|x: int, y: int| 0 <= x < y < ids.len() implies ids[x] != ids[y] by {
        assert(keys[x].index < keys[y].index);
        assert(g.node_map().contains_key(keys[x]));
        assert(g.node_map().contains_key(keys[y]));
        assert(g.id_index()[ids[x]] == keys[x]);
        assert(g.id_index()[ids[y]] == keys[y]);
    }
    lemma_node_trace_len(gs, pns, ids, pns.len() as int);
    lemma_node_trace(gs, pns, ids, pns.len() as int);
    lemma_node_trace_unique(gs, pns, pns.len() as int);
    lemma_edge_trace_keeps_nodes(hs, pes, pes.len() as int);
    let last = gs.last();
    assert(last == gs[pns.len() as int]);
    assert(keys.no_duplicates()) by {
        assert forall|x: int, y: int| 0 <= x < keys.len() && 0 <= y < keys.len() && x != y implies keys[x] != keys[y] by {
            if x < y {
                assert(keys[x].index < keys[y].index);
            } else {
                assert(keys[y].index < keys[x].index);
            }
        }
    }
    keys.unique_seq_to_set();
    assert(keys.to_set() =~= g.node_map().dom());
    assert(ekeys.no_duplicates()) by {
        assert forall|x: int, y: int| 0 <= x < ekeys.len() && 0 <= y < ekeys.len() && x != y implies ekeys[x] != ekeys[y] by {
            if x < y {
                assert(ekeys[x].index < ekeys[y].index);
            } else {
                assert(ekeys[y].index < ekeys[x].index);
            }
        }
    }
    ekeys.unique_seq_to_set();
    assert(ekeys.to_set() =~= g.edge_map().dom());
    assert forall|j: int| 0 <= j < pes.len() implies {
        &&& uuid_parse(#[trigger] pes[j].from_node_id@) is Some
        &&& uuid_parse(pes[j].to_node_id@) is Some
        &&& hs[0].id_index().contains_key(uuid_parse(pes[j].from_node_id@)->0)
        &&& hs[0].id_index().contains_key(uuid_parse(pes[j].to_node_id@)->0)
    } by {
        let ed = g.edge_map()[ekeys[j]];
        assert(persists_edge(pes[j], ed, g.node_map()));
        assert(g.edge_map().contains_key(ekeys[j]));
        assert(g.node_map().contains_key(ed.from));
        assert(g.node_map().contains_key(ed.to));
        assert(keys.contains(ed.from));
        assert(keys.contains(ed.to));
        let jf = choose|jf: int| 0 <= jf < keys.len() && keys[jf] == ed.from;
        let jt = choose|jt: int| 0 <= jt < keys.len() && keys[jt] == ed.to;
        assert(ids[jf] == g.node_map()[ed.from].id);
        assert(ids[jt] == g.node_map()[ed.to].id);
        assert(last.id_index().contains_key(ids[jf]));
        assert(last.id_index().contains_key(ids[jt]));
    }
    assert(hs[0].wf());
    assert(hs[0].edge_map() == Map::<EdgeKey, EdgeView>::empty());
    lemma_edge_trace_len(hs, pes, pes.len() as int);
    assert(hs.last() == hs[pes.len() as int]);
    assert(loaded.node_map().dom() =~= last.node_map().dom());
    assert(loaded.edge_map().dom() =~= hs.last().edge_map().dom());
}

} // verus!
