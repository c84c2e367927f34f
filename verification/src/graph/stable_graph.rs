//! The node and edge storage of a [`Graph`](super::Graph): petgraph's
//! `StableGraph`, described to Verus through the trusted items below.
//!
//! The contents of a `StableGraph<Node, EdgeType>` are modelled as two maps:
//! node keys to node weights and edge keys to edge records. Each wrapper
//! states what petgraph's source does to those maps; none of it is proved.

use petgraph::stable_graph::{EdgeIndex, NodeIndex, StableGraph};
use petgraph::visit::{EdgeRef, IntoEdgeReferences};
use petgraph::{Directed, Direction};
use vstd::prelude::*;

use super::{EdgeKey, EdgeType, EdgeView, Node, NodeKey};

verus! {

#[verifier::external_type_specification]
#[verifier::external_body]
#[verifier::reject_recursive_types(N)]
#[verifier::reject_recursive_types(E)]
#[verifier::reject_recursive_types(Ty)]
#[verifier::reject_recursive_types(Ix)]
pub struct ExStableGraph<N, E, Ty, Ix>(StableGraph<N, E, Ty, Ix>);

#[verifier::external_type_specification]
#[verifier::external_body]
pub struct ExDirected(Directed);

/// The petgraph storage used by [`Graph`](super::Graph).
pub type NodeStore = StableGraph<Node, EdgeType, Directed, u32>;

/// The nodes held by a `StableGraph`, by node index.
pub uninterp spec fn store_nodes(g: NodeStore) -> Map<NodeKey, Node>;

/// The edges held by a `StableGraph`, by edge index.
pub uninterp spec fn store_edges(g: NodeStore) -> Map<EdgeKey, EdgeView>;

/// The edges of `edges` that neither start nor end at `k`.
pub open spec fn edges_not_touching(edges: Map<EdgeKey, EdgeView>, k: NodeKey) -> Map<EdgeKey, EdgeView> {
    edges.restrict(edges.dom().filter(|e: EdgeKey| edges[e].from != k && edges[e].to != k))
}

/// The two maps of a store are finite.
pub open spec fn store_finite(g: NodeStore) -> bool {
    store_nodes(g).dom().finite() && store_edges(g).dom().finite()
}

/// Wraps `StableGraph::new`: the new graph holds no node and no edge.
#[verifier::external_body]
pub(crate) fn store_new() -> (created: StableGraph<Node, EdgeType, Directed, u32>)
    ensures
        store_nodes(created) =~= Map::empty(),
        store_edges(created) =~= Map::empty(),
{
    StableGraph::default()
}

/// Wraps `StableGraph::add_node`: the weight is stored under an index that
/// was vacant (petgraph reuses the most recently freed index, or appends),
/// and edges are untouched. petgraph panics only when every index below
/// `u32::MAX` is taken, which the node bound below rules out.
#[verifier::external_body]
pub(crate) fn store_add_node(g: &mut NodeStore, weight: Node) -> (k: NodeKey)
    requires
        store_finite(*old(g)),
        store_nodes(*old(g)).len() < u32::MAX,
    ensures
        !store_nodes(*old(g)).contains_key(k),
        k.index < u32::MAX,
        store_nodes(*final(g)) == store_nodes(*old(g)).insert(k, weight),
        store_edges(*final(g)) == store_edges(*old(g)),
{
    let idx = g.add_node(weight);
    NodeKey { index: idx.index() as u32 }
}

/// Wraps `StableGraph::remove_node`: when the index is occupied its weight
/// is returned and the node and every edge starting or ending at it are
/// removed; otherwise nothing changes.
#[verifier::external_body]
pub(crate) fn store_remove_node(g: &mut NodeStore, k: NodeKey) -> (r: Option<Node>)
    ensures
        store_nodes(*old(g)).contains_key(k) ==> {
            &&& r == Some(store_nodes(*old(g))[k])
            &&& store_nodes(*final(g)) == store_nodes(*old(g)).remove(k)
            &&& store_edges(*final(g)) == edges_not_touching(store_edges(*old(g)), k)
        },
        !store_nodes(*old(g)).contains_key(k) ==> {
            &&& r is None
            &&& store_nodes(*final(g)) == store_nodes(*old(g))
            &&& store_edges(*final(g)) == store_edges(*old(g))
        },
{
    g.remove_node(NodeIndex::new(k.index as usize))
}

/// Wraps `StableGraph::contains_node`: whether the index holds a node.
#[verifier::external_body]
pub(crate) fn store_contains_node(g: &NodeStore, k: NodeKey) -> (r: bool)
    ensures
        r == store_nodes(*g).contains_key(k),
{
    g.contains_node(NodeIndex::new(k.index as usize))
}

/// Wraps `StableGraph::node_weight`: the weight stored under the index, if any.
#[verifier::external_body]
pub(crate) fn store_node_weight(g: &NodeStore, k: NodeKey) -> (r: Option<&Node>)
    ensures
        match r {
            Some(n) => store_nodes(*g).contains_key(k) && *n == store_nodes(*g)[k],
            None => !store_nodes(*g).contains_key(k),
        },
{
    g.node_weight(NodeIndex::new(k.index as usize))
}

/// Wraps `StableGraph::node_weight_mut`: a mutable borrow of the weight
/// stored under the index, if any; whatever is written through it becomes
/// the weight of that node, and nothing else changes.
#[verifier::external_body]
pub(crate) fn store_node_weight_mut(g: &mut NodeStore, k: NodeKey) -> (r: Option<&mut Node>)
    ensures
        match r {
            Some(n) => {
                &&& store_nodes(*old(g)).contains_key(k)
                &&& *n == store_nodes(*old(g))[k]
                &&& store_nodes(*final(g)) == store_nodes(*old(g)).insert(k, *final(n))
                &&& store_edges(*final(g)) == store_edges(*old(g))
            },
            None => {
                &&& !store_nodes(*old(g)).contains_key(k)
                &&& store_nodes(*final(g)) == store_nodes(*old(g))
                &&& store_edges(*final(g)) == store_edges(*old(g))
            },
        },
{
    g.node_weight_mut(NodeIndex::new(k.index as usize))
}

/// Wraps `StableGraph::add_edge` on two present nodes: the edge is stored
/// under an index that was vacant and nodes are untouched. petgraph panics
/// on a missing endpoint or when every edge index below `u32::MAX` is taken;
/// both are ruled out by the requirements.
#[verifier::external_body]
pub(crate) fn store_add_edge(g: &mut NodeStore, from: NodeKey, to: NodeKey, edge_type: EdgeType) -> (e: EdgeKey)
    requires
        store_finite(*old(g)),
        store_nodes(*old(g)).contains_key(from),
        store_nodes(*old(g)).contains_key(to),
        store_edges(*old(g)).len() < u32::MAX,
    ensures
        !store_edges(*old(g)).contains_key(e),
        store_edges(*final(g)) == store_edges(*old(g)).insert(e, EdgeView { from, to, edge_type }),
        store_nodes(*final(g)) == store_nodes(*old(g)),
{
    let idx = g.add_edge(NodeIndex::new(from.index as usize), NodeIndex::new(to.index as usize), edge_type);
    EdgeKey { index: idx.index() as u32 }
}

/// Wraps `StableGraph::node_indices`: every occupied node index, once, in
/// increasing order.
#[verifier::external_body]
pub(crate) fn store_node_keys(g: &NodeStore) -> (r: Vec<NodeKey>)
    ensures
        forall|i: int| 0 <= i < r@.len() ==> store_nodes(*g).contains_key(#[trigger] r@[i]),
        forall|k: NodeKey| store_nodes(*g).contains_key(k) ==> r@.contains(k),
        forall|i: int, j: int| 0 <= i < j < r@.len() ==> r@[i].index < r@[j].index,
{
    g.node_indices().map(|idx| NodeKey { index: idx.index() as u32 }).collect()
}

/// Wraps `StableGraph::edge_references`: every edge with its index, once,
/// in increasing index order.
#[verifier::external_body]
pub(crate) fn store_edge_list(g: &NodeStore) -> (r: Vec<(EdgeKey, EdgeView)>)
    ensures
        forall|i: int| 0 <= i < r@.len() ==> store_edges(*g).contains_key(#[trigger] r@[i].0)
            && store_edges(*g)[r@[i].0] == r@[i].1,
        forall|e: EdgeKey| store_edges(*g).contains_key(e) ==> exists|i: int| 0 <= i < r@.len() && #[trigger] r@[i].0 == e,
        forall|i: int, j: int| 0 <= i < j < r@.len() ==> r@[i].0.index < r@[j].0.index,
{
    g.edge_references().map(|e| (
        EdgeKey { index: e.id().index() as u32 },
        EdgeView { from: NodeKey { index: e.source().index() as u32 }, to: NodeKey { index: e.target().index() as u32 }, edge_type: *e.weight() },
    )).collect()
}

/// The keys of the edges of `edges` that leave `k` (`outgoing`) or enter it.
pub open spec fn incident_edges(edges: Map<EdgeKey, EdgeView>, k: NodeKey, outgoing: bool) -> Set<EdgeKey> {
    edges.dom().filter(|e: EdgeKey| if outgoing { edges[e].from == k } else { edges[e].to == k })
}

/// The node at the far end of edge `v` seen from its `outgoing` side.
pub open spec fn far_end(v: EdgeView, outgoing: bool) -> NodeKey {
    if outgoing { v.to } else { v.from }
}

/// `ns` has one entry per edge of `edges` leaving (`outgoing`) or entering
/// `k`, naming the node at the other end of that edge.
pub open spec fn lists_far_ends(ns: Seq<NodeKey>, edges: Map<EdgeKey, EdgeView>, k: NodeKey, outgoing: bool) -> bool {
    exists|ids: Seq<EdgeKey>| {
        &&& ids.no_duplicates()
        &&& ids.to_set() == incident_edges(edges, k, outgoing)
        &&& ids.len() == ns.len()
        &&& forall|i: int| 0 <= i < ids.len() ==> #[trigger] ns[i] == far_end(edges[ids[i]], outgoing)
    }
}

/// Wraps `StableGraph::neighbors_directed`: one entry per edge leaving
/// (`outgoing`) or entering `k`, giving the node at the other end. petgraph
/// lists the most recently added edge first; that order is not stated here.
#[verifier::external_body]
pub(crate) fn store_neighbors(g: &NodeStore, k: NodeKey, outgoing: bool) -> (r: Vec<NodeKey>)
    ensures
        r@.len() == incident_edges(store_edges(*g), k, outgoing).len(),
        lists_far_ends(r@, store_edges(*g), k, outgoing),
{
    let dir = if outgoing { Direction::Outgoing } else { Direction::Incoming };
    g.neighbors_directed(NodeIndex::new(k.index as usize), dir).map(|n| NodeKey { index: n.index() as u32 }).collect()
}

/// Wraps `StableGraph::find_edge`: an edge from `from` to `to` if there is one.
#[verifier::external_body]
pub(crate) fn store_find_edge(g: &NodeStore, from: NodeKey, to: NodeKey) -> (r: Option<EdgeKey>)
    ensures
        match r {
            Some(e) => store_edges(*g).contains_key(e) && store_edges(*g)[e].from == from && store_edges(*g)[e].to == to,
            None => forall|e: EdgeKey| store_edges(*g).contains_key(e) ==> !(store_edges(*g)[e].from == from && #[trigger] store_edges(*g)[e].to == to),
        },
{
    g.find_edge(NodeIndex::new(from.index as usize), NodeIndex::new(to.index as usize)).map(|e: EdgeIndex<u32>| EdgeKey { index: e.index() as u32 })
}

/// Wraps `StableGraph::node_count`: the number of nodes.
#[verifier::external_body]
pub(crate) fn store_node_count(g: &NodeStore) -> (r: usize)
    requires
        store_finite(*g),
    ensures
        r == store_nodes(*g).len(),
{
    g.node_count()
}

/// Wraps `StableGraph::edge_count`: the number of edges.
#[verifier::external_body]
pub(crate) fn store_edge_count(g: &NodeStore) -> (r: usize)
    requires
        store_finite(*g),
    ensures
        r == store_edges(*g).len(),
{
    g.edge_count()
}

} // verus!
