//! Conversion between a [`Graph`] and the snapshot records written to the
//! persistent store. Nodes are recorded by their stable identity, and edges
//! by the identities of their endpoints.

use vstd::prelude::*;

use super::clock::unix_time_secs;
use super::node_id::{node_id_to_string, parse_node_id, uuid_parse, uuid_text};
use super::{is_key_order, EdgeKey, EdgeType, EdgeView, Graph, Node, NodeKey, NodeLifecycle, Position};
use crate::persistence::types::{GraphSnapshot, PersistedEdge, PersistedEdgeType, PersistedNode};
use crate::util::{copy_opt_bytes, copy_strings, opt_bytes_view};

verus! {

/// The persisted form of an edge type.
pub open spec fn persisted_edge_type(t: EdgeType) -> PersistedEdgeType {
    match t {
        EdgeType::Hyperlink => PersistedEdgeType::Hyperlink,
        EdgeType::History => PersistedEdgeType::History,
    }
}

/// The edge type a persisted edge type stands for.
pub open spec fn restored_edge_type(t: PersistedEdgeType) -> EdgeType {
    match t {
        PersistedEdgeType::Hyperlink => EdgeType::Hyperlink,
        PersistedEdgeType::History => EdgeType::History,
    }
}

/// The persisted form of an edge type.
pub fn to_persisted_edge_type(t: EdgeType) -> (p: PersistedEdgeType)
    ensures
        p == persisted_edge_type(t),
{
    match t {
        EdgeType::Hyperlink => PersistedEdgeType::Hyperlink,
        EdgeType::History => PersistedEdgeType::History,
    }
}

/// The edge type a persisted edge type stands for.
pub fn from_persisted_edge_type(t: PersistedEdgeType) -> (e: EdgeType)
    ensures
        e == restored_edge_type(t),
{
    match t {
        PersistedEdgeType::Hyperlink => EdgeType::Hyperlink,
        PersistedEdgeType::History => EdgeType::History,
    }
}

/// `pn` records node `n`: its identity text (which reads back as the
/// identity), URL, title, position, pin, history, thumbnail and favicon.
pub open spec fn persists_node(pn: PersistedNode, n: Node) -> bool {
    &&& pn.node_id@ == uuid_text(n.id)
    &&& uuid_parse(pn.node_id@) == Some(n.id)
    &&& pn.url@ == n.url@
    &&& pn.title@ == n.title@
    &&& pn.position_x == n.position.x
    &&& pn.position_y == n.position.y
    &&& pn.is_pinned == n.is_pinned
    &&& pn.history_entries@ == n.history_entries@
    &&& pn.history_index == n.history_index
    &&& opt_bytes_view(pn.thumbnail_png) == opt_bytes_view(n.thumbnail_png)
    &&& pn.thumbnail_width == n.thumbnail_width
    &&& pn.thumbnail_height == n.thumbnail_height
    &&& opt_bytes_view(pn.favicon_rgba) == opt_bytes_view(n.favicon_rgba)
    &&& pn.favicon_width == n.favicon_width
    &&& pn.favicon_height == n.favicon_height
}

/// `pe` records edge `e` of a graph with nodes `nodes`, by the identities
/// of its endpoints.
pub open spec fn persists_edge(pe: PersistedEdge, e: EdgeView, nodes: Map<NodeKey, Node>) -> bool {
    &&& pe.from_node_id@ == uuid_text(nodes[e.from].id)
    &&& uuid_parse(pe.from_node_id@) == Some(nodes[e.from].id)
    &&& pe.to_node_id@ == uuid_text(nodes[e.to].id)
    &&& uuid_parse(pe.to_node_id@) == Some(nodes[e.to].id)
    &&& pe.edge_type == persisted_edge_type(e.edge_type)
}

/// `keys` lists every key of `m`, once, in increasing order.
pub open spec fn is_node_key_order(keys: Seq<NodeKey>, m: Map<NodeKey, Node>) -> bool {
    &&& forall|i: int, j: int| 0 <= i < j < keys.len() ==> keys[i].index < keys[j].index
    &&& forall|i: int| 0 <= i < keys.len() ==> m.contains_key(#[trigger] keys[i])
    &&& forall|k: NodeKey| m.contains_key(k) ==> keys.contains(k)
}

/// `snap` records every node and edge of `g`, in increasing key order.
pub open spec fn is_snapshot_of(snap: GraphSnapshot, g: Graph) -> bool {
    &&& exists|keys: Seq<NodeKey>| {
        &&& #[trigger] is_node_key_order(keys, g.node_map())
        &&& keys.len() == snap.nodes@.len()
        &&& forall|i: int| 0 <= i < keys.len() ==> persists_node(#[trigger] snap.nodes@[i], g.node_map()[keys[i]])
    }
    &&& exists|keys: Seq<EdgeKey>| {
        &&& #[trigger] is_key_order(keys, g.edge_map())
        &&& keys.len() == snap.edges@.len()
        &&& forall|i: int| 0 <= i < keys.len() ==> persists_edge(#[trigger] snap.edges@[i], g.edge_map()[keys[i]], g.node_map())
    }
}

/// The record of node `n`.
pub fn persist_node(n: &Node) -> (pn: PersistedNode)
    ensures
        persists_node(pn, *n),
{
    PersistedNode {
        node_id: node_id_to_string(n.id),
        url: n.url.clone(),
        title: n.title.clone(),
        position_x: n.position.x,
        position_y: n.position.y,
        is_pinned: n.is_pinned,
        history_entries: copy_strings(&n.history_entries),
        history_index: n.history_index,
        thumbnail_png: copy_opt_bytes(&n.thumbnail_png),
        thumbnail_width: n.thumbnail_width,
        thumbnail_height: n.thumbnail_height,
        favicon_rgba: copy_opt_bytes(&n.favicon_rgba),
        favicon_width: n.favicon_width,
        favicon_height: n.favicon_height,
    }
}

impl Graph {
    /// Record the graph as a snapshot, stamped with the current Unix time.
    pub fn to_snapshot(&self) -> (snap: GraphSnapshot)
        requires
            self.wf(),
        ensures
            is_snapshot_of(snap, *self),
    {
        let nodes = self.nodes();
        let ghost keys = nodes@.map_values(|p: (NodeKey, &Node)| p.0);
        let mut pnodes: Vec<PersistedNode> = Vec::new();
        let mut i: usize = 0;
        while i < nodes.len()
            invariant
                i <= nodes@.len(),
                pnodes@.len() == i,
                keys == nodes@.map_values(|p: (NodeKey, &Node)| p.0),
                forall|j: int| 0 <= j < nodes@.len() ==> *nodes@[j].1 == self.node_map()[nodes@[j].0],
                forall|j: int| 0 <= j < i ==> persists_node(#[trigger] pnodes@[j], self.node_map()[keys[j]]),
            decreases nodes@.len() - i,
        {
            let pn = persist_node(nodes[i].1);
            pnodes.push(pn);
            i = i + 1;
        }
        proof {
            assert forall|k: NodeKey| self.node_map().contains_key(k) implies keys.contains(k) by {
                let j = choose|j: int| 0 <= j < nodes@.len() && #[trigger] nodes@[j].0 == k;
                assert(keys[j] == k);
            }
            assert(is_node_key_order(keys, self.node_map()));
        }
        let entries = self.edge_entries();
        let ghost ekeys = entries@.map_values(|p: (EdgeKey, EdgeView)| p.0);
        let mut pedges: Vec<PersistedEdge> = Vec::new();
        let mut i: usize = 0;
        while i < entries.len()
            invariant
                self.wf(),
                i <= entries@.len(),
                pedges@.len() == i,
                ekeys == entries@.map_values(|p: (EdgeKey, EdgeView)| p.0),
                forall|j: int| 0 <= j < entries@.len() ==> #[trigger] self.edge_map().contains_key(entries@[j].0)
                    && self.edge_map()[entries@[j].0] == entries@[j].1,
                forall|j: int| 0 <= j < i ==> persists_edge(#[trigger] pedges@[j], self.edge_map()[ekeys[j]], self.node_map()),
            decreases entries@.len() - i,
        {
            let edge = entries[i].1;
            assert(self.edge_map().contains_key(entries@[i as int].0));
            let from_node_id = match self.get_node(edge.from) {
                Some(n) => node_id_to_string(n.id),
                None => String::new(),
            };
            let to_node_id = match self.get_node(edge.to) {
                Some(n) => node_id_to_string(n.id),
                None => String::new(),
            };
            pedges.push(PersistedEdge { from_node_id, to_node_id, edge_type: to_persisted_edge_type(edge.edge_type) });
            i = i + 1;
        }
        proof {
            assert forall|e: EdgeKey| self.edge_map().contains_key(e) implies ekeys.contains(e) by {
                let j = choose|j: int| 0 <= j < entries@.len() && #[trigger] entries@[j].0 == e;
                assert(ekeys[j] == e);
            }
            assert forall|a: int| 0 <= a < ekeys.len() implies self.edge_map().contains_key(#[trigger] ekeys[a]) by {
                assert(ekeys[a] == entries@[a].0);
            }
            assert(is_key_order(ekeys, self.edge_map()));
        }
        let timestamp_secs = unix_time_secs();
        GraphSnapshot { nodes: pnodes, edges: pedges, timestamp_secs }
    }
}

} // verus!

verus! {

/// A node restored from record `pn` under identity `id`: created as
/// `add_node_with_id` creates nodes, then given the record's title, pin,
/// history, thumbnail and favicon.
pub open spec fn is_restored_node(n: Node, id: u128, pn: PersistedNode) -> bool {
    &&& n.id == id
    &&& n.url@ == pn.url@
    &&& n.title@ == pn.title@
    &&& n.position == (Position { x: pn.position_x, y: pn.position_y })
    &&& n.velocity == Position::spec_zero()
    &&& !n.is_selected
    &&& n.is_pinned == pn.is_pinned
    &&& n.lifecycle == NodeLifecycle::Cold
    &&& n.history_entries@ == pn.history_entries@
    &&& n.history_index == pn.history_index
    &&& opt_bytes_view(n.thumbnail_png) == opt_bytes_view(pn.thumbnail_png)
    &&& n.thumbnail_width == pn.thumbnail_width
    &&& n.thumbnail_height == pn.thumbnail_height
    &&& opt_bytes_view(n.favicon_rgba) == opt_bytes_view(pn.favicon_rgba)
    &&& n.favicon_width == pn.favicon_width
    &&& n.favicon_height == pn.favicon_height
}

impl Graph {
    /// `next` is this graph with node `key` restored from `pn` under `id`,
    /// and indexed by URL and identity.
    pub open spec fn restored_node_under(self, next: Graph, key: NodeKey, id: u128, pn: PersistedNode) -> bool {
        &&& next.wf()
        &&& !self.node_map().contains_key(key)
        &&& next.node_map() == self.node_map().insert(key, next.node_map()[key])
        &&& is_restored_node(next.node_map()[key], id, pn)
        &&& next.edge_map() == self.edge_map()
        &&& next.url_index() == self.url_index().insert(pn.url@, key)
        &&& next.id_index() == self.id_index().insert(id, key)
    }

    /// `next` is this graph after loading node record `pn`: a record whose
    /// identity reads back and is not yet indexed adds a node; any other
    /// record changes nothing.
    pub open spec fn loads_node(self, next: Graph, pn: PersistedNode) -> bool {
        match uuid_parse(pn.node_id@) {
            Some(id) => if self.id_index().contains_key(id) {
                next.wf() && self.same_contents(next)
            } else {
                exists|key: NodeKey| #[trigger] self.restored_node_under(next, key, id, pn)
            },
            None => next.wf() && self.same_contents(next),
        }
    }

    /// `next` is this graph after loading edge record `pe`: when both
    /// endpoint identities read back and are indexed, an edge between the
    /// indexed nodes is added; otherwise nothing changes.
    pub open spec fn loads_edge(self, next: Graph, pe: PersistedEdge) -> bool {
        let from = uuid_parse(pe.from_node_id@);
        let to = uuid_parse(pe.to_node_id@);
        if from is Some && to is Some && self.id_index().contains_key(from->0) && self.id_index().contains_key(to->0) {
            exists|e: EdgeKey| #[trigger] self.added_edge(next, e, EdgeView {
                from: self.id_index()[from->0],
                to: self.id_index()[to->0],
                edge_type: restored_edge_type(pe.edge_type),
            })
        } else {
            next.wf() && self.same_contents(next)
        }
    }

    /// `gs` runs from its first graph to its last by loading `pns` in turn.
    pub open spec fn node_load_trace(gs: Seq<Graph>, pns: Seq<PersistedNode>) -> bool {
        &&& gs.len() == pns.len() + 1
        &&& forall|i: int| 0 <= i < pns.len() ==> #[trigger] gs[i].loads_node(gs[i + 1], pns[i])
    }

    /// `gs` runs from its first graph to its last by loading `pes` in turn.
    pub open spec fn edge_load_trace(gs: Seq<Graph>, pes: Seq<PersistedEdge>) -> bool {
        &&& gs.len() == pes.len() + 1
        &&& forall|i: int| 0 <= i < pes.len() ==> #[trigger] gs[i].loads_edge(gs[i + 1], pes[i])
    }

    /// `g` is what loading `snap` gives: starting from an empty graph, its
    /// node records in turn, then its edge records in turn.
    pub open spec fn is_loaded_from(snap: GraphSnapshot, g: Graph) -> bool {
        exists|gs: Seq<Graph>, hs: Seq<Graph>| {
            &&& #[trigger] Graph::node_load_trace(gs, snap.nodes@)
            &&& #[trigger] Graph::edge_load_trace(hs, snap.edges@)
            &&& gs[0].is_empty_graph()
            &&& hs[0].same_contents(gs.last())
            &&& g.same_contents(hs.last())
        }
    }

    /// Load one node record.
    fn load_node(&mut self, pn: &PersistedNode)
        requires
            old(self).wf(),
            old(self).node_map().len() < u32::MAX,
        ensures
            old(self).loads_node(*final(self), *pn),
            final(self).node_map().len() <= old(self).node_map().len() + 1,
    {
        let id = match parse_node_id(pn.node_id.as_str()) {
            Some(id) => id,
            None => return,
        };
        if self.get_node_key_by_id(id).is_some() {
            return;
        }
        let key = self.add_node_with_id(id, pn.url.clone(), Position { x: pn.position_x, y: pn.position_y });
        let ghost added = *self;
        self.restore_metadata(key, pn);
        proof {
            Graph::lemma_edit_keeps_wf(&added, self, key);
            assert(self.node_map() =~= old(self).node_map().insert(key, self.node_map()[key]));
            assert(old(self).restored_node_under(*self, key, id, *pn));
        }
    }

    /// Give node `key` the title, pin, history, thumbnail and favicon of `pn`.
    fn restore_metadata(&mut self, key: NodeKey, pn: &PersistedNode)
        requires
            old(self).node_map().contains_key(key),
        ensures
            final(self).node_map() == old(self).node_map().insert(key, Node {
                title: final(self).node_map()[key].title,
                is_pinned: pn.is_pinned,
                history_entries: final(self).node_map()[key].history_entries,
                history_index: pn.history_index,
                thumbnail_png: final(self).node_map()[key].thumbnail_png,
                thumbnail_width: pn.thumbnail_width,
                thumbnail_height: pn.thumbnail_height,
                favicon_rgba: final(self).node_map()[key].favicon_rgba,
                favicon_width: pn.favicon_width,
                favicon_height: pn.favicon_height,
                ..old(self).node_map()[key]
            }),
            final(self).node_map()[key].title@ == pn.title@,
            final(self).node_map()[key].history_entries@ == pn.history_entries@,
            opt_bytes_view(final(self).node_map()[key].thumbnail_png) == opt_bytes_view(pn.thumbnail_png),
            opt_bytes_view(final(self).node_map()[key].favicon_rgba) == opt_bytes_view(pn.favicon_rgba),
            final(self).edge_map() == old(self).edge_map(),
            final(self).url_index() == old(self).url_index(),
            final(self).id_index() == old(self).id_index(),
    {
        match self.get_node_mut(key) {
            Some(node) => {
                node.title = pn.title.clone();
                node.is_pinned = pn.is_pinned;
                node.history_entries = copy_strings(&pn.history_entries);
                node.history_index = pn.history_index;
                node.thumbnail_png = copy_opt_bytes(&pn.thumbnail_png);
                node.thumbnail_width = pn.thumbnail_width;
                node.thumbnail_height = pn.thumbnail_height;
                node.favicon_rgba = copy_opt_bytes(&pn.favicon_rgba);
                node.favicon_width = pn.favicon_width;
                node.favicon_height = pn.favicon_height;
            },
            None => {},
        }
    }

    /// Load one edge record.
    fn load_edge(&mut self, pe: &PersistedEdge)
        requires
            old(self).wf(),
            old(self).edge_map().len() < u32::MAX,
        ensures
            old(self).loads_edge(*final(self), *pe),
            final(self).edge_map().len() <= old(self).edge_map().len() + 1,
    {
        let from = parse_node_id(pe.from_node_id.as_str());
        let to = parse_node_id(pe.to_node_id.as_str());
        match (from, to) {
            (Some(f), Some(t)) => match (self.get_node_key_by_id(f), self.get_node_key_by_id(t)) {
                (Some(a), Some(b)) => {
                    let edge = self.add_edge(a, b, from_persisted_edge_type(pe.edge_type));
                    assert(old(self).added_edge(*self, edge->0, EdgeView { from: a, to: b, edge_type: restored_edge_type(pe.edge_type) }));
                },
                _ => {},
            },
            _ => {},
        }
    }

    /// Rebuild a graph from a persisted snapshot: node records whose
    /// identity reads back are restored (the first record wins for a
    /// repeated identity), then each edge record whose endpoints were
    /// restored becomes an edge.
    pub fn from_snapshot(snapshot: &GraphSnapshot) -> (g: Graph)
        requires
            snapshot.nodes@.len() < u32::MAX,
            snapshot.edges@.len() < u32::MAX,
        ensures
            g.wf(),
            Graph::is_loaded_from(*snapshot, g),
            g.node_map().len() <= snapshot.nodes@.len(),
            g.edge_map().len() <= snapshot.edges@.len(),
    {
        let mut graph = Graph::new();
        let ghost mut gs: Seq<Graph> = seq![graph];
        let mut i: usize = 0;
        while i < snapshot.nodes.len()
            invariant
                i <= snapshot.nodes@.len(),
                snapshot.nodes@.len() < u32::MAX,
                graph.wf(),
                graph.node_map().len() <= i,
                graph.edge_map() == Map::<EdgeKey, EdgeView>::empty(),
                Graph::node_load_trace(gs, snapshot.nodes@.take(i as int)),
                gs[0].is_empty_graph(),
                gs.last() == graph,
            decreases snapshot.nodes@.len() - i,
        {
            graph.load_node(&snapshot.nodes[i]);
            proof {
                let prev = gs;
                gs = gs.push(graph);
                assert forall|j: int| 0 <= j < i + 1 implies #[trigger] gs[j].loads_node(gs[j + 1], snapshot.nodes@.take(i + 1)[j]) by {
                    if j < i {
                        assert(prev[j].loads_node(prev[j + 1], snapshot.nodes@.take(i as int)[j]));
                    }
                }
            }
            i = i + 1;
        }
        let ghost mut hs: Seq<Graph> = seq![graph];
        let mut i: usize = 0;
        while i < snapshot.edges.len()
            invariant
                i <= snapshot.edges@.len(),
                snapshot.edges@.len() < u32::MAX,
                graph.wf(),
                graph.edge_map().len() <= i,
                graph.node_map().len() <= snapshot.nodes@.len(),
                Graph::edge_load_trace(hs, snapshot.edges@.take(i as int)),
                hs[0] == gs.last(),
                hs.last() == graph,
            decreases snapshot.edges@.len() - i,
        {
            graph.load_edge(&snapshot.edges[i]);
            proof {
                let prev = hs;
                hs = hs.push(graph);
                assert forall|j: int| 0 <= j < i + 1 implies #[trigger] hs[j].loads_edge(hs[j + 1], snapshot.edges@.take(i + 1)[j]) by {
                    if j < i {
                        assert(prev[j].loads_edge(prev[j + 1], snapshot.edges@.take(i as int)[j]));
                    }
                }
            }
            i = i + 1;
        }
        proof {
            assert(snapshot.nodes@.take(snapshot.nodes@.len() as int) =~= snapshot.nodes@);
            assert(snapshot.edges@.take(snapshot.edges@.len() as int) =~= snapshot.edges@);
            assert(Graph::node_load_trace(gs, snapshot.nodes@));
            assert(Graph::edge_load_trace(hs, snapshot.edges@));
            assert(gs[0].is_empty_graph());
            assert(hs[0].same_contents(gs.last()));
            assert(graph.same_contents(hs.last()));
        }
        graph
    }
}

} // verus!

verus! {

/// Two nodes show the same page: same identity, URL, title, position, pin,
/// history, thumbnail and favicon.
pub open spec fn same_page(a: Node, b: Node) -> bool {
    &&& a.id == b.id
    &&& a.url@ == b.url@
    &&& a.title@ == b.title@
    &&& a.position == b.position
    &&& a.is_pinned == b.is_pinned
    &&& a.history_entries@ == b.history_entries@
    &&& a.history_index == b.history_index
    &&& opt_bytes_view(a.thumbnail_png) == opt_bytes_view(b.thumbnail_png)
    &&& a.thumbnail_width == b.thumbnail_width
    &&& a.thumbnail_height == b.thumbnail_height
    &&& opt_bytes_view(a.favicon_rgba) == opt_bytes_view(b.favicon_rgba)
    &&& a.favicon_width == b.favicon_width
    &&& a.favicon_height == b.favicon_height
}

/// No two nodes of `g` share an identity.
pub open spec fn distinct_ids(g: Graph) -> bool {
    forall|a: NodeKey, b: NodeKey| #![trigger g.node_map()[a], g.node_map()[b]]
        g.node_map().contains_key(a) && g.node_map().contains_key(b) && a != b ==> g.node_map()[a].id != g.node_map()[b].id
}

pub(crate) proof fn lemma_node_trace(gs: Seq<Graph>, pns: Seq<PersistedNode>, ids: Seq<u128>, i: int)
    requires
        Graph::node_load_trace(gs, pns),
        gs[0].is_empty_graph(),
        0 <= i <= pns.len(),
        ids.len() == pns.len(),
        forall|j: int| 0 <= j < pns.len() ==> uuid_parse(#[trigger] pns[j].node_id@) == Some(ids[j]),
        forall|a: int, b: int| 0 <= a < b < ids.len() ==> ids[a] != ids[b],
    ensures
        gs[i].wf(),
        forall|j: int| 0 <= j < i ==> #[trigger] gs[i].id_index().contains_key(ids[j])
            && is_restored_node(gs[i].node_map()[gs[i].id_index()[ids[j]]], ids[j], pns[j]),
        forall|id: u128| #[trigger] gs[i].id_index().contains_key(id) ==> exists|j: int| 0 <= j < i && ids[j] == id,
    decreases i,
{
    if i > 0 {
        lemma_node_trace(gs, pns, ids, i - 1);
        let h = i - 1;
        assert(gs[h].loads_node(gs[h + 1], pns[h]));
        let prev = gs[i - 1];
        let next = gs[i];
        let pn = pns[i - 1];
        let id = ids[i - 1];
        assert(uuid_parse(pn.node_id@) == Some(id));
        assert(!prev.id_index().contains_key(id)) by {
            if prev.id_index().contains_key(id) {
                let j = choose|j: int| 0 <= j < i - 1 && ids[j] == id;
            }
        }
        let key = choose|key: NodeKey| #[trigger] prev.restored_node_under(next, key, id, pn);
        assert forall|j: int| 0 <= j < i implies #[trigger] next.id_index().contains_key(ids[j])
            && is_restored_node(next.node_map()[next.id_index()[ids[j]]], ids[j], pns[j]) by {
            if j < i - 1 {
                assert(prev.id_index().contains_key(ids[j]));
                assert(ids[j] != id);
                let old_key = prev.id_index()[ids[j]];
                assert(prev.node_map().contains_key(old_key));
                assert(old_key != key);
            }
        }
        assert forall|x: u128| #[trigger] next.id_index().contains_key(x) implies exists|j: int| 0 <= j < i && ids[j] == x by {
            if x != id {
                assert(prev.id_index().contains_key(x));
                let j = choose|j: int| 0 <= j < i - 1 && ids[j] == x;
            } else {
                assert(ids[i - 1] == x);
            }
        }
    }
}

pub(crate) proof fn lemma_edge_trace_keeps_nodes(hs: Seq<Graph>, pes: Seq<PersistedEdge>, i: int)
    requires
        Graph::edge_load_trace(hs, pes),
        0 <= i <= pes.len(),
    ensures
        hs[i].node_map() == hs[0].node_map(),
        hs[i].id_index() == hs[0].id_index(),
    decreases i,
{
    if i > 0 {
        lemma_edge_trace_keeps_nodes(hs, pes, i - 1);
        let h = i - 1;
        assert(hs[h].loads_edge(hs[h + 1], pes[h]));
        let pe = pes[i - 1];
        let g = hs[i - 1];
        let from = uuid_parse(pe.from_node_id@);
        let to = uuid_parse(pe.to_node_id@);
        if from is Some && to is Some && g.id_index().contains_key(from->0) && g.id_index().contains_key(to->0) {
            let e = choose|e: EdgeKey| #[trigger] g.added_edge(hs[i], e, EdgeView {
                from: g.id_index()[from->0],
                to: g.id_index()[to->0],
                edge_type: restored_edge_type(pe.edge_type),
            });
        }
    }
}

/// Loading a graph's snapshot gives back every page of the graph: for each
/// node, the loaded graph indexes its identity, under a node that shows the
/// same page. This holds when the graph's nodes have distinct identities.
pub proof fn lemma_snapshot_round_trip(g: Graph, snap: GraphSnapshot, loaded: Graph)
    requires
        g.wf(),
        distinct_ids(g),
        is_snapshot_of(snap, g),
        Graph::is_loaded_from(snap, loaded),
    ensures
        forall|k: NodeKey| #[trigger] g.node_map().contains_key(k) ==> {
            &&& loaded.id_index().contains_key(g.node_map()[k].id)
            &&& same_page(loaded.node_map()[loaded.id_index()[g.node_map()[k].id]], g.node_map()[k])
        },
{
    let keys = choose|keys: Seq<NodeKey>| {
        &&& #[trigger] is_node_key_order(keys, g.node_map())
        &&& keys.len() == snap.nodes@.len()
        &&& forall|i: int| 0 <= i < keys.len() ==> persists_node(#[trigger] snap.nodes@[i], g.node_map()[keys[i]])
    };
    let (gs, hs) = choose|gs: Seq<Graph>, hs: Seq<Graph>| {
        &&& #[trigger] Graph::node_load_trace(gs, snap.nodes@)
        &&& #[trigger] Graph::edge_load_trace(hs, snap.edges@)
        &&& gs[0].is_empty_graph()
        &&& hs[0].same_contents(gs.last())
        &&& loaded.same_contents(hs.last())
    };
    let pns = snap.nodes@;
    let ids = Seq::new(keys.len(), |j: int| g.node_map()[keys[j]].id);
    assert forall|j: int| 0 <= j < pns.len() implies uuid_parse(#[trigger] pns[j].node_id@) == Some(ids[j]) by {
        assert(persists_node(pns[j], g.node_map()[keys[j]]));
    }
    assert forall|a: int, b: int| 0 <= a < b < ids.len() implies ids[a] != ids[b] by {
        assert(keys[a].index < keys[b].index);
        assert(g.node_map().contains_key(keys[a]));
        assert(g.node_map().contains_key(keys[b]));
        assert(g.node_map()[keys[a]].id != g.node_map()[keys[b]].id);
    }
    lemma_node_trace(gs, pns, ids, pns.len() as int);
    lemma_edge_trace_keeps_nodes(hs, snap.edges@, snap.edges@.len() as int);
    assert forall|k: NodeKey| #[trigger] g.node_map().contains_key(k) implies {
        &&& loaded.id_index().contains_key(g.node_map()[k].id)
        &&& same_page(loaded.node_map()[loaded.id_index()[g.node_map()[k].id]], g.node_map()[k])
    } by {
        assert(keys.contains(k));
        let j = choose|j: int| 0 <= j < keys.len() && keys[j] == k;
        assert(ids[j] == g.node_map()[k].id);
        assert(gs.last().id_index().contains_key(ids[j]));
        assert(persists_node(pns[j], g.node_map()[keys[j]]));
    }
}

} // verus!

verus! {

/// `g` has an edge between the nodes indexed under `from` and `to`, of type
/// `t`.
pub open spec fn has_identity_edge(g: Graph, from: u128, to: u128, t: EdgeType) -> bool {
    exists|e: EdgeKey| #[trigger] g.edge_map().contains_key(e) && g.edge_map()[e] == (EdgeView {
        from: g.id_index()[from],
        to: g.id_index()[to],
        edge_type: t,
    })
}

proof fn lemma_edge_trace(hs: Seq<Graph>, pes: Seq<PersistedEdge>, i: int)
    requires
        Graph::edge_load_trace(hs, pes),
        0 <= i <= pes.len(),
        forall|j: int| 0 <= j < pes.len() ==> {
            &&& uuid_parse(#[trigger] pes[j].from_node_id@) is Some
            &&& uuid_parse(pes[j].to_node_id@) is Some
            &&& hs[0].id_index().contains_key(uuid_parse(pes[j].from_node_id@)->0)
            &&& hs[0].id_index().contains_key(uuid_parse(pes[j].to_node_id@)->0)
        },
    ensures
        forall|j: int| 0 <= j < i ==> has_identity_edge(hs[i], uuid_parse(#[trigger] pes[j].from_node_id@)->0,
            uuid_parse(pes[j].to_node_id@)->0, restored_edge_type(pes[j].edge_type)),
    decreases i,
{
    if i > 0 {
        lemma_edge_trace(hs, pes, i - 1);
        lemma_edge_trace_keeps_nodes(hs, pes, i - 1);
        lemma_edge_trace_keeps_nodes(hs, pes, i);
        let h = i - 1;
        assert(hs[h].loads_edge(hs[h + 1], pes[h]));
        let g = hs[h];
        let pe = pes[h];
        let from = uuid_parse(pe.from_node_id@)->0;
        let to = uuid_parse(pe.to_node_id@)->0;
        let view = EdgeView { from: g.id_index()[from], to: g.id_index()[to], edge_type: restored_edge_type(pe.edge_type) };
        let e = choose|e: EdgeKey| #[trigger] g.added_edge(hs[i], e, view);
        assert forall|j: int| 0 <= j < i implies has_identity_edge(hs[i], uuid_parse(#[trigger] pes[j].from_node_id@)->0,
            uuid_parse(pes[j].to_node_id@)->0, restored_edge_type(pes[j].edge_type)) by {
            if j < h {
                let f = uuid_parse(pes[j].from_node_id@)->0;
                let t = uuid_parse(pes[j].to_node_id@)->0;
                assert(has_identity_edge(g, f, t, restored_edge_type(pes[j].edge_type)));
                let old_e = choose|old_e: EdgeKey| #[trigger] g.edge_map().contains_key(old_e) && g.edge_map()[old_e] == (EdgeView {
                    from: g.id_index()[f],
                    to: g.id_index()[t],
                    edge_type: restored_edge_type(pes[j].edge_type),
                });
                assert(hs[i].edge_map().contains_key(old_e));
            } else {
                assert(hs[i].edge_map().contains_key(e));
            }
        }
    }
}

/// Loading a graph's snapshot gives back every edge of the graph: for
/// each edge, the loaded graph has an edge of the same type between the
/// nodes indexed under the identities of its endpoints. This holds when the
/// graph's nodes have distinct identities.
pub proof fn lemma_snapshot_round_trip_edges(g: Graph, snap: GraphSnapshot, loaded: Graph)
    requires
        g.wf(),
        distinct_ids(g),
        is_snapshot_of(snap, g),
        Graph::is_loaded_from(snap, loaded),
    ensures
        forall|e: EdgeKey| #[trigger] g.edge_map().contains_key(e) ==> has_identity_edge(
            loaded,
            g.node_map()[g.edge_map()[e].from].id,
            g.node_map()[g.edge_map()[e].to].id,
            g.edge_map()[e].edge_type,
        ),
{
    lemma_snapshot_round_trip(g, snap, loaded);
    let ekeys = choose|keys: Seq<EdgeKey>| {
        &&& #[trigger] is_key_order(keys, g.edge_map())
        &&& keys.len() == snap.edges@.len()
        &&& forall|i: int| 0 <= i < keys.len() ==> persists_edge(#[trigger] snap.edges@[i], g.edge_map()[keys[i]], g.node_map())
    };
    let (gs, hs) = choose|gs: Seq<Graph>, hs: Seq<Graph>| {
        &&& #[trigger] Graph::node_load_trace(gs, snap.nodes@)
        &&& #[trigger] Graph::edge_load_trace(hs, snap.edges@)
        &&& gs[0].is_empty_graph()
        &&& hs[0].same_contents(gs.last())
        &&& loaded.same_contents(hs.last())
    };
    let pes = snap.edges@;
    assert forall|j: int| 0 <= j < pes.len() implies {
        &&& uuid_parse(#[trigger] pes[j].from_node_id@) is Some
        &&& uuid_parse(pes[j].to_node_id@) is Some
        &&& hs[0].id_index().contains_key(uuid_parse(pes[j].from_node_id@)->0)
        &&& hs[0].id_index().contains_key(uuid_parse(pes[j].to_node_id@)->0)
    } by {
        let ed = g.edge_map()[ekeys[j]];
        assert(persists_edge(pes[j], ed, g.node_map()));
        assert(g.edge_map().contains_key(ekeys[j]));
        assert(g.node_map().contains_key(ed.from));
        assert(g.node_map().contains_key(ed.to));
        lemma_edge_trace_keeps_nodes(hs, pes, pes.len() as int);
    }
    lemma_edge_trace(hs, pes, pes.len() as int);
    lemma_edge_trace_keeps_nodes(hs, pes, pes.len() as int);
    assert forall|e: EdgeKey| #[trigger] g.edge_map().contains_key(e) implies has_identity_edge(
        loaded,
        g.node_map()[g.edge_map()[e].from].id,
        g.node_map()[g.edge_map()[e].to].id,
        g.edge_map()[e].edge_type,
    ) by {
        assert(ekeys.contains(e));
        let j = choose|j: int| 0 <= j < ekeys.len() && ekeys[j] == e;
        assert(persists_edge(pes[j], g.edge_map()[ekeys[j]], g.node_map()));
        let t = g.edge_map()[e].edge_type;
        assert(restored_edge_type(persisted_edge_type(t)) == t);
        let f = uuid_parse(pes[j].from_node_id@)->0;
        let to = uuid_parse(pes[j].to_node_id@)->0;
        assert(has_identity_edge(hs.last(), f, to, t));
        let w = choose|w: EdgeKey| #[trigger] hs.last().edge_map().contains_key(w) && hs.last().edge_map()[w] == (EdgeView {
            from: hs.last().id_index()[f],
            to: hs.last().id_index()[to],
            edge_type: t,
        });
        assert(loaded.edge_map().contains_key(w));
    }
}

} // verus!
