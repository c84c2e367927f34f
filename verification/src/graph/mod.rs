//! Graph data structures for the spatial browser.
//!
//! - `Graph`: the page graph, stored in petgraph's `StableGraph` with an
//!   index from URL and from node identity to node key
//! - `Node`: a web page with its position and metadata
//! - `EdgeType`: why two pages are connected (hyperlink, history)

pub mod clock;
pub mod node_id;
pub mod persistence;
pub mod snapshot;
pub mod stable_graph;

use std::collections::HashMap;
use std::time::SystemTime;
use vstd::hash_map::StringHashMap;
use vstd::prelude::*;

use self::node_id::new_node_id;
use self::stable_graph::{
    edges_not_touching, incident_edges, lists_far_ends, store_add_edge, store_add_node, store_contains_node, store_edge_count,
    store_edge_list, store_find_edge, store_neighbors, store_new, store_node_count, store_node_keys,
    store_node_weight, store_node_weight_mut, store_nodes, store_edges, store_remove_node, NodeStore,
};

verus! {

broadcast use vstd::std_specs::hash::group_hash_axioms;

/// Stable node handle: the petgraph node index, which survives the removal
/// of other nodes.
#[derive(Clone, Copy, Debug, PartialEq, Eq, Hash, PartialOrd, Ord, Structural)]
pub struct NodeKey {
    pub index: u32,
}

impl NodeKey {
    /// The key with the given index (truncated to 32 bits, as petgraph does).
    pub fn new(index: usize) -> (k: NodeKey)
        ensures
            k.index == index as u32,
    {
        NodeKey { index: index as u32 }
    }

    /// The index of this key.
    pub fn index(&self) -> (i: usize)
        ensures
            i == self.index,
    {
        self.index as usize
    }
}

/// Stable edge handle: the petgraph edge index.
#[derive(Clone, Copy, Debug, PartialEq, Eq, Hash, PartialOrd, Ord, Structural)]
pub struct EdgeKey {
    pub index: u32,
}

/// A point in graph space. Each coordinate is the IEEE-754 bit pattern of
/// an `f32`; the library only stores and copies coordinates.
#[derive(Clone, Copy, Debug, PartialEq, Eq, Structural)]
pub struct Position {
    pub x: u32,
    pub y: u32,
}

impl Position {
    /// The origin (both coordinates `+0.0`).
    pub open spec fn spec_zero() -> Position {
        Position { x: 0, y: 0 }
    }

    /// The origin (both coordinates `+0.0`).
    pub fn zero() -> (p: Position)
        ensures
            p == Position::spec_zero(),
    {
        Position { x: 0, y: 0 }
    }
}

/// Where new nodes go when nothing else places them: (400.0, 300.0).
pub open spec fn spec_default_position() -> Position {
    Position { x: 0x43c8_0000, y: 0x4396_0000 }
}

/// Where new nodes go when nothing else places them: (400.0, 300.0).
pub fn default_position() -> (p: Position)
    ensures
        p == spec_default_position(),
{
    Position { x: 0x43c8_0000, y: 0x4396_0000 }
}

/// Lifecycle state for webview management
#[derive(Clone, Copy, Debug, PartialEq, Eq, Structural)]
pub enum NodeLifecycle {
    /// Active webview (visible, rendering)
    Active,
    /// Cold (metadata only, no process)
    Cold,
}

/// Type of edge connection
#[derive(Clone, Copy, Debug, PartialEq, Eq, Structural)]
pub enum EdgeType {
    /// Hyperlink from one page to another
    Hyperlink,
    /// Browser history traversal
    History,
}

/// Read-only view of an edge.
#[derive(Clone, Copy, Debug, PartialEq, Eq, Structural)]
pub struct EdgeView {
    pub from: NodeKey,
    pub to: NodeKey,
    pub edge_type: EdgeType,
}

/// A webpage node in the graph
#[derive(Clone, Debug)]
pub struct Node {
    /// Stable identity (a UUID), kept across sessions by persistence.
    pub id: u128,
    /// Full URL of the webpage
    pub url: String,
    /// Page title (or URL if no title)
    pub title: String,
    /// Position in graph space
    pub position: Position,
    /// Velocity for physics simulation
    pub velocity: Position,
    /// Whether this node is currently selected
    pub is_selected: bool,
    /// Whether this node's position is pinned (doesn't move with physics)
    pub is_pinned: bool,
    /// Timestamp of last visit
    pub last_visited: SystemTime,
    /// Webview lifecycle state
    pub lifecycle: NodeLifecycle,
    /// Session history of the node's webview.
    pub history_entries: Vec<String>,
    /// Current entry in `history_entries`.
    pub history_index: usize,
    /// Page thumbnail as PNG bytes.
    pub thumbnail_png: Option<Vec<u8>>,
    pub thumbnail_width: u32,
    pub thumbnail_height: u32,
    /// Favicon as RGBA pixels.
    pub favicon_rgba: Option<Vec<u8>>,
    pub favicon_width: u32,
    pub favicon_height: u32,
}

/// A node as `add_node` creates it: titled with its URL, at rest, unpinned,
/// unselected, cold, with no history, thumbnail or favicon. Its visit time
/// is the clock reading at creation.
pub open spec fn is_new_node(n: Node, id: u128, url: Seq<char>, position: Position) -> bool {
    &&& n.id == id
    &&& n.url@ == url
    &&& n.title@ == url
    &&& n.position == position
    &&& n.velocity == Position::spec_zero()
    &&& !n.is_selected
    &&& !n.is_pinned
    &&& n.lifecycle == NodeLifecycle::Cold
    &&& n.history_entries@.len() == 0
    &&& n.history_index == 0
    &&& n.thumbnail_png is None
    &&& n.thumbnail_width == 0
    &&& n.thumbnail_height == 0
    &&& n.favicon_rgba is None
    &&& n.favicon_width == 0
    &&& n.favicon_height == 0
}

/// Some edge of `m` goes from `from` to `to`.
pub open spec fn has_edge(m: Map<EdgeKey, EdgeView>, from: NodeKey, to: NodeKey) -> bool {
    exists|e: EdgeKey| #[trigger] m.contains_key(e) && m[e].from == from && m[e].to == to
}

/// `keys` lists every key of `m`, once, in increasing order.
pub open spec fn is_key_order(keys: Seq<EdgeKey>, m: Map<EdgeKey, EdgeView>) -> bool {
    &&& forall|i: int, j: int| 0 <= i < j < keys.len() ==> keys[i].index < keys[j].index
    &&& forall|i: int| 0 <= i < keys.len() ==> m.contains_key(#[trigger] keys[i])
    &&& forall|e: EdgeKey| m.contains_key(e) ==> keys.contains(e)
}

/// `all` holds the edges of `m` in increasing key order.
pub open spec fn lists_edges_in_order(all: Seq<EdgeView>, m: Map<EdgeKey, EdgeView>) -> bool {
    exists|keys: Seq<EdgeKey>| {
        &&& #[trigger] is_key_order(keys, m)
        &&& keys.len() == all.len()
        &&& forall|i: int| 0 <= i < keys.len() ==> m[keys[i]] == #[trigger] all[i]
    }
}

/// Main graph structure backed by petgraph's `StableGraph`.
pub struct Graph {
    inner: NodeStore,
    /// URL to node key, for lookup by URL.
    url_to_node: StringHashMap<NodeKey>,
    /// Node identity to node key, for lookup by identity.
    id_to_node: HashMap<u128, NodeKey>,
}

impl Graph {
    /// The nodes, by key.
    pub closed spec fn node_map(&self) -> Map<NodeKey, Node> {
        store_nodes(self.inner)
    }

    /// The edges, by key.
    pub closed spec fn edge_map(&self) -> Map<EdgeKey, EdgeView> {
        store_edges(self.inner)
    }

    /// The URL index: URL text to node key.
    pub closed spec fn url_index(&self) -> Map<Seq<char>, NodeKey> {
        self.url_to_node@
    }

    /// The identity index: node identity to node key.
    pub closed spec fn id_index(&self) -> Map<u128, NodeKey> {
        self.id_to_node@
    }

    /// Well-formedness: finite contents, edges between present nodes, and
    /// both indexes pointing at present nodes that carry the indexed URL or
    /// identity.
    pub open spec fn wf(&self) -> bool {
        &&& self.node_map().dom().finite()
        &&& self.edge_map().dom().finite()
        &&& forall|e: EdgeKey| #[trigger] self.edge_map().contains_key(e) ==> {
            &&& self.node_map().contains_key(self.edge_map()[e].from)
            &&& self.node_map().contains_key(self.edge_map()[e].to)
        }
        &&& forall|u: Seq<char>| #[trigger] self.url_index().contains_key(u) ==> {
            &&& self.node_map().contains_key(self.url_index()[u])
            &&& self.node_map()[self.url_index()[u]].url@ == u
        }
        &&& forall|i: u128| #[trigger] self.id_index().contains_key(i) ==> {
            &&& self.node_map().contains_key(self.id_index()[i])
            &&& self.node_map()[self.id_index()[i]].id == i
        }
    }

    /// Create a new empty graph
    pub fn new() -> (g: Graph)
        ensures
            g.wf(),
            g.node_map() == Map::<NodeKey, Node>::empty(),
            g.edge_map() == Map::<EdgeKey, EdgeView>::empty(),
            g.url_index() == Map::<Seq<char>, NodeKey>::empty(),
            g.id_index() == Map::<u128, NodeKey>::empty(),
    {
        Graph { inner: store_new(), url_to_node: StringHashMap::new(), id_to_node: HashMap::new() }
    }

    /// Add a new node with a fresh random identity.
    pub fn add_node(&mut self, url: String, position: Position) -> (key: NodeKey)
        requires
            old(self).wf(),
            old(self).node_map().len() < u32::MAX,
        ensures
            final(self).wf(),
            !old(self).node_map().contains_key(key),
            final(self).node_map() == old(self).node_map().insert(key, final(self).node_map()[key]),
            is_new_node(final(self).node_map()[key], final(self).node_map()[key].id, url@, position),
            final(self).edge_map() == old(self).edge_map(),
            final(self).url_index() == old(self).url_index().insert(url@, key),
            final(self).id_index() == old(self).id_index().insert(final(self).node_map()[key].id, key),
    {
        let id = new_node_id();
        self.add_node_with_id(id, url, position)
    }

    /// Add a new node with the given identity.
    pub fn add_node_with_id(&mut self, id: u128, url: String, position: Position) -> (key: NodeKey)
        requires
            old(self).wf(),
            old(self).node_map().len() < u32::MAX,
        ensures
            final(self).wf(),
            !old(self).node_map().contains_key(key),
            final(self).node_map() == old(self).node_map().insert(key, final(self).node_map()[key]),
            is_new_node(final(self).node_map()[key], id, url@, position),
            final(self).edge_map() == old(self).edge_map(),
            final(self).url_index() == old(self).url_index().insert(url@, key),
            final(self).id_index() == old(self).id_index().insert(id, key),
    {
        let now = SystemTime::now();
        let title = url.clone();
        let index_url = url.clone();
        let node = Node {
            id,
            url,
            title,
            position,
            velocity: Position::zero(),
            is_selected: false,
            is_pinned: false,
            last_visited: now,
            lifecycle: NodeLifecycle::Cold,
            history_entries: Vec::new(),
            history_index: 0,
            thumbnail_png: None,
            thumbnail_width: 0,
            thumbnail_height: 0,
            favicon_rgba: None,
            favicon_width: 0,
            favicon_height: 0,
        };
        let ghost added = node;
        let key = store_add_node(&mut self.inner, node);
        self.url_to_node.insert(index_url, key);
        self.id_to_node.insert(id, key);
        assert(self.node_map()[key] == added);
        assert(self.node_map() =~= old(self).node_map().insert(key, self.node_map()[key]));
        key
    }

    /// Remove a node and all its connected edges
    pub fn remove_node(&mut self, key: NodeKey) -> (removed: bool)
        requires
            old(self).wf(),
        ensures
            final(self).wf(),
            removed == old(self).node_map().contains_key(key),
            removed ==> {
                &&& final(self).node_map() == old(self).node_map().remove(key)
                &&& final(self).edge_map() == edges_not_touching(old(self).edge_map(), key)
                &&& final(self).url_index() == old(self).url_index().remove(old(self).node_map()[key].url@)
                &&& final(self).id_index() == old(self).id_index().remove(old(self).node_map()[key].id)
            },
            !removed ==> {
                &&& final(self).node_map() == old(self).node_map()
                &&& final(self).edge_map() == old(self).edge_map()
                &&& final(self).url_index() == old(self).url_index()
                &&& final(self).id_index() == old(self).id_index()
            },
    {
        match store_remove_node(&mut self.inner, key) {
            Some(node) => {
                self.url_to_node.remove(node.url.as_str());
                self.id_to_node.remove(&node.id);
                proof {
                    let em = old(self).edge_map();
                    let kept = em.dom().filter(|e: EdgeKey| em[e].from != key && em[e].to != key);
                    assert(edges_not_touching(em, key).dom() =~= em.dom().intersect(kept));
                }
                true
            },
            None => false,
        }
    }

    /// Update a node's URL, maintaining the URL index.
    /// Returns the old URL, or None if the node doesn't exist.
    pub fn update_node_url(&mut self, key: NodeKey, new_url: String) -> (old_url: Option<String>)
        requires
            old(self).wf(),
        ensures
            final(self).wf(),
            old(self).node_map().contains_key(key) ==> {
                let n = old(self).node_map()[key];
                &&& old_url is Some
                &&& old_url->0@ == n.url@
                &&& final(self).node_map().contains_key(key)
                &&& final(self).node_map() == old(self).node_map().insert(key, final(self).node_map()[key])
                &&& final(self).node_map()[key] == (Node { url: new_url, ..n })
                &&& final(self).edge_map() == old(self).edge_map()
                &&& final(self).url_index() == old(self).url_index().remove(n.url@).insert(new_url@, key)
                &&& final(self).id_index() == old(self).id_index()
            },
            !old(self).node_map().contains_key(key) ==> {
                &&& old_url is None
                &&& final(self).node_map() == old(self).node_map()
                &&& final(self).edge_map() == old(self).edge_map()
                &&& final(self).url_index() == old(self).url_index()
                &&& final(self).id_index() == old(self).id_index()
            },
    {
        let index_url = new_url.clone();
        match store_node_weight_mut(&mut self.inner, key) {
            Some(node) => {
                let previous = node.url.clone();
                node.url = new_url;
                self.url_to_node.remove(previous.as_str());
                self.url_to_node.insert(index_url, key);
                Some(previous)
            },
            None => None,
        }
    }

    /// Add an edge between two nodes; `None` when either node is missing.
    pub fn add_edge(&mut self, from: NodeKey, to: NodeKey, edge_type: EdgeType) -> (edge: Option<EdgeKey>)
        requires
            old(self).wf(),
            old(self).edge_map().len() < u32::MAX,
        ensures
            final(self).wf(),
            final(self).node_map() == old(self).node_map(),
            final(self).url_index() == old(self).url_index(),
            final(self).id_index() == old(self).id_index(),
            (old(self).node_map().contains_key(from) && old(self).node_map().contains_key(to)) ==> {
                &&& edge is Some
                &&& !old(self).edge_map().contains_key(edge->0)
                &&& final(self).edge_map() == old(self).edge_map().insert(edge->0, EdgeView { from, to, edge_type })
            },
            !(old(self).node_map().contains_key(from) && old(self).node_map().contains_key(to)) ==> {
                &&& edge is None
                &&& final(self).edge_map() == old(self).edge_map()
            },
    {
        if !store_contains_node(&self.inner, from) || !store_contains_node(&self.inner, to) {
            return None;
        }
        Some(store_add_edge(&mut self.inner, from, to, edge_type))
    }

    /// Get a node by key
    pub fn get_node(&self, key: NodeKey) -> (node: Option<&Node>)
        ensures
            match node {
                Some(n) => self.node_map().contains_key(key) && *n == self.node_map()[key],
                None => !self.node_map().contains_key(key),
            },
    {
        store_node_weight(&self.inner, key)
    }

    /// Whether the graph holds a node under `key`.
    pub fn contains_node(&self, key: NodeKey) -> (present: bool)
        ensures
            present == self.node_map().contains_key(key),
    {
        store_contains_node(&self.inner, key)
    }

    /// Get a mutable node by key. Whatever is written through the borrow
    /// becomes that node; the indexes are not updated, so a caller that
    /// changes the URL or identity should use `update_node_url` instead.
    pub fn get_node_mut(&mut self, key: NodeKey) -> (node: Option<&mut Node>)
        ensures
            final(self).edge_map() == old(self).edge_map(),
            final(self).url_index() == old(self).url_index(),
            final(self).id_index() == old(self).id_index(),
            match node {
                Some(n) => {
                    &&& old(self).node_map().contains_key(key)
                    &&& *n == old(self).node_map()[key]
                    &&& final(self).node_map() == old(self).node_map().insert(key, *final(n))
                },
                None => {
                    &&& !old(self).node_map().contains_key(key)
                    &&& final(self).node_map() == old(self).node_map()
                },
            },
    {
        store_node_weight_mut(&mut self.inner, key)
    }

    /// Replacing a node by one with the same URL and identity keeps a graph
    /// well-formed.
    pub proof fn lemma_edit_keeps_wf(g1: &Graph, g2: &Graph, key: NodeKey)
        requires
            g1.wf(),
            g1.node_map().contains_key(key),
            g2.node_map() == g1.node_map().insert(key, g2.node_map()[key]),
            g2.node_map()[key].url@ == g1.node_map()[key].url@,
            g2.node_map()[key].id == g1.node_map()[key].id,
            g2.edge_map() == g1.edge_map(),
            g2.url_index() == g1.url_index(),
            g2.id_index() == g1.id_index(),
        ensures
            g2.wf(),
    {
        assert(g2.node_map().dom() =~= g1.node_map().dom());
    }

    /// Get a node and its key by URL, through the URL index.
    pub fn get_node_by_url(&self, url: &str) -> (found: Option<(NodeKey, &Node)>)
        requires
            self.wf(),
        ensures
            match found {
                Some((k, n)) => {
                    &&& self.url_index().contains_key(url@)
                    &&& k == self.url_index()[url@]
                    &&& self.node_map().contains_key(k)
                    &&& *n == self.node_map()[k]
                },
                None => !self.url_index().contains_key(url@),
            },
    {
        match self.url_to_node.get(url) {
            Some(k) => {
                let key = *k;
                match store_node_weight(&self.inner, key) {
                    Some(n) => Some((key, n)),
                    None => None,
                }
            },
            None => None,
        }
    }

    /// The key of the node with the given identity, through the identity index.
    pub fn get_node_key_by_id(&self, id: u128) -> (key: Option<NodeKey>)
        ensures
            key == (if self.id_index().contains_key(id) { Some(self.id_index()[id]) } else { None::<NodeKey> }),
    {
        match self.id_to_node.get(&id) {
            Some(k) => Some(*k),
            None => None,
        }
    }

    /// Get a node and its key by identity.
    pub fn get_node_by_id(&self, id: u128) -> (found: Option<(NodeKey, &Node)>)
        requires
            self.wf(),
        ensures
            match found {
                Some((k, n)) => {
                    &&& self.id_index().contains_key(id)
                    &&& k == self.id_index()[id]
                    &&& self.node_map().contains_key(k)
                    &&& *n == self.node_map()[k]
                    &&& n.id == id
                },
                None => !self.id_index().contains_key(id),
            },
    {
        match self.get_node_key_by_id(id) {
            Some(key) => match store_node_weight(&self.inner, key) {
                Some(n) => Some((key, n)),
                None => None,
            },
            None => None,
        }
    }

    /// All node keys, once each, in increasing order.
    pub fn node_keys(&self) -> (keys: Vec<NodeKey>)
        requires
            self.wf(),
        ensures
            keys@.len() == self.node_map().len(),
            keys@.no_duplicates(),
            forall|i: int| 0 <= i < keys@.len() ==> self.node_map().contains_key(#[trigger] keys@[i]),
            forall|k: NodeKey| self.node_map().contains_key(k) ==> keys@.contains(k),
            forall|i: int, j: int| 0 <= i < j < keys@.len() ==> keys@[i].index < keys@[j].index,
    {
        let keys = store_node_keys(&self.inner);
        proof {
            assert(keys@.no_duplicates()) by {
                assert forall|i: int, j: int| 0 <= i < keys@.len() && 0 <= j < keys@.len() && i != j implies keys@[i] != keys@[j] by {
                    if i < j {
                        assert(keys@[i].index < keys@[j].index);
                    } else {
                        assert(keys@[j].index < keys@[i].index);
                    }
                }
            }
            keys@.unique_seq_to_set();
            assert(keys@.to_set() =~= self.node_map().dom());
        }
        keys
    }

    /// All nodes as (key, node) pairs, in increasing key order.
    pub fn nodes(&self) -> (all: Vec<(NodeKey, &Node)>)
        requires
            self.wf(),
        ensures
            all@.len() == self.node_map().len(),
            forall|i: int| 0 <= i < all@.len() ==> {
                &&& self.node_map().contains_key(#[trigger] all@[i].0)
                &&& *all@[i].1 == self.node_map()[all@[i].0]
            },
            forall|k: NodeKey| self.node_map().contains_key(k) ==> exists|i: int| 0 <= i < all@.len() && #[trigger] all@[i].0 == k,
            forall|i: int, j: int| 0 <= i < j < all@.len() ==> all@[i].0.index < all@[j].0.index,
    {
        let keys = self.node_keys();
        let mut all: Vec<(NodeKey, &Node)> = Vec::new();
        let mut i: usize = 0;
        while i < keys.len()
            invariant
                self.wf(),
                i <= keys@.len(),
                all@.len() == i,
                forall|j: int| 0 <= j < keys@.len() ==> self.node_map().contains_key(#[trigger] keys@[j]),
                forall|j: int| 0 <= j < i ==> #[trigger] all@[j].0 == keys@[j] && *all@[j].1 == self.node_map()[keys@[j]],
            decreases keys@.len() - i,
        {
            let key = keys[i];
            match store_node_weight(&self.inner, key) {
                Some(n) => all.push((key, n)),
                None => {
                    assert(false);
                },
            }
            i = i + 1;
        }
        proof {
            assert forall|k: NodeKey| self.node_map().contains_key(k) implies exists|j: int| 0 <= j < all@.len() && #[trigger] all@[j].0 == k by {
                assert(keys@.contains(k));
                let j = choose|j: int| 0 <= j < keys@.len() && keys@[j] == k;
                assert(all@[j].0 == k);
            }
        }
        all
    }

    /// All edge records with their keys, in increasing key order.
    pub fn edge_entries(&self) -> (all: Vec<(EdgeKey, EdgeView)>)
        ensures
            forall|i: int| 0 <= i < all@.len() ==> self.edge_map().contains_key(#[trigger] all@[i].0)
                && self.edge_map()[all@[i].0] == all@[i].1,
            forall|e: EdgeKey| self.edge_map().contains_key(e) ==> exists|i: int| 0 <= i < all@.len() && #[trigger] all@[i].0 == e,
            forall|i: int, j: int| 0 <= i < j < all@.len() ==> all@[i].0.index < all@[j].0.index,
    {
        store_edge_list(&self.inner)
    }

    /// All edges, in increasing key order.
    pub fn edges(&self) -> (all: Vec<EdgeView>)
        ensures
            lists_edges_in_order(all@, self.edge_map()),
    {
        let entries = store_edge_list(&self.inner);
        let mut all: Vec<EdgeView> = Vec::new();
        let mut i: usize = 0;
        while i < entries.len()
            invariant
                i <= entries@.len(),
                all@.len() == i,
                forall|j: int| 0 <= j < i ==> #[trigger] all@[j] == entries@[j].1,
            decreases entries@.len() - i,
        {
            all.push(entries[i].1);
            i = i + 1;
        }
        proof {
            let keys = entries@.map_values(|p: (EdgeKey, EdgeView)| p.0);
            assert forall|e: EdgeKey| self.edge_map().contains_key(e) implies keys.contains(e) by {
                let j = choose|j: int| 0 <= j < entries@.len() && #[trigger] entries@[j].0 == e;
                assert(keys[j] == e);
            }
            assert forall|i: int| 0 <= i < keys.len() implies self.edge_map().contains_key(#[trigger] keys[i])
                && self.edge_map()[keys[i]] == all@[i] by {
                assert(keys[i] == entries@[i].0);
            }
            assert(is_key_order(keys, self.edge_map()));
        }
        all
    }

    /// Outgoing neighbor keys of a node, one per outgoing edge.
    pub fn out_neighbors(&self, key: NodeKey) -> (ns: Vec<NodeKey>)
        ensures
            ns@.len() == incident_edges(self.edge_map(), key, true).len(),
            lists_far_ends(ns@, self.edge_map(), key, true),
    {
        store_neighbors(&self.inner, key, true)
    }

    /// Incoming neighbor keys of a node, one per incoming edge.
    pub fn in_neighbors(&self, key: NodeKey) -> (ns: Vec<NodeKey>)
        ensures
            ns@.len() == incident_edges(self.edge_map(), key, false).len(),
            lists_far_ends(ns@, self.edge_map(), key, false),
    {
        store_neighbors(&self.inner, key, false)
    }

    /// Check if a directed edge exists from `from` to `to`
    pub fn has_edge_between(&self, from: NodeKey, to: NodeKey) -> (found: bool)
        ensures
            found == has_edge(self.edge_map(), from, to),
    {
        match store_find_edge(&self.inner, from, to) {
            Some(e) => {
                assert(self.edge_map().contains_key(e));
                true
            },
            None => false,
        }
    }

    /// Count of nodes in the graph
    pub fn node_count(&self) -> (n: usize)
        requires
            self.wf(),
        ensures
            n == self.node_map().len(),
    {
        store_node_count(&self.inner)
    }

    /// Count of edges in the graph
    pub fn edge_count(&self) -> (n: usize)
        requires
            self.wf(),
        ensures
            n == self.edge_map().len(),
    {
        store_edge_count(&self.inner)
    }

    /// `next` is this graph with a new node under `key`, created as
    /// `add_node` creates nodes, and indexed by URL and identity.
    pub open spec fn added_node(self, next: Graph, key: NodeKey, id: u128, url: Seq<char>, position: Position) -> bool {
        &&& next.wf()
        &&& !self.node_map().contains_key(key)
        &&& next.node_map() == self.node_map().insert(key, next.node_map()[key])
        &&& is_new_node(next.node_map()[key], id, url, position)
        &&& next.edge_map() == self.edge_map()
        &&& next.url_index() == self.url_index().insert(url, key)
        &&& next.id_index() == self.id_index().insert(id, key)
    }

    /// `next` is this graph with the node under `key` replaced by `n`, which
    /// keeps its URL and identity.
    pub open spec fn edited_node(self, next: Graph, key: NodeKey, n: Node) -> bool {
        &&& next.wf()
        &&& self.node_map().contains_key(key)
        &&& n.url@ == self.node_map()[key].url@
        &&& n.id == self.node_map()[key].id
        &&& next.node_map() == self.node_map().insert(key, n)
        &&& next.edge_map() == self.edge_map()
        &&& next.url_index() == self.url_index()
        &&& next.id_index() == self.id_index()
    }

    /// `next` is this graph without the node under `key` and its edges.
    pub open spec fn removed_node(self, next: Graph, key: NodeKey) -> bool {
        &&& next.wf()
        &&& self.node_map().contains_key(key)
        &&& next.node_map() == self.node_map().remove(key)
        &&& next.edge_map() == edges_not_touching(self.edge_map(), key)
        &&& next.url_index() == self.url_index().remove(self.node_map()[key].url@)
        &&& next.id_index() == self.id_index().remove(self.node_map()[key].id)
    }

    /// `next` is this graph with the node under `key` moved to `new_url`
    /// (as `update_node_url` does).
    pub open spec fn renamed_node(self, next: Graph, key: NodeKey, new_url: String) -> bool {
        &&& next.wf()
        &&& self.node_map().contains_key(key)
        &&& next.node_map() == self.node_map().insert(key, Node { url: new_url, ..self.node_map()[key] })
        &&& next.edge_map() == self.edge_map()
        &&& next.url_index() == self.url_index().remove(self.node_map()[key].url@).insert(new_url@, key)
        &&& next.id_index() == self.id_index()
    }

    /// `next` is this graph with a new edge under `e`.
    pub open spec fn added_edge(self, next: Graph, e: EdgeKey, edge: EdgeView) -> bool {
        &&& next.wf()
        &&& !self.edge_map().contains_key(e)
        &&& next.edge_map() == self.edge_map().insert(e, edge)
        &&& next.node_map() == self.node_map()
        &&& next.url_index() == self.url_index()
        &&& next.id_index() == self.id_index()
    }

    /// Both graphs hold the same nodes, edges and indexes.
    pub open spec fn same_contents(self, other: Graph) -> bool {
        &&& self.node_map() == other.node_map()
        &&& self.edge_map() == other.edge_map()
        &&& self.url_index() == other.url_index()
        &&& self.id_index() == other.id_index()
    }

    /// The graph holds nothing.
    pub open spec fn is_empty_graph(self) -> bool {
        &&& self.wf()
        &&& self.node_map() == Map::<NodeKey, Node>::empty()
        &&& self.edge_map() == Map::<EdgeKey, EdgeView>::empty()
        &&& self.url_index() == Map::<Seq<char>, NodeKey>::empty()
        &&& self.id_index() == Map::<u128, NodeKey>::empty()
    }

} // impl Graph

} // verus!

verus! {

/// Adding a node and then removing it gives back the nodes and edges the
/// graph had before.
pub proof fn lemma_add_then_remove_node(g: Graph, g1: Graph, g2: Graph, key: NodeKey, id: u128, url: Seq<char>, position: Position)
    requires
        g.wf(),
        g.added_node(g1, key, id, url, position),
        g1.removed_node(g2, key),
    ensures
        g2.node_map() == g.node_map(),
        g2.edge_map() == g.edge_map(),
{
    assert(g2.node_map() =~= g.node_map());
    assert(g2.edge_map() =~= g.edge_map()) by {
        assert forall|e: EdgeKey| g.edge_map().contains_key(e) implies g.edge_map()[e].from != key && g.edge_map()[e].to != key by {
            assert(g.node_map().contains_key(g.edge_map()[e].from));
            assert(g.node_map().contains_key(g.edge_map()[e].to));
        }
    }
}

} // verus!
