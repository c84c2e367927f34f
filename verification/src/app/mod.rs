//! Application state management for the graph browser.

pub mod intent;
pub mod determinism;
pub mod laws;
pub mod recovery;

pub use self::intent::GraphIntent;

use vstd::prelude::*;

use crate::graph::node_id::{node_id_to_string, uuid_parse, uuid_text};
use crate::graph::{Graph, EdgeKey, EdgeType, EdgeView, Node, NodeKey, NodeLifecycle, Position};
use crate::graph::snapshot::{is_snapshot_of, persisted_edge_type, to_persisted_edge_type};
use crate::keyed::KeyedMap;
use crate::persistence::{snapshot_due, validate_snapshot_interval, zero_interval_detail, DEFAULT_SNAPSHOT_INTERVAL_SECS};
use crate::persistence::types::{GraphSnapshot, LogEntry};
use crate::text::{decimal, has_prefix, parse_u32, parse_u32_spec, strip_prefix, u32_to_decimal};

verus! {

/// Identifies a browser tab (webview). The embedder hands out one number
/// per webview and keeps the mapping to its own handles.
#[derive(Clone, Copy, Debug, PartialEq, Eq, Hash, Structural)]
pub struct WebViewId {
    pub id: u64,
}

impl WebViewId {
    pub fn new(id: u64) -> (w: WebViewId)
        ensures
            w.id == id,
    {
        WebViewId { id }
    }
}

/// Work that the persistent store must carry out, in order.
pub enum StoreRequest {
    /// Append a mutation to the log.
    Log(LogEntry),
    /// Write this snapshot and clear the log.
    WriteSnapshot(GraphSnapshot),
    /// Delete the snapshot, the tile layout and the log.
    ClearAll,
}

/// Canonical node-selection state: the selected keys in the order they were
/// selected, the primary (most recently selected) key, and a revision
/// number that grows whenever the selection changes.
#[derive(Clone, Debug, PartialEq, Eq)]
pub struct SelectionState {
    nodes: Vec<NodeKey>,
    primary: Option<NodeKey>,
    revision: u64,
}

/// `r` plus one, stopping at `u64::MAX`.
pub open spec fn bumped(r: u64) -> u64 {
    if r == u64::MAX { r } else { (r + 1) as u64 }
}

impl SelectionState {
    /// No key is listed twice, and the primary key is set exactly when
    /// something is selected, and is then one of the selected keys.
    pub closed spec fn wf(&self) -> bool {
        &&& self.nodes@.no_duplicates()
        &&& (self.primary is None) == (self.nodes@.len() == 0)
        &&& self.primary is Some ==> self.nodes@.contains(self.primary->0)
    }

    /// The selected keys in the order they were selected.
    pub closed spec fn order(&self) -> Seq<NodeKey> {
        self.nodes@
    }

    /// The selected keys.
    pub open spec fn selected(&self) -> Set<NodeKey> {
        self.order().to_set()
    }

    /// The primary (most recently selected) key.
    pub closed spec fn primary_key(&self) -> Option<NodeKey> {
        self.primary
    }

    /// The revision number.
    pub closed spec fn revision_number(&self) -> u64 {
        self.revision
    }

    /// What `select` does: with `multi_select`, add `key` if it is not yet
    /// selected; otherwise make `key` the only selected key unless it
    /// already is (and is primary). Any change makes `key` primary and bumps
    /// the revision; no change keeps everything.
    pub open spec fn selected_after(self, next: Self, key: NodeKey, multi_select: bool) -> bool {
        let changes = if multi_select {
            !self.selected().contains(key)
        } else {
            !(self.selected() == set![key] && self.primary_key() == Some(key))
        };
        &&& next.wf()
        &&& changes ==> {
            &&& next.selected() == (if multi_select { self.selected().insert(key) } else { set![key] })
            &&& next.primary_key() == Some(key)
            &&& next.revision_number() == bumped(self.revision_number())
            &&& multi_select ==> next.order() == self.order().push(key)
            &&& !multi_select ==> next.order() == seq![key]
        }
        &&& !changes ==> next == self
    }

    /// What `clear` does: empty the selection, bumping the revision if
    /// anything was selected.
    pub open spec fn cleared_after(self, next: Self) -> bool {
        &&& next.wf()
        &&& next.order() == Seq::<NodeKey>::empty()
        &&& next.primary_key() is None
        &&& self.order().len() > 0 ==> next.revision_number() == bumped(self.revision_number())
        &&& self.order().len() == 0 ==> next == self
    }

    /// The selection's invariant: nothing is selected exactly when there is
    /// no primary key; a primary key is one of the selected keys; no key is
    /// listed twice.
    pub proof fn lemma_selection_invariant(s: SelectionState)
        requires
            s.wf(),
        ensures
            (s.primary_key() is None) <==> (s.selected().len() == 0),
            (s.primary_key() is None) <==> (s.order().len() == 0),
            s.primary_key() is Some ==> s.selected().contains(s.primary_key()->0),
            s.order().no_duplicates(),
            s.selected().len() == s.order().len(),
    {
        s.nodes@.unique_seq_to_set();
    }

    pub fn new() -> (s: SelectionState)
        ensures
            s.wf(),
            s.order() == Seq::<NodeKey>::empty(),
            s.primary_key() is None,
            s.revision_number() == 0,
    {
        SelectionState { nodes: Vec::new(), primary: None, revision: 0 }
    }

    /// Monotonic revision incremented whenever the selection changes.
    pub fn revision(&self) -> (r: u64)
        ensures
            r == self.revision_number(),
    {
        self.revision
    }

    /// Primary selected node (most recently selected).
    pub fn primary(&self) -> (p: Option<NodeKey>)
        ensures
            p == self.primary_key(),
    {
        self.primary
    }

    /// Whether `key` is selected.
    pub fn contains(&self, key: &NodeKey) -> (found: bool)
        ensures
            found == self.selected().contains(*key),
    {
        let mut i: usize = 0;
        while i < self.nodes.len()
            invariant
                i <= self.nodes@.len(),
                forall|j: int| 0 <= j < i ==> self.nodes@[j] != *key,
            decreases self.nodes@.len() - i,
        {
            if self.nodes[i] == *key {
                assert(self.nodes@[i as int] == *key);
                return true;
            }
            i = i + 1;
        }
        false
    }

    /// The number of selected keys.
    pub fn len(&self) -> (n: usize)
        requires
            self.wf(),
        ensures
            n == self.selected().len(),
            n == self.order().len(),
    {
        proof {
            self.nodes@.unique_seq_to_set();
        }
        self.nodes.len()
    }

    /// Whether nothing is selected.
    pub fn is_empty(&self) -> (e: bool)
        requires
            self.wf(),
        ensures
            e == (self.selected().len() == 0),
            e == (self.order().len() == 0),
    {
        proof {
            self.nodes@.unique_seq_to_set();
        }
        self.nodes.len() == 0
    }

    /// The selected keys in the order they were selected.
    pub fn keys(&self) -> (keys: Vec<NodeKey>)
        ensures
            keys@ == self.order(),
    {
        let mut keys: Vec<NodeKey> = Vec::new();
        let mut i: usize = 0;
        while i < self.nodes.len()
            invariant
                i <= self.nodes@.len(),
                keys@ == self.nodes@.take(i as int),
            decreases self.nodes@.len() - i,
        {
            keys.push(self.nodes[i]);
            i = i + 1;
            assert(keys@ =~= self.nodes@.take(i as int));
        }
        assert(keys@ =~= self.nodes@);
        keys
    }

    pub fn select(&mut self, key: NodeKey, multi_select: bool)
        requires
            old(self).wf(),
        ensures
            old(self).selected_after(*final(self), key, multi_select),
    {
        if multi_select {
            if !self.contains(&key) {
                self.nodes.push(key);
                self.primary = Some(key);
                self.revision = self.revision.saturating_add(1);
                proof {
                    old(self).nodes@.lemma_push_to_set_commute(key);
                    assert(self.nodes@.to_set() =~= old(self).nodes@.to_set().insert(key));
                    assert(self.nodes@.contains(key)) by {
                        assert(self.nodes@[self.nodes@.len() - 1] == key);
                    }
                }
            }
            return;
        }
        if self.nodes.len() == 1 && self.contains(&key) && self.primary == Some(key) {
            proof {
                assert(self.nodes@[0] == key);
                assert forall|x: NodeKey| self.nodes@.to_set().contains(x) <==> set![key].contains(x) by {
                    if self.nodes@.to_set().contains(x) {
                        assert(self.nodes@.contains(x));
                    }
                    if x == key {
                        assert(self.nodes@.contains(x));
                    }
                }
                assert(self.nodes@.to_set() =~= set![key]);
            }
            return;
        }
        proof {
            if self.nodes@.to_set() == set![key] && self.primary == Some(key) {
                self.nodes@.unique_seq_to_set();
                assert(self.nodes@.len() == 1);
            }
        }
        self.nodes = Vec::new();
        self.nodes.push(key);
        self.primary = Some(key);
        self.revision = self.revision.saturating_add(1);
        proof {
            assert(self.nodes@ =~= seq![key]);
            assert(self.nodes@[0] == key);
            assert forall|x: NodeKey| self.nodes@.to_set().contains(x) <==> set![key].contains(x) by {
                if self.nodes@.to_set().contains(x) {
                    assert(self.nodes@.contains(x));
                }
                if x == key {
                    assert(self.nodes@.contains(x));
                }
            }
            assert(self.nodes@.to_set() =~= set![key]);
        }
    }

    pub fn clear(&mut self)
        requires
            old(self).wf(),
        ensures
            old(self).cleared_after(*final(self)),
    {
        if self.nodes.len() == 0 && self.primary.is_none() {
            assert(self.nodes@ =~= Seq::<NodeKey>::empty());
            return;
        }
        self.nodes = Vec::new();
        self.primary = None;
        self.revision = self.revision.saturating_add(1);
        assert(self.nodes@ =~= Seq::<NodeKey>::empty());
    }
}

} // verus!

verus! {

/// A request to log `entry`.
pub open spec fn logs(r: StoreRequest, entry: spec_fn(LogEntry) -> bool) -> bool {
    match r {
        StoreRequest::Log(e) => entry(e),
        _ => false,
    }
}

/// The log entry for adding node `id` at `url` and `position`.
pub open spec fn is_add_node_entry(e: LogEntry, id: u128, url: Seq<char>, position: Position) -> bool {
    match e {
        LogEntry::AddNode { node_id, url: u, position_x, position_y } =>
            node_id@ == uuid_text(id) && uuid_parse(node_id@) == Some(id) && u@ == url && position_x == position.x && position_y == position.y,
        _ => false,
    }
}

/// The log entry for adding an edge between nodes `from` and `to`.
pub open spec fn is_add_edge_entry(e: LogEntry, from: u128, to: u128, edge_type: EdgeType) -> bool {
    match e {
        LogEntry::AddEdge { from_node_id, to_node_id, edge_type: t } =>
            from_node_id@ == uuid_text(from) && uuid_parse(from_node_id@) == Some(from)
                && to_node_id@ == uuid_text(to) && uuid_parse(to_node_id@) == Some(to) && t == persisted_edge_type(edge_type),
        _ => false,
    }
}

/// The log entry for retitling node `id`.
pub open spec fn is_title_entry(e: LogEntry, id: u128, title: String) -> bool {
    match e {
        LogEntry::UpdateNodeTitle { node_id, title: t } => node_id@ == uuid_text(id) && uuid_parse(node_id@) == Some(id) && t == title,
        _ => false,
    }
}

/// The log entry for removing node `id`.
pub open spec fn is_remove_entry(e: LogEntry, id: u128) -> bool {
    match e {
        LogEntry::RemoveNode { node_id } => node_id@ == uuid_text(id) && uuid_parse(node_id@) == Some(id),
        _ => false,
    }
}

/// The log entry for moving node `id` to `url`.
pub open spec fn is_url_entry(e: LogEntry, id: u128, url: String) -> bool {
    match e {
        LogEntry::UpdateNodeUrl { node_id, new_url } => node_id@ == uuid_text(id) && uuid_parse(node_id@) == Some(id) && new_url == url,
        _ => false,
    }
}

/// The request list `next` is `prev` with one more request satisfying `p`.
pub open spec fn one_more_request(prev: Seq<StoreRequest>, next: Seq<StoreRequest>, p: spec_fn(StoreRequest) -> bool) -> bool {
    &&& next.len() == prev.len() + 1
    &&& next.drop_last() == prev
    &&& p(next.last())
}

/// The key under which a node's webview is recorded.
pub open spec fn node_slot(k: NodeKey) -> u64 {
    k.index as u64
}

/// The text of placeholder number `n`: `about:blank#n`.
pub open spec fn placeholder_url(n: u32) -> Seq<char> {
    placeholder_prefix() + decimal(n as nat)
}

/// The prefix of placeholder URLs.
pub open spec fn placeholder_prefix() -> Seq<char> {
    seq!['a', 'b', 'o', 'u', 't', ':', 'b', 'l', 'a', 'n', 'k', '#']
}

/// The number of a placeholder URL: what follows `about:blank#`, read as
/// a `u32`.
pub open spec fn placeholder_number(url: Seq<char>) -> Option<u32> {
    if has_prefix(url, placeholder_prefix()) {
        parse_u32_spec(url.skip(placeholder_prefix().len() as int))
    } else {
        None
    }
}

/// No node of `g` carries placeholder number `u32::MAX`.
pub open spec fn placeholders_below_max(g: Graph) -> bool {
    forall|k: NodeKey| #[trigger] g.node_map().contains_key(k) ==> placeholder_number(g.node_map()[k].url@) != Some(u32::MAX)
}

/// `n` is one more than the largest placeholder number among the nodes of
/// `g`, or 0 when there is none.
pub open spec fn is_next_placeholder(g: Graph, n: u32) -> bool {
    &&& forall|k: NodeKey| #[trigger] g.node_map().contains_key(k) && placeholder_number(g.node_map()[k].url@) is Some
        ==> placeholder_number(g.node_map()[k].url@)->0 < n
    &&& n > 0 ==> exists|k: NodeKey| #[trigger] g.node_map().contains_key(k) && placeholder_number(g.node_map()[k].url@) == Some((n - 1) as u32)
}

/// Main application state
pub struct GraphBrowserApp {
    /// The graph data structure
    pub graph: Graph,
    /// Whether the force-directed layout is running.
    pub physics_running: bool,
    /// Physics running state before user drag/pan interaction began.
    pub physics_running_before_interaction: Option<bool>,
    /// Currently selected nodes (can be multiple)
    pub selected_nodes: SelectionState,
    /// Webview to node, keyed by webview number.
    pub webview_to_node: KeyedMap<NodeKey>,
    /// Node to webview, keyed by node index.
    pub node_to_webview: KeyedMap<WebViewId>,
    /// Nodes that had webviews before switching to graph view (for restoration).
    pub active_webview_nodes: Vec<NodeKey>,
    /// Counter for unique placeholder URLs (about:blank#1, about:blank#2, ...).
    pub next_placeholder_id: u32,
    /// True while the user is actively interacting (drag/pan) with the graph
    pub is_interacting: bool,
    /// Whether the physics config panel is open
    pub show_physics_panel: bool,
    /// Whether the keyboard shortcut help panel is open
    pub show_help_panel: bool,
    /// One-shot flag: fit graph to screen on next frame
    pub fit_to_screen_requested: bool,
    /// Whether mutations are journaled to a persistent store.
    pub persistence_enabled: bool,
    /// Seconds between periodic snapshots (in effect with persistence).
    pub snapshot_interval_secs: u64,
    /// Work for the persistent store, oldest first; the embedder drains it.
    pub store_requests: Vec<StoreRequest>,
    /// Flag: rendering state needs rebuild (set when graph structure changes)
    pub egui_state_dirty: bool,
}

impl GraphBrowserApp {
    /// The graph, selection and webview maps are well-formed.
    pub open spec fn wf(&self) -> bool {
        &&& self.graph.wf()
        &&& self.selected_nodes.wf()
        &&& self.webview_to_node.wf()
        &&& self.node_to_webview.wf()
    }

    /// Webview number to node key.
    pub open spec fn webview_nodes(&self) -> Map<u64, NodeKey> {
        self.webview_to_node.view()
    }

    /// Node slot to webview.
    pub open spec fn node_webviews(&self) -> Map<u64, WebViewId> {
        self.node_to_webview.view()
    }

    /// `next` is this state with `req` satisfied by the request list: one
    /// more request when persistence is on, none otherwise.
    pub open spec fn requested(self, next: Self, req: spec_fn(StoreRequest) -> bool) -> bool {
        &&& self.persistence_enabled ==> one_more_request(self.store_requests@, next.store_requests@, req)
        &&& !self.persistence_enabled ==> next.store_requests == self.store_requests
    }

    /// Build the application state around a graph (for instance one
    /// recovered from persistence). Placeholder numbering continues after
    /// the highest `about:blank#N` in the graph.
    pub fn with_graph(graph: Graph, persistence_enabled: bool, physics_running: bool) -> (app: Self)
        requires
            graph.wf(),
            placeholders_below_max(graph),
        ensures
            app.wf(),
            app.graph == graph,
            is_next_placeholder(graph, app.next_placeholder_id),
            app.persistence_enabled == persistence_enabled,
            app.snapshot_interval_secs == DEFAULT_SNAPSHOT_INTERVAL_SECS,
            app.physics_running == physics_running,
            app.physics_running_before_interaction is None,
            app.selected_nodes.order() == Seq::<NodeKey>::empty(),
            app.selected_nodes.revision_number() == 0,
            app.webview_nodes() == Map::<u64, NodeKey>::empty(),
            app.node_webviews() == Map::<u64, WebViewId>::empty(),
            app.active_webview_nodes@ == Seq::<NodeKey>::empty(),
            !app.is_interacting,
            !app.show_physics_panel,
            !app.show_help_panel,
            !app.fit_to_screen_requested,
            app.store_requests@ == Seq::<StoreRequest>::empty(),
            app.egui_state_dirty,
    {
        let next_placeholder_id = Self::scan_max_placeholder_id(&graph);
        GraphBrowserApp {
            graph,
            physics_running,
            physics_running_before_interaction: None,
            selected_nodes: SelectionState::new(),
            webview_to_node: KeyedMap::new(),
            node_to_webview: KeyedMap::new(),
            active_webview_nodes: Vec::new(),
            next_placeholder_id,
            is_interacting: false,
            show_physics_panel: false,
            show_help_panel: false,
            fit_to_screen_requested: false,
            persistence_enabled,
            snapshot_interval_secs: DEFAULT_SNAPSHOT_INTERVAL_SECS,
            store_requests: Vec::new(),
            egui_state_dirty: true,
        }
    }

    /// A fresh state with an empty graph, no persistence and the layout running.
    pub fn new_for_testing() -> (app: Self)
        ensures
            app.wf(),
            app.graph.node_map() == Map::<NodeKey, Node>::empty(),
            app.graph.edge_map() == Map::<EdgeKey, EdgeView>::empty(),
            app.next_placeholder_id == 0,
            !app.persistence_enabled,
            app.physics_running,
            app.physics_running_before_interaction is None,
            app.selected_nodes.order() == Seq::<NodeKey>::empty(),
            app.webview_nodes() == Map::<u64, NodeKey>::empty(),
            app.node_webviews() == Map::<u64, WebViewId>::empty(),
            !app.is_interacting,
            !app.show_physics_panel,
            !app.show_help_panel,
            !app.fit_to_screen_requested,
            app.store_requests@ == Seq::<StoreRequest>::empty(),
    {
        let app = Self::with_graph(Graph::new(), false, true);
        proof {
            if app.next_placeholder_id > 0 {
                let k = choose|k: NodeKey| #[trigger] app.graph.node_map().contains_key(k) && placeholder_number(app.graph.node_map()[k].url@) == Some((app.next_placeholder_id - 1) as u32);
            }
        }
        app
    }

    /// Scan the graph for `about:blank#N` placeholder URLs and return the
    /// next available number (largest found plus one, or 0 if none).
    pub fn scan_max_placeholder_id(graph: &Graph) -> (next: u32)
        requires
            graph.wf(),
            placeholders_below_max(*graph),
        ensures
            is_next_placeholder(*graph, next),
    {
        let nodes = graph.nodes();
        let mut max_id: u32 = 0;
        let mut i: usize = 0;
        let prefix = "about:blank#";
        proof {
            reveal_strlit("about:blank#");
            assert(prefix@ =~= placeholder_prefix());
        }
        while i < nodes.len()
            invariant
                i <= nodes@.len(),
                prefix@ == placeholder_prefix(),
                placeholders_below_max(*graph),
                forall|j: int| 0 <= j < nodes@.len() ==> {
                    &&& graph.node_map().contains_key(#[trigger] nodes@[j].0)
                    &&& *nodes@[j].1 == graph.node_map()[nodes@[j].0]
                },
                forall|j: int| 0 <= j < i && #[trigger] placeholder_number(nodes@[j].1.url@) is Some
                    ==> placeholder_number(nodes@[j].1.url@)->0 < max_id,
                max_id > 0 ==> exists|j: int| 0 <= j < i && #[trigger] placeholder_number(nodes@[j].1.url@) == Some((max_id - 1) as u32),
            decreases nodes@.len() - i,
        {
            let url = nodes[i].1.url.as_str();
            if let Some(fragment) = strip_prefix(url, prefix) {
                if let Some(id) = parse_u32(fragment) {
                    assert(placeholder_number(nodes@[i as int].1.url@) == Some(id));
                    assert(graph.node_map().contains_key(nodes@[i as int].0));
                    if id + 1 > max_id {
                        max_id = id + 1;
                    }
                }
            }
            i = i + 1;
        }
        proof {
            assert forall|k: NodeKey| #[trigger] graph.node_map().contains_key(k) && placeholder_number(graph.node_map()[k].url@) is Some
                implies placeholder_number(graph.node_map()[k].url@)->0 < max_id by {
                let j = choose|j: int| 0 <= j < nodes@.len() && #[trigger] nodes@[j].0 == k;
                assert(placeholder_number(nodes@[j].1.url@) is Some);
            }
            if max_id > 0 {
                let j = choose|j: int| 0 <= j < i && #[trigger] placeholder_number(nodes@[j].1.url@) == Some((max_id - 1) as u32);
                assert(graph.node_map().contains_key(nodes@[j].0));
            }
        }
        max_id
    }

    /// Generate a unique placeholder URL for a new node.
    pub fn next_placeholder_url(&mut self) -> (url: String)
        requires
            old(self).next_placeholder_id < u32::MAX,
        ensures
            url@ == placeholder_url(old(self).next_placeholder_id),
            *final(self) == (GraphBrowserApp { next_placeholder_id: (old(self).next_placeholder_id + 1) as u32, ..*old(self) }),
    {
        let mut url = String::from_str("about:blank#");
        proof {
            reveal_strlit("about:blank#");
        }
        let number = u32_to_decimal(self.next_placeholder_id);
        url.append(number.as_str());
        self.next_placeholder_id = self.next_placeholder_id + 1;
        url
    }

    /// Whether the graph was recovered from persistence (has nodes on startup)
    pub fn has_recovered_graph(&self) -> (r: bool)
        requires
            self.wf(),
        ensures
            r == (self.graph.node_map().len() > 0),
    {
        self.graph.node_count() > 0
    }

    /// What `select_node` does: nothing for a key with no node; otherwise
    /// select it as `SelectionState::select` does and mark render state dirty.
    pub open spec fn selected_node(self, next: Self, key: NodeKey, multi_select: bool) -> bool {
        &&& self.graph.node_map().contains_key(key) ==> {
            &&& self.selected_nodes.selected_after(next.selected_nodes, key, multi_select)
            &&& next == (GraphBrowserApp { selected_nodes: next.selected_nodes, egui_state_dirty: true, ..self })
        }
        &&& !self.graph.node_map().contains_key(key) ==> next == self
    }

    /// Select a node; stale keys are ignored.
    pub fn select_node(&mut self, key: NodeKey, multi_select: bool)
        requires
            old(self).wf(),
        ensures
            final(self).wf(),
            old(self).selected_node(*final(self), key, multi_select),
    {
        if !self.graph.contains_node(key) {
            return;
        }
        self.selected_nodes.select(key, multi_select);
        self.egui_state_dirty = true;
    }

    /// Request fit-to-screen on next render frame (one-shot)
    pub fn request_fit_to_screen(&mut self)
        ensures
            *final(self) == (GraphBrowserApp { fit_to_screen_requested: true, ..*old(self) }),
    {
        self.fit_to_screen_requested = true;
    }

    /// What `set_interacting` does: nothing when the flag already has that
    /// value; starting an interaction saves and pauses the layout; ending
    /// one restores the saved running state, if any, and forgets it.
    pub open spec fn interaction_set(self, next: Self, interacting: bool) -> bool {
        if self.is_interacting == interacting {
            next == self
        } else if interacting {
            next == (GraphBrowserApp {
                is_interacting: true,
                physics_running_before_interaction: Some(self.physics_running),
                physics_running: false,
                ..self
            })
        } else {
            next == (GraphBrowserApp {
                is_interacting: false,
                physics_running_before_interaction: None,
                physics_running: match self.physics_running_before_interaction {
                    Some(was) => was,
                    None => self.physics_running,
                },
                ..self
            })
        }
    }

    /// Set whether the user is actively interacting with the graph
    pub fn set_interacting(&mut self, interacting: bool)
        ensures
            old(self).interaction_set(*final(self), interacting),
    {
        if self.is_interacting == interacting {
            return;
        }
        self.is_interacting = interacting;
        if interacting {
            self.physics_running_before_interaction = Some(self.physics_running);
            self.physics_running = false;
        } else {
            match self.physics_running_before_interaction {
                Some(was_running) => {
                    self.physics_running_before_interaction = None;
                    self.physics_running = was_running;
                },
                None => {},
            }
        }
    }

    /// What `toggle_physics` does: during an interaction, flip the running
    /// state to restore afterwards; otherwise flip the running state.
    pub open spec fn physics_toggled(self, next: Self) -> bool {
        if self.is_interacting {
            next == (GraphBrowserApp {
                physics_running_before_interaction: Some(!match self.physics_running_before_interaction {
                    Some(was) => was,
                    None => self.physics_running,
                }),
                ..self
            })
        } else {
            next == (GraphBrowserApp { physics_running: !self.physics_running, ..self })
        }
    }

    /// Toggle force-directed layout simulation.
    pub fn toggle_physics(&mut self)
        ensures
            old(self).physics_toggled(*final(self)),
    {
        if self.is_interacting {
            let current = match self.physics_running_before_interaction {
                Some(was) => was,
                None => self.physics_running,
            };
            self.physics_running_before_interaction = Some(!current);
            return;
        }
        self.physics_running = !self.physics_running;
    }

    /// Toggle physics config panel visibility
    pub fn toggle_physics_panel(&mut self)
        ensures
            *final(self) == (GraphBrowserApp { show_physics_panel: !old(self).show_physics_panel, ..*old(self) }),
    {
        self.show_physics_panel = !self.show_physics_panel;
    }

    /// Toggle keyboard shortcut help panel visibility
    pub fn toggle_help_panel(&mut self)
        ensures
            *final(self) == (GraphBrowserApp { show_help_panel: !old(self).show_help_panel, ..*old(self) }),
    {
        self.show_help_panel = !self.show_help_panel;
    }

    /// What `map_webview_to_node` does: record the webview's node and the
    /// node's webview; nothing else changes.
    pub open spec fn webview_mapped(self, next: Self, webview_id: WebViewId, node_key: NodeKey) -> bool {
        &&& next.wf()
        &&& next.webview_nodes() == self.webview_nodes().insert(webview_id.id, node_key)
        &&& next.node_webviews() == self.node_webviews().insert(node_slot(node_key), webview_id)
        &&& next == (GraphBrowserApp { webview_to_node: next.webview_to_node, node_to_webview: next.node_to_webview, ..self })
    }

    /// Add a bidirectional mapping between a webview and a node
    pub fn map_webview_to_node(&mut self, webview_id: WebViewId, node_key: NodeKey)
        requires
            old(self).wf(),
        ensures
            old(self).webview_mapped(*final(self), webview_id, node_key),
    {
        self.webview_to_node.insert(webview_id.id, node_key);
        self.node_to_webview.insert(node_key.index as u64, webview_id);
    }

    /// What `unmap_webview` does: forget the webview's node and that node's webview.
    pub open spec fn webview_unmapped(self, next: Self, webview_id: WebViewId) -> bool {
        &&& next.wf()
        &&& self.webview_nodes().contains_key(webview_id.id) ==> {
            &&& next.webview_nodes() == self.webview_nodes().remove(webview_id.id)
            &&& next.node_webviews() == self.node_webviews().remove(node_slot(self.webview_nodes()[webview_id.id]))
            &&& next == (GraphBrowserApp { webview_to_node: next.webview_to_node, node_to_webview: next.node_to_webview, ..self })
        }
        &&& !self.webview_nodes().contains_key(webview_id.id) ==> {
            &&& next.webview_nodes() == self.webview_nodes()
            &&& next.node_webviews() == self.node_webviews()
            &&& next == (GraphBrowserApp { webview_to_node: next.webview_to_node, node_to_webview: next.node_to_webview, ..self })
        }
    }

    /// Remove the mapping for a webview and its corresponding node
    pub fn unmap_webview(&mut self, webview_id: WebViewId) -> (node: Option<NodeKey>)
        requires
            old(self).wf(),
        ensures
            node == (if old(self).webview_nodes().contains_key(webview_id.id) { Some(old(self).webview_nodes()[webview_id.id]) } else { None::<NodeKey> }),
            old(self).webview_unmapped(*final(self), webview_id),
    {
        match self.webview_to_node.remove(webview_id.id) {
            Some(node_key) => {
                self.node_to_webview.remove(node_key.index as u64);
                Some(node_key)
            },
            None => {
                assert(self.webview_nodes() =~= old(self).webview_nodes());
                None
            },
        }
    }

    /// Get the node key for a given webview
    pub fn get_node_for_webview(&self, webview_id: WebViewId) -> (node: Option<NodeKey>)
        requires
            self.wf(),
        ensures
            node == (if self.webview_nodes().contains_key(webview_id.id) { Some(self.webview_nodes()[webview_id.id]) } else { None::<NodeKey> }),
    {
        self.webview_to_node.get(webview_id.id)
    }

    /// Get the webview ID for a given node
    pub fn get_webview_for_node(&self, node_key: NodeKey) -> (webview: Option<WebViewId>)
        requires
            self.wf(),
        ensures
            webview == (if self.node_webviews().contains_key(node_slot(node_key)) { Some(self.node_webviews()[node_slot(node_key)]) } else { None::<WebViewId> }),
    {
        self.node_to_webview.get(node_key.index as u64)
    }

    /// All webview-node mappings, each once.
    pub fn webview_node_mappings(&self) -> (all: Vec<(WebViewId, NodeKey)>)
        requires
            self.wf(),
        ensures
            forall|i: int| 0 <= i < all@.len() ==> #[trigger] self.webview_nodes().contains_key(all@[i].0.id)
                && self.webview_nodes()[all@[i].0.id] == all@[i].1,
            forall|w: u64| #[trigger] self.webview_nodes().contains_key(w) ==> exists|i: int| 0 <= i < all@.len() && #[trigger] all@[i].0.id == w,
            forall|i: int, j: int| 0 <= i < j < all@.len() ==> all@[i].0 != all@[j].0,
    {
        let entries = self.webview_to_node.entries();
        let mut all: Vec<(WebViewId, NodeKey)> = Vec::new();
        let mut i: usize = 0;
        while i < entries.len()
            invariant
                i <= entries@.len(),
                all@.len() == i,
                forall|j: int| 0 <= j < i ==> #[trigger] all@[j] == (WebViewId { id: entries@[j].0 }, entries@[j].1),
            decreases entries@.len() - i,
        {
            all.push((WebViewId { id: entries[i].0 }, entries[i].1));
            i = i + 1;
        }
        proof {
            assert forall|w: u64| #[trigger] self.webview_nodes().contains_key(w) implies exists|j: int| 0 <= j < all@.len() && #[trigger] all@[j].0.id == w by {
                let j = choose|j: int| 0 <= j < entries@.len() && #[trigger] entries@[j].0 == w;
                assert(all@[j].0.id == w);
            }
            assert forall|a: int, b: int| 0 <= a < b < all@.len() implies all@[a].0 != all@[b].0 by {
                assert(entries@[a].0 != entries@[b].0);
            }
        }
        all
    }
}

} // verus!

verus! {

impl GraphBrowserApp {
    /// What `add_node_and_sync` does: add a node as `Graph::add_node` does,
    /// log it when persistence is on, and mark render state dirty.
    pub open spec fn added_node_synced(self, next: Self, key: NodeKey, url: Seq<char>, position: Position) -> bool {
        let id = next.graph.node_map()[key].id;
        &&& next.wf()
        &&& self.graph.added_node(next.graph, key, id, url, position)
        &&& self.requested(next, |r: StoreRequest| logs(r, |e: LogEntry| is_add_node_entry(e, id, url, position)))
        &&& next == (GraphBrowserApp { graph: next.graph, store_requests: next.store_requests, egui_state_dirty: true, ..self })
    }

    /// Add a new node and mark render state as dirty.
    pub fn add_node_and_sync(&mut self, url: String, position: Position) -> (key: NodeKey)
        requires
            old(self).wf(),
            old(self).graph.node_map().len() < u32::MAX,
        ensures
            old(self).added_node_synced(*final(self), key, url@, position),
    {
        let ghost url_view = url@;
        let log_url = url.clone();
        let key = self.graph.add_node(url, position);
        if self.persistence_enabled {
            match self.graph.get_node(key) {
                Some(node) => {
                    let id = node.id;
                    let node_id = node_id_to_string(id);
                    let entry = LogEntry::AddNode {
                        node_id,
                        url: log_url,
                        position_x: position.x,
                        position_y: position.y,
                    };
                    assert(is_add_node_entry(entry, id, url_view, position));
                    self.store_requests.push(StoreRequest::Log(entry));
                    assert(self.store_requests@.drop_last() =~= old(self).store_requests@);
                },
                None => {},
            }
        }
        self.egui_state_dirty = true;
        key
    }

    /// What `log_edge_mutation` does: when persistence is on and both nodes
    /// exist, log the edge by the nodes' identities.
    pub open spec fn edge_logged(self, next: Self, from: NodeKey, to: NodeKey, edge_type: EdgeType) -> bool {
        let both = self.graph.node_map().contains_key(from) && self.graph.node_map().contains_key(to);
        &&& (self.persistence_enabled && both) ==> one_more_request(self.store_requests@, next.store_requests@,
            |r: StoreRequest| logs(r, |e: LogEntry| is_add_edge_entry(e, self.graph.node_map()[from].id, self.graph.node_map()[to].id, edge_type)))
        &&& !(self.persistence_enabled && both) ==> next.store_requests == self.store_requests
        &&& next == (GraphBrowserApp { store_requests: next.store_requests, ..self })
    }

    /// Log an edge addition to persistence
    pub fn log_edge_mutation(&mut self, from_key: NodeKey, to_key: NodeKey, edge_type: EdgeType)
        requires
            old(self).wf(),
        ensures
            old(self).edge_logged(*final(self), from_key, to_key, edge_type),
    {
        if self.persistence_enabled {
            let from_id = match self.graph.get_node(from_key) {
                Some(n) => Some(n.id),
                None => None,
            };
            let to_id = match self.graph.get_node(to_key) {
                Some(n) => Some(n.id),
                None => None,
            };
            match (from_id, to_id) {
                (Some(f), Some(t)) => {
                    let from_node_id = node_id_to_string(f);
                    let to_node_id = node_id_to_string(t);
                    let entry = LogEntry::AddEdge {
                        from_node_id,
                        to_node_id,
                        edge_type: to_persisted_edge_type(edge_type),
                    };
                    assert(is_add_edge_entry(entry, f, t, edge_type));
                    self.store_requests.push(StoreRequest::Log(entry));
                    assert(self.store_requests@.drop_last() =~= old(self).store_requests@);
                },
                _ => {},
            }
        }
    }

    /// What `add_edge_and_sync` does: when both nodes exist, add the edge,
    /// log it and mark render state dirty; otherwise change nothing.
    pub open spec fn edge_added_synced(self, next: Self, from: NodeKey, to: NodeKey, edge_type: EdgeType, edge: Option<EdgeKey>) -> bool {
        let both = self.graph.node_map().contains_key(from) && self.graph.node_map().contains_key(to);
        &&& next.wf()
        &&& both ==> {
            &&& edge is Some
            &&& self.graph.added_edge(next.graph, edge->0, EdgeView { from, to, edge_type })
            &&& self.requested(next, |r: StoreRequest| logs(r, |e: LogEntry| is_add_edge_entry(e, self.graph.node_map()[from].id, self.graph.node_map()[to].id, edge_type)))
            &&& next == (GraphBrowserApp { graph: next.graph, store_requests: next.store_requests, egui_state_dirty: true, ..self })
        }
        &&& !both ==> {
            &&& edge is None
            &&& self.graph.same_contents(next.graph)
            &&& next == (GraphBrowserApp { graph: next.graph, ..self })
        }
    }

    /// Add a new edge with persistence logging.
    pub fn add_edge_and_sync(&mut self, from_key: NodeKey, to_key: NodeKey, edge_type: EdgeType) -> (edge: Option<EdgeKey>)
        requires
            old(self).wf(),
            old(self).graph.edge_map().len() < u32::MAX,
        ensures
            old(self).edge_added_synced(*final(self), from_key, to_key, edge_type, edge),
    {
        let edge = self.graph.add_edge(from_key, to_key, edge_type);
        if edge.is_some() {
            self.log_edge_mutation(from_key, to_key, edge_type);
            self.egui_state_dirty = true;
        }
        edge
    }

    /// What `log_title_mutation` does: when persistence is on and the node
    /// exists, log its current title.
    pub open spec fn title_logged(self, next: Self, key: NodeKey) -> bool {
        let present = self.graph.node_map().contains_key(key);
        &&& (self.persistence_enabled && present) ==> one_more_request(self.store_requests@, next.store_requests@,
            |r: StoreRequest| logs(r, |e: LogEntry| is_title_entry(e, self.graph.node_map()[key].id, self.graph.node_map()[key].title)))
        &&& !(self.persistence_enabled && present) ==> next.store_requests == self.store_requests
        &&& next == (GraphBrowserApp { store_requests: next.store_requests, ..self })
    }

    /// Log a title update to persistence
    pub fn log_title_mutation(&mut self, node_key: NodeKey)
        requires
            old(self).wf(),
        ensures
            old(self).title_logged(*final(self), node_key),
    {
        if self.persistence_enabled {
            let found = match self.graph.get_node(node_key) {
                Some(node) => Some((node.id, node.title.clone())),
                None => None,
            };
            match found {
                Some((id, title)) => {
                    let node_id = node_id_to_string(id);
                    let entry = LogEntry::UpdateNodeTitle { node_id, title };
                    assert(is_title_entry(entry, id, old(self).graph.node_map()[node_key].title));
                    self.store_requests.push(StoreRequest::Log(entry));
                    assert(self.store_requests@.drop_last() =~= old(self).store_requests@);
                },
                None => {},
            }
        }
    }

    /// What setting a node's lifecycle does: the node, if present, gets
    /// `lifecycle`; nothing else changes.
    pub open spec fn lifecycle_set(self, next: Self, key: NodeKey, lifecycle: NodeLifecycle) -> bool {
        &&& next.wf()
        &&& self.graph.node_map().contains_key(key) ==> {
            &&& self.graph.edited_node(next.graph, key, Node { lifecycle, ..self.graph.node_map()[key] })
            &&& next == (GraphBrowserApp { graph: next.graph, ..self })
        }
        &&& !self.graph.node_map().contains_key(key) ==> {
            &&& self.graph.same_contents(next.graph)
            &&& next == (GraphBrowserApp { graph: next.graph, ..self })
        }
    }

    fn set_lifecycle(&mut self, node_key: NodeKey, lifecycle: NodeLifecycle)
        requires
            old(self).wf(),
        ensures
            old(self).lifecycle_set(*final(self), node_key, lifecycle),
    {
        let ghost g0 = self.graph;
        match self.graph.get_node_mut(node_key) {
            Some(node) => {
                node.lifecycle = lifecycle;
            },
            None => {},
        }
        proof {
            if g0.node_map().contains_key(node_key) {
                assert(self.graph.node_map()[node_key] == (Node { lifecycle, ..g0.node_map()[node_key] }));
                Graph::lemma_edit_keeps_wf(&g0, &self.graph, node_key);
            }
        }
    }

    /// Promote a node to Active lifecycle (mark as needing webview)
    pub fn promote_node_to_active(&mut self, node_key: NodeKey)
        requires
            old(self).wf(),
        ensures
            old(self).lifecycle_set(*final(self), node_key, NodeLifecycle::Active),
    {
        self.set_lifecycle(node_key, NodeLifecycle::Active);
    }

    /// What `demote_node_to_cold` does: the node, if present, becomes Cold,
    /// and any webview recorded for it is unmapped in both directions.
    pub open spec fn demoted(self, next: Self, key: NodeKey) -> bool {
        exists|mid: Self| {
            &&& #[trigger] self.lifecycle_set(mid, key, NodeLifecycle::Cold)
            &&& next.wf()
            &&& mid.node_webviews().contains_key(node_slot(key)) ==> {
                &&& next.webview_nodes() == mid.webview_nodes().remove(mid.node_webviews()[node_slot(key)].id)
                &&& next.node_webviews() == mid.node_webviews().remove(node_slot(key))
            }
            &&& !mid.node_webviews().contains_key(node_slot(key)) ==> {
                &&& next.webview_nodes() == mid.webview_nodes()
                &&& next.node_webviews() == mid.node_webviews()
            }
            &&& next == (GraphBrowserApp { webview_to_node: next.webview_to_node, node_to_webview: next.node_to_webview, ..mid })
        }
    }

    /// Demote a node to Cold lifecycle (mark as not needing webview)
    pub fn demote_node_to_cold(&mut self, node_key: NodeKey)
        requires
            old(self).wf(),
        ensures
            old(self).demoted(*final(self), node_key),
    {
        self.set_lifecycle(node_key, NodeLifecycle::Cold);
        let ghost mid = *self;
        match self.node_to_webview.get(node_key.index as u64) {
            Some(webview_id) => {
                self.webview_to_node.remove(webview_id.id);
                self.node_to_webview.remove(node_key.index as u64);
            },
            None => {},
        }
        assert(old(self).lifecycle_set(mid, node_key, NodeLifecycle::Cold));
    }

    /// Get the currently selected node (if exactly one is selected)
    pub fn get_single_selected_node(&self) -> (node: Option<NodeKey>)
        requires
            self.wf(),
        ensures
            node == (if self.selected_nodes.order().len() == 1 { self.selected_nodes.primary_key() } else { None::<NodeKey> }),
            node is Some ==> self.selected_nodes.selected() == set![node->0],
    {
        if self.selected_nodes.len() == 1 {
            let p = self.selected_nodes.primary();
            proof {
                if p is Some {
                    let order = self.selected_nodes.order();
                    assert(order.contains(p->0));
                    assert(order[0] == p->0);
                    assert forall|x: NodeKey| order.to_set().contains(x) <==> set![p->0].contains(x) by {
                        if x == p->0 {
                            assert(order.contains(x));
                        }
                    }
                    assert(order.to_set() =~= set![p->0]);
                }
            }
            p
        } else {
            None
        }
    }

    /// What `update_node_url_and_log` does: for a present node, move it to
    /// the new URL as `Graph::update_node_url` does, log it and mark render
    /// state dirty; otherwise change nothing.
    pub open spec fn url_updated(self, next: Self, key: NodeKey, new_url: String, previous: Option<String>) -> bool {
        &&& next.wf()
        &&& self.graph.node_map().contains_key(key) ==> {
            &&& previous is Some
            &&& previous->0@ == self.graph.node_map()[key].url@
            &&& self.graph.renamed_node(next.graph, key, new_url)
            &&& self.requested(next, |r: StoreRequest| logs(r, |e: LogEntry| is_url_entry(e, self.graph.node_map()[key].id, new_url)))
            &&& next == (GraphBrowserApp { graph: next.graph, store_requests: next.store_requests, egui_state_dirty: true, ..self })
        }
        &&& !self.graph.node_map().contains_key(key) ==> {
            &&& previous is None
            &&& self.graph.same_contents(next.graph)
            &&& next == (GraphBrowserApp { graph: next.graph, ..self })
        }
    }

    /// Update a node's URL and log to persistence.
    /// Returns the old URL, or None if the node doesn't exist.
    pub fn update_node_url_and_log(&mut self, key: NodeKey, new_url: String) -> (previous: Option<String>)
        requires
            old(self).wf(),
        ensures
            old(self).url_updated(*final(self), key, new_url, previous),
    {
        let ghost new_url_copy = new_url;
        let log_url = new_url.clone();
        let previous = self.graph.update_node_url(key, new_url);
        match previous {
            Some(old_url) => {
                if self.persistence_enabled {
                    match self.graph.get_node(key) {
                        Some(node) => {
                            let node_id = node_id_to_string(node.id);
                            let entry = LogEntry::UpdateNodeUrl { node_id, new_url: log_url };
                            assert(is_url_entry(entry, old(self).graph.node_map()[key].id, new_url_copy));
                            self.store_requests.push(StoreRequest::Log(entry));
                            assert(self.store_requests@.drop_last() =~= old(self).store_requests@);
                        },
                        None => {},
                    }
                }
                self.egui_state_dirty = true;
                Some(old_url)
            },
            None => None,
        }
    }
}

} // verus!

verus! {

impl GraphBrowserApp {
    /// What removing one node with its mappings does: log the removal when
    /// persistence is on and the node exists, forget the webview recorded
    /// for the node in both directions, remove the node and its edges, and
    /// mark render state dirty.
    pub open spec fn removed_one(self, next: Self, key: NodeKey) -> bool {
        let present = self.graph.node_map().contains_key(key);
        let slot = node_slot(key);
        &&& next.wf()
        &&& (self.persistence_enabled && present) ==> one_more_request(self.store_requests@, next.store_requests@,
            |r: StoreRequest| logs(r, |e: LogEntry| is_remove_entry(e, self.graph.node_map()[key].id)))
        &&& !(self.persistence_enabled && present) ==> next.store_requests == self.store_requests
        &&& self.node_webviews().contains_key(slot) ==> {
            &&& next.webview_nodes() == self.webview_nodes().remove(self.node_webviews()[slot].id)
            &&& next.node_webviews() == self.node_webviews().remove(slot)
        }
        &&& !self.node_webviews().contains_key(slot) ==> {
            &&& next.webview_nodes() == self.webview_nodes()
            &&& next.node_webviews() == self.node_webviews()
        }
        &&& present ==> self.graph.removed_node(next.graph, key)
        &&& !present ==> self.graph.same_contents(next.graph)
        &&& next == (GraphBrowserApp {
            graph: next.graph,
            webview_to_node: next.webview_to_node,
            node_to_webview: next.node_to_webview,
            store_requests: next.store_requests,
            egui_state_dirty: true,
            ..self
        })
    }

    /// `states` runs from its first to its last element by removing `keys`
    /// one after another, as `removed_one` describes.
    pub open spec fn removal_trace(states: Seq<Self>, keys: Seq<NodeKey>) -> bool {
        &&& states.len() == keys.len() + 1
        &&& forall|i: int| 0 <= i < keys.len() ==> #[trigger] states[i].removed_one(states[i + 1], keys[i])
    }

    /// `next` follows from this state by removing `keys` one after another,
    /// as `removed_one` describes.
    pub open spec fn removed_in_turn(self, next: Self, keys: Seq<NodeKey>) -> bool {
        exists|states: Seq<Self>| {
            &&& #[trigger] Self::removal_trace(states, keys)
            &&& states[0] == self
            &&& states.last() == next
        }
    }

    fn remove_node_and_mappings(&mut self, node_key: NodeKey)
        requires
            old(self).wf(),
        ensures
            old(self).removed_one(*final(self), node_key),
    {
        if self.persistence_enabled {
            match self.graph.get_node(node_key) {
                Some(node) => {
                    let id = node.id;
                    let node_id = node_id_to_string(id);
                    let entry = LogEntry::RemoveNode { node_id };
                    assert(is_remove_entry(entry, id));
                    self.store_requests.push(StoreRequest::Log(entry));
                    assert(self.store_requests@.drop_last() =~= old(self).store_requests@);
                },
                None => {},
            }
        }
        match self.node_to_webview.get(node_key.index as u64) {
            Some(webview_id) => {
                self.webview_to_node.remove(webview_id.id);
                self.node_to_webview.remove(node_key.index as u64);
            },
            None => {},
        }
        self.graph.remove_node(node_key);
        self.egui_state_dirty = true;
    }

    /// What `remove_selected_nodes` does: remove the selected nodes in the
    /// order they were selected, as `removed_in_turn` describes, then clear
    /// the selection.
    pub open spec fn selection_removed(self, next: Self) -> bool {
        exists|mid: Self| {
            &&& #[trigger] self.removed_in_turn(mid, self.selected_nodes.order())
            &&& mid.selected_nodes.cleared_after(next.selected_nodes)
            &&& next == (GraphBrowserApp { selected_nodes: next.selected_nodes, ..mid })
        }
    }

    /// Remove selected nodes and their associated webviews.
    /// Closing the webviews themselves is the embedder's part.
    pub fn remove_selected_nodes(&mut self)
        requires
            old(self).wf(),
        ensures
            final(self).wf(),
            old(self).selection_removed(*final(self)),
            forall|k: NodeKey| #[trigger] old(self).selected_nodes.selected().contains(k) ==> !final(self).graph.node_map().contains_key(k),
            final(self).graph.node_map().dom().subset_of(old(self).graph.node_map().dom()),
            final(self).graph.edge_map().dom().subset_of(old(self).graph.edge_map().dom()),
            final(self).next_placeholder_id == old(self).next_placeholder_id,
            final(self).selected_nodes.order().len() == 0,
    {
        let nodes_to_remove = self.selected_nodes.keys();
        let ghost keys = nodes_to_remove@;
        let ghost mut states: Seq<Self> = seq![*self];
        let mut i: usize = 0;
        while i < nodes_to_remove.len()
            invariant
                i <= keys.len(),
                nodes_to_remove@ == keys,
                keys == old(self).selected_nodes.order(),
                self.wf(),
                self.selected_nodes == old(self).selected_nodes,
                Self::removal_trace(states, keys.take(i as int)),
                states[0] == *old(self),
                states.last() == *self,
                forall|j: int| 0 <= j < i ==> !self.graph.node_map().contains_key(#[trigger] keys[j]),
                self.graph.node_map().dom().subset_of(old(self).graph.node_map().dom()),
                self.graph.edge_map().dom().subset_of(old(self).graph.edge_map().dom()),
                self.next_placeholder_id == old(self).next_placeholder_id,
            decreases keys.len() - i,
        {
            let ghost before = *self;
            let key = nodes_to_remove[i];
            self.remove_node_and_mappings(key);
            proof {
                let prev = states;
                states = states.push(*self);
                assert forall|j: int| 0 <= j < i + 1 implies #[trigger] states[j].removed_one(states[j + 1], keys.take(i + 1)[j]) by {
                    if j < i {
                        assert(prev[j].removed_one(prev[j + 1], keys.take(i as int)[j]));
                    }
                }
                assert forall|j: int| 0 <= j < i + 1 implies !self.graph.node_map().contains_key(#[trigger] keys[j]) by {
                    if j < i {
                        assert(!before.graph.node_map().contains_key(keys[j]));
                    }
                }
            }
            i = i + 1;
        }
        let ghost mid = *self;
        self.selected_nodes.clear();
        proof {
            assert(keys.take(keys.len() as int) =~= keys);
            assert(Self::removal_trace(states, old(self).selected_nodes.order()));
            assert(old(self).removed_in_turn(mid, old(self).selected_nodes.order()));
            assert forall|k: NodeKey| #[trigger] old(self).selected_nodes.selected().contains(k) implies !self.graph.node_map().contains_key(k) by {
                let j = choose|j: int| 0 <= j < keys.len() && keys[j] == k;
                assert(!mid.graph.node_map().contains_key(keys[j]));
            }
        }
    }

    /// What `clear_graph` does: log the clear when persistence is on, empty
    /// the graph, the selection and both webview maps, and mark render state
    /// dirty.
    pub open spec fn graph_cleared(self, next: Self) -> bool {
        &&& next.wf()
        &&& self.requested(next, |r: StoreRequest| logs(r, |e: LogEntry| e is ClearGraph))
        &&& next.graph.is_empty_graph()
        &&& self.selected_nodes.cleared_after(next.selected_nodes)
        &&& next.webview_nodes() == Map::<u64, NodeKey>::empty()
        &&& next.node_webviews() == Map::<u64, WebViewId>::empty()
        &&& next == (GraphBrowserApp {
            graph: next.graph,
            selected_nodes: next.selected_nodes,
            webview_to_node: next.webview_to_node,
            node_to_webview: next.node_to_webview,
            store_requests: next.store_requests,
            egui_state_dirty: true,
            ..self
        })
    }

    /// Clear the entire graph and all webview mappings.
    /// Closing the webviews themselves is the embedder's part.
    pub fn clear_graph(&mut self)
        requires
            old(self).wf(),
        ensures
            old(self).graph_cleared(*final(self)),
    {
        if self.persistence_enabled {
            self.store_requests.push(StoreRequest::Log(LogEntry::ClearGraph));
            assert(self.store_requests@.drop_last() =~= old(self).store_requests@);
        }
        self.graph = Graph::new();
        self.selected_nodes.clear();
        self.webview_to_node.clear();
        self.node_to_webview.clear();
        self.egui_state_dirty = true;
    }

    /// What `clear_graph_and_persistence` does: ask the store to delete
    /// everything when persistence is on, empty the graph, the selection,
    /// both webview maps and the saved webview nodes, restart placeholder
    /// numbering and mark render state dirty.
    pub open spec fn graph_and_store_cleared(self, next: Self) -> bool {
        &&& next.wf()
        &&& self.requested(next, |r: StoreRequest| r is ClearAll)
        &&& next.graph.is_empty_graph()
        &&& self.selected_nodes.cleared_after(next.selected_nodes)
        &&& next.webview_nodes() == Map::<u64, NodeKey>::empty()
        &&& next.node_webviews() == Map::<u64, WebViewId>::empty()
        &&& next.active_webview_nodes@ == Seq::<NodeKey>::empty()
        &&& next == (GraphBrowserApp {
            graph: next.graph,
            selected_nodes: next.selected_nodes,
            webview_to_node: next.webview_to_node,
            node_to_webview: next.node_to_webview,
            active_webview_nodes: next.active_webview_nodes,
            next_placeholder_id: 0,
            store_requests: next.store_requests,
            egui_state_dirty: true,
            ..self
        })
    }

    /// Clear the graph in memory and wipe all persisted graph data.
    pub fn clear_graph_and_persistence(&mut self)
        requires
            old(self).wf(),
        ensures
            old(self).graph_and_store_cleared(*final(self)),
    {
        if self.persistence_enabled {
            self.store_requests.push(StoreRequest::ClearAll);
            assert(self.store_requests@.drop_last() =~= old(self).store_requests@);
        }
        self.graph = Graph::new();
        self.selected_nodes.clear();
        self.webview_to_node.clear();
        self.node_to_webview.clear();
        self.active_webview_nodes = Vec::new();
        self.next_placeholder_id = 0;
        self.egui_state_dirty = true;
    }

    /// What `create_new_node_near_center` does: take the next placeholder
    /// URL, add a node there at `position`, and select it alone.
    pub open spec fn created_near_center(self, next: Self, key: NodeKey, position: Position) -> bool {
        let numbered = GraphBrowserApp { next_placeholder_id: (self.next_placeholder_id + 1) as u32, ..self };
        exists|added: Self| {
            &&& #[trigger] numbered.added_node_synced(added, key, placeholder_url(self.next_placeholder_id), position)
            &&& added.selected_node(next, key, false)
        }
    }

    /// Create a new placeholder node at `position` and select it. The
    /// embedder chooses the position: near the centre of the existing nodes,
    /// with a random offset.
    pub fn create_new_node_near_center(&mut self, position: Position) -> (key: NodeKey)
        requires
            old(self).wf(),
            old(self).graph.node_map().len() < u32::MAX,
            old(self).next_placeholder_id < u32::MAX,
        ensures
            final(self).wf(),
            old(self).created_near_center(*final(self), key, position),
    {
        let placeholder = self.next_placeholder_url();
        let key = self.add_node_and_sync(placeholder, position);
        self.select_node(key, false);
        key
    }
}

} // verus!

verus! {

impl GraphBrowserApp {
    /// What `take_snapshot` does: when persistence is on, ask the store to
    /// write a snapshot of the current graph; nothing else changes.
    pub open spec fn snapshot_requested(self, next: Self) -> bool {
        &&& self.requested(next, |r: StoreRequest| r matches StoreRequest::WriteSnapshot(s) && is_snapshot_of(s, self.graph))
        &&& next == (GraphBrowserApp { store_requests: next.store_requests, ..self })
    }

    /// Take an immediate snapshot (e.g., on shutdown)
    pub fn take_snapshot(&mut self)
        requires
            old(self).wf(),
        ensures
            old(self).snapshot_requested(*final(self)),
    {
        if self.persistence_enabled {
            let snapshot = self.graph.to_snapshot();
            self.store_requests.push(StoreRequest::WriteSnapshot(snapshot));
            assert(self.store_requests@.drop_last() =~= old(self).store_requests@);
        }
    }

    /// Check if it's time for a periodic snapshot: with persistence on and
    /// at least the configured interval elapsed since the last snapshot,
    /// take one.
    pub fn check_periodic_snapshot(&mut self, elapsed_secs: u64)
        requires
            old(self).wf(),
        ensures
            (old(self).persistence_enabled && elapsed_secs >= old(self).snapshot_interval_secs)
                ==> old(self).snapshot_requested(*final(self)),
            !(old(self).persistence_enabled && elapsed_secs >= old(self).snapshot_interval_secs)
                ==> *final(self) == *old(self),
    {
        if self.persistence_enabled && snapshot_due(elapsed_secs, self.snapshot_interval_secs) {
            self.take_snapshot();
        }
    }

    /// Configure the periodic snapshot interval in seconds. Fails without
    /// persistence, and for zero seconds.
    pub fn set_snapshot_interval_secs(&mut self, secs: u64) -> (r: Result<(), String>)
        ensures
            r is Ok <==> (old(self).persistence_enabled && secs > 0),
            r is Ok ==> *final(self) == (GraphBrowserApp { snapshot_interval_secs: secs, ..*old(self) }),
            r is Err ==> *final(self) == *old(self),
            !old(self).persistence_enabled ==> (r matches Err(text) && text@ == "Persistence is not available"@),
            (old(self).persistence_enabled && secs == 0) ==> (r matches Err(text) && text@ == "IO error: "@ + zero_interval_detail()),
    {
        if !self.persistence_enabled {
            return Err(String::from_str("Persistence is not available"));
        }
        match validate_snapshot_interval(secs) {
            Ok(s) => {
                self.snapshot_interval_secs = s;
                Ok(())
            },
            Err(e) => Err(e.message()),
        }
    }

    /// Current periodic snapshot interval in seconds, if persistence is enabled.
    pub fn snapshot_interval_secs(&self) -> (secs: Option<u64>)
        ensures
            secs == (if self.persistence_enabled { Some(self.snapshot_interval_secs) } else { None::<u64> }),
    {
        if self.persistence_enabled {
            Some(self.snapshot_interval_secs)
        } else {
            None
        }
    }

    /// Adopt the graph recovered from another store: selection, webview
    /// maps and saved webview nodes are emptied, placeholder numbering
    /// continues after the graph's highest placeholder, persistence is on
    /// with the default snapshot interval, and any interaction ends.
    /// Requests not yet carried out for the previous store are dropped: the
    /// embedder carries them out before switching.
    pub fn switch_to_recovered_graph(&mut self, graph: Graph)
        requires
            old(self).wf(),
            graph.wf(),
            placeholders_below_max(graph),
        ensures
            final(self).wf(),
            is_next_placeholder(graph, final(self).next_placeholder_id),
            old(self).selected_nodes.cleared_after(final(self).selected_nodes),
            final(self).webview_nodes() == Map::<u64, NodeKey>::empty(),
            final(self).node_webviews() == Map::<u64, WebViewId>::empty(),
            final(self).active_webview_nodes@ == Seq::<NodeKey>::empty(),
            final(self).store_requests@ == Seq::<StoreRequest>::empty(),
            *final(self) == (GraphBrowserApp {
                graph,
                selected_nodes: final(self).selected_nodes,
                webview_to_node: final(self).webview_to_node,
                node_to_webview: final(self).node_to_webview,
                active_webview_nodes: final(self).active_webview_nodes,
                next_placeholder_id: final(self).next_placeholder_id,
                persistence_enabled: true,
                snapshot_interval_secs: DEFAULT_SNAPSHOT_INTERVAL_SECS,
                store_requests: final(self).store_requests,
                egui_state_dirty: true,
                is_interacting: false,
                physics_running_before_interaction: None,
                ..*old(self)
            }),
    {
        let next_placeholder_id = Self::scan_max_placeholder_id(&graph);
        self.graph = graph;
        self.persistence_enabled = true;
        self.snapshot_interval_secs = DEFAULT_SNAPSHOT_INTERVAL_SECS;
        self.store_requests = Vec::new();
        self.selected_nodes.clear();
        self.webview_to_node.clear();
        self.node_to_webview.clear();
        self.active_webview_nodes = Vec::new();
        self.next_placeholder_id = next_placeholder_id;
        self.egui_state_dirty = true;
        self.is_interacting = false;
        self.physics_running_before_interaction = None;
    }
}

} // verus!
