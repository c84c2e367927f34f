//! The intent reducer: every change the user interface or the browser engine
//! asks of the application state arrives as a [`GraphIntent`], and is
//! applied in order.

use std::time::SystemTime;
use vstd::prelude::*;

use super::{placeholder_url, GraphBrowserApp, WebViewId};
use crate::graph::{spec_default_position, EdgeKey, EdgeType, Graph, Node, NodeKey, NodeLifecycle, Position};
use crate::text::same_text;

verus! {

/// Deterministic mutation intent boundary for graph state updates.
pub enum GraphIntent {
    TogglePhysics,
    RequestFitToScreen,
    TogglePhysicsPanel,
    ToggleHelpPanel,
    /// Create a placeholder node; the embedder supplies the position near
    /// the centre of the graph.
    CreateNodeNearCenter,
    CreateNodeAtUrl {
        url: String,
        position: Position,
    },
    RemoveSelectedNodes,
    ClearGraph,
    SelectNode {
        key: NodeKey,
        multi_select: bool,
    },
    SetInteracting {
        interacting: bool,
    },
    SetNodePosition {
        key: NodeKey,
        position: Position,
    },
    SetNodeUrl {
        key: NodeKey,
        new_url: String,
    },
    /// A webview opened another; the embedder supplies the position next to
    /// the opener's node.
    WebViewCreated {
        parent_webview_id: WebViewId,
        child_webview_id: WebViewId,
        initial_url: Option<String>,
    },
    WebViewUrlChanged {
        webview_id: WebViewId,
        new_url: String,
    },
    WebViewHistoryChanged {
        webview_id: WebViewId,
        entries: Vec<String>,
        current: usize,
    },
    WebViewTitleChanged {
        webview_id: WebViewId,
        title: Option<String>,
    },
    SetNodeThumbnail {
        key: NodeKey,
        png_bytes: Vec<u8>,
        width: u32,
        height: u32,
    },
    SetNodeFavicon {
        key: NodeKey,
        rgba: Vec<u8>,
        width: u32,
        height: u32,
    },
}

/// The history index kept for `current` in a history of `len` entries:
/// 0 for an empty history, otherwise `current` clamped to the last entry.
pub open spec fn clamped_index(len: nat, current: usize) -> usize {
    if len == 0 {
        0
    } else if current < len - 1 {
        current
    } else {
        (len - 1) as usize
    }
}

/// Whether a webview's initial URL names the page to show: a non-empty URL
/// other than `about:blank`. Otherwise the new node gets a placeholder URL.
pub open spec fn is_own_url(initial_url: Option<String>) -> bool {
    initial_url matches Some(u) && u@.len() > 0 && u@ != "about:blank"@
}

impl GraphBrowserApp {
    /// `next` is this state with node `key`, when present, replaced by `n`
    /// (which keeps its URL and identity), and render state marked dirty
    /// when `dirty`; an absent node leaves the graph's contents as they are.
    pub open spec fn node_replaced(self, next: Self, key: NodeKey, n: Node, dirty: bool) -> bool {
        &&& next.wf()
        &&& self.graph.node_map().contains_key(key) ==> {
            &&& self.graph.edited_node(next.graph, key, n)
            &&& next == (GraphBrowserApp { graph: next.graph, egui_state_dirty: self.egui_state_dirty || dirty, ..self })
        }
        &&& !self.graph.node_map().contains_key(key) ==> {
            &&& self.graph.same_contents(next.graph)
            &&& next == (GraphBrowserApp { graph: next.graph, ..self })
        }
    }

    /// `next` holds the same graph contents and everything else as this state.
    pub open spec fn graph_untouched(self, next: Self) -> bool {
        &&& next.wf()
        &&& self.graph.same_contents(next.graph)
        &&& next == (GraphBrowserApp { graph: next.graph, ..self })
    }

    fn set_node_position(&mut self, key: NodeKey, position: Position)
        requires
            old(self).wf(),
        ensures
            old(self).node_replaced(*final(self), key, Node { position, ..old(self).graph.node_map()[key] }, false),
    {
        let ghost g0 = self.graph;
        match self.graph.get_node_mut(key) {
            Some(node) => {
                node.position = position;
            },
            None => {},
        }
        proof {
            if g0.node_map().contains_key(key) {
                Graph::lemma_edit_keeps_wf(&g0, &self.graph, key);
            }
        }
    }

    fn set_node_thumbnail(&mut self, key: NodeKey, png_bytes: Vec<u8>, width: u32, height: u32)
        requires
            old(self).wf(),
        ensures
            old(self).node_replaced(*final(self), key, Node {
                thumbnail_png: Some(png_bytes),
                thumbnail_width: width,
                thumbnail_height: height,
                ..old(self).graph.node_map()[key]
            }, true),
    {
        let ghost g0 = self.graph;
        match self.graph.get_node_mut(key) {
            Some(node) => {
                node.thumbnail_png = Some(png_bytes);
                node.thumbnail_width = width;
                node.thumbnail_height = height;
            },
            None => {},
        }
        proof {
            if g0.node_map().contains_key(key) {
                Graph::lemma_edit_keeps_wf(&g0, &self.graph, key);
            }
        }
        if self.graph.contains_node(key) {
            self.egui_state_dirty = true;
        }
    }

    fn set_node_favicon(&mut self, key: NodeKey, rgba: Vec<u8>, width: u32, height: u32)
        requires
            old(self).wf(),
        ensures
            old(self).node_replaced(*final(self), key, Node {
                favicon_rgba: Some(rgba),
                favicon_width: width,
                favicon_height: height,
                ..old(self).graph.node_map()[key]
            }, true),
    {
        let ghost g0 = self.graph;
        match self.graph.get_node_mut(key) {
            Some(node) => {
                node.favicon_rgba = Some(rgba);
                node.favicon_width = width;
                node.favicon_height = height;
            },
            None => {},
        }
        proof {
            if g0.node_map().contains_key(key) {
                Graph::lemma_edit_keeps_wf(&g0, &self.graph, key);
            }
        }
        if self.graph.contains_node(key) {
            self.egui_state_dirty = true;
        }
    }

    fn set_node_history(&mut self, key: NodeKey, entries: Vec<String>, current: usize)
        requires
            old(self).wf(),
        ensures
            old(self).node_replaced(*final(self), key, Node {
                history_entries: entries,
                history_index: clamped_index(entries@.len(), current),
                ..old(self).graph.node_map()[key]
            }, false),
    {
        let ghost g0 = self.graph;
        let len = entries.len();
        let index = if len == 0 {
            0
        } else if current < len - 1 {
            current
        } else {
            len - 1
        };
        match self.graph.get_node_mut(key) {
            Some(node) => {
                node.history_entries = entries;
                node.history_index = index;
            },
            None => {},
        }
        proof {
            if g0.node_map().contains_key(key) {
                Graph::lemma_edit_keeps_wf(&g0, &self.graph, key);
            }
        }
    }

    fn set_node_title(&mut self, key: NodeKey, title: String)
        requires
            old(self).wf(),
        ensures
            old(self).retitled(*final(self), key, title),
    {
        let ghost g0 = self.graph;
        match self.graph.get_node_mut(key) {
            Some(node) => {
                node.title = title;
            },
            None => {},
        }
        proof {
            if g0.node_map().contains_key(key) {
                Graph::lemma_edit_keeps_wf(&g0, &self.graph, key);
            }
        }
    }

    fn record_visit(&mut self, key: NodeKey)
        requires
            old(self).wf(),
        ensures
            old(self).visit_recorded(*final(self), key),
    {
        let ghost g0 = self.graph;
        match self.graph.get_node_mut(key) {
            Some(node) => {
                node.last_visited = SystemTime::now();
            },
            None => {},
        }
        proof {
            if g0.node_map().contains_key(key) {
                Graph::lemma_edit_keeps_wf(&g0, &self.graph, key);
            }
        }
    }
}

} // verus!

verus! {

impl GraphBrowserApp {
    /// What a history change reported by a webview does: the webview's
    /// node, when present, gets the entries, with the current index clamped
    /// to them; an unmapped webview changes nothing.
    pub open spec fn history_changed(self, next: Self, webview_id: WebViewId, entries: Vec<String>, current: usize) -> bool {
        if self.webview_nodes().contains_key(webview_id.id) {
            let key = self.webview_nodes()[webview_id.id];
            self.node_replaced(next, key, Node {
                history_entries: entries,
                history_index: clamped_index(entries@.len(), current),
                ..self.graph.node_map()[key]
            }, false)
        } else {
            next == self
        }
    }

    /// What a title change reported by a webview does: a non-empty title
    /// that differs from the title of the webview's (present) node becomes
    /// that title, is logged, and marks render state dirty. An unmapped
    /// webview, a missing or empty title change nothing; an unchanged title
    /// or an absent node leaves the graph's contents as they are.
    pub open spec fn title_changed(self, next: Self, webview_id: WebViewId, title: Option<String>) -> bool {
        let key = self.webview_nodes()[webview_id.id];
        if !self.webview_nodes().contains_key(webview_id.id) || title is None || title->0@.len() == 0 {
            next == self
        } else if self.graph.node_map().contains_key(key) && self.graph.node_map()[key].title@ != title->0@ {
            self.retitled_and_logged(next, key, title->0)
        } else {
            self.graph_untouched(next)
        }
    }

    /// Node `key`, when present, takes title `title`.
    pub open spec fn retitled(self, next: Self, key: NodeKey, title: String) -> bool {
        self.node_replaced(next, key, Node { title, ..self.graph.node_map()[key] }, false)
    }

    /// Node `key`, when present, gets a new visit time; nothing else changes.
    pub open spec fn visit_recorded(self, next: Self, key: NodeKey) -> bool {
        self.node_replaced(next, key, Node {
            last_visited: next.graph.node_map()[key].last_visited,
            ..self.graph.node_map()[key]
        }, false)
    }

    /// Node `key` takes title `title`, the new title is logged, and render
    /// state is marked dirty.
    pub open spec fn retitled_and_logged(self, next: Self, key: NodeKey, title: String) -> bool {
        exists|retitled: Self, logged: Self| {
            &&& #[trigger] self.retitled(retitled, key, title)
            &&& #[trigger] retitled.title_logged(logged, key)
            &&& next == (GraphBrowserApp { egui_state_dirty: true, ..logged })
        }
    }

    fn webview_title_changed(&mut self, webview_id: WebViewId, title: Option<String>)
        requires
            old(self).wf(),
        ensures
            final(self).wf(),
            old(self).title_changed(*final(self), webview_id, title),
    {
        let node_key = match self.get_node_for_webview(webview_id) {
            Some(k) => k,
            None => return,
        };
        let title = match title {
            Some(t) => t,
            None => return,
        };
        if title.unicode_len() == 0 {
            return;
        }
        let changed = match self.graph.get_node(node_key) {
            Some(node) => !same_text(node.title.as_str(), title.as_str()),
            None => false,
        };
        if !changed {
            proof {
                assert(self.graph.same_contents(self.graph));
            }
            return;
        }
        let ghost title_copy = title;
        self.set_node_title(node_key, title);
        let ghost retitled = *self;
        self.log_title_mutation(node_key);
        let ghost logged = *self;
        self.egui_state_dirty = true;
        assert(old(self).retitled(retitled, node_key, title_copy));
        assert(retitled.title_logged(logged, node_key));
    }

    /// What a URL change reported by a webview does: an empty URL changes
    /// nothing. For an unmapped webview, a node is added at that URL at the
    /// default position and mapped to the webview. For a mapped webview
    /// whose node is present, the node's visit time is renewed and, when
    /// the URL differs, the node moves to it as `update_node_url_and_log`
    /// does.
    pub open spec fn webview_url_changed(self, next: Self, webview_id: WebViewId, new_url: String) -> bool {
        let key = self.webview_nodes()[webview_id.id];
        if new_url@.len() == 0 {
            next == self
        } else if !self.webview_nodes().contains_key(webview_id.id) {
            self.added_and_mapped(next, webview_id, new_url@)
        } else if self.graph.node_map().contains_key(key) {
            self.visited_and_moved(next, key, new_url)
        } else {
            self.graph_untouched(next)
        }
    }

    /// A node is added at `url` at the default position and mapped to the
    /// webview.
    pub open spec fn added_and_mapped(self, next: Self, webview_id: WebViewId, url: Seq<char>) -> bool {
        exists|added_key: NodeKey, added: Self| {
            &&& #[trigger] self.added_node_synced(added, added_key, url, spec_default_position())
            &&& #[trigger] added.webview_mapped(next, webview_id, added_key)
        }
    }

    /// Node `key` gets a new visit time and, when its URL differs from
    /// `new_url`, moves there as `update_node_url_and_log` does.
    pub open spec fn visited_and_moved(self, next: Self, key: NodeKey, new_url: String) -> bool {
        exists|visited: Self| {
            &&& #[trigger] self.visit_recorded(visited, key)
            &&& self.graph.node_map()[key].url@ != new_url@ ==> exists|previous: Option<String>| #[trigger] visited.url_updated(next, key, new_url, previous)
            &&& self.graph.node_map()[key].url@ == new_url@ ==> next == visited
        }
    }

    fn webview_url_changed_apply(&mut self, webview_id: WebViewId, new_url: String)
        requires
            old(self).wf(),
            old(self).graph.node_map().len() < u32::MAX,
        ensures
            final(self).wf(),
            old(self).webview_url_changed(*final(self), webview_id, new_url),
            final(self).graph.node_map().len() <= old(self).graph.node_map().len() + 1,
            final(self).graph.edge_map() == old(self).graph.edge_map(),
            final(self).next_placeholder_id == old(self).next_placeholder_id,
    {
        if new_url.unicode_len() == 0 {
            return;
        }
        let node_key = match self.get_node_for_webview(webview_id) {
            Some(k) => k,
            None => {
                let ghost url_view = new_url@;
                let key = self.add_node_and_sync(new_url, crate::graph::default_position());
                let ghost added = *self;
                self.map_webview_to_node(webview_id, key);
                assert(old(self).added_node_synced(added, key, url_view, spec_default_position()));
                assert(added.webview_mapped(*self, webview_id, key));
                return;
            },
        };
        if !self.graph.contains_node(node_key) {
            proof {
                assert(self.graph.same_contents(self.graph));
            }
            return;
        }
        self.record_visit(node_key);
        let ghost visited = *self;
        let differs = match self.graph.get_node(node_key) {
            Some(node) => !same_text(node.url.as_str(), new_url.as_str()),
            None => false,
        };
        if differs {
            let ghost url_copy = new_url;
            let previous = self.update_node_url_and_log(node_key, new_url);
            assert(visited.url_updated(*self, node_key, url_copy, previous));
        }
        assert(old(self).visit_recorded(visited, node_key));
    }
}

} // verus!

verus! {

impl GraphBrowserApp {
    /// The node of webview `w`, if it is mapped.
    pub open spec fn webview_node(self, w: WebViewId) -> Option<NodeKey> {
        if self.webview_nodes().contains_key(w.id) {
            Some(self.webview_nodes()[w.id])
        } else {
            None
        }
    }

    /// Where the node of a webview opened by `parent` goes: `placement`
    /// when the opener's node is present, the default position otherwise.
    pub open spec fn child_position(self, parent: WebViewId, placement: Position) -> Position {
        if self.webview_node(parent) matches Some(p) && self.graph.node_map().contains_key(p) {
            placement
        } else {
            spec_default_position()
        }
    }

    /// The state once the URL for a new webview's node is chosen: the
    /// placeholder counter advances unless the webview brings its own URL.
    pub open spec fn url_chosen(self, initial_url: Option<String>) -> Self {
        if is_own_url(initial_url) {
            self
        } else {
            GraphBrowserApp { next_placeholder_id: (self.next_placeholder_id + 1) as u32, ..self }
        }
    }

    /// The URL for a new webview's node: its own URL, or the next placeholder.
    pub open spec fn child_url(self, initial_url: Option<String>) -> Seq<char> {
        if is_own_url(initial_url) {
            initial_url->0@
        } else {
            placeholder_url(self.next_placeholder_id)
        }
    }

    /// `next` follows `active` by linking the opener's node to `key` with a
    /// hyperlink edge when the opener is mapped (as `add_edge_and_sync`
    /// does), and is `active` itself otherwise.
    pub open spec fn linked_to_opener(active: Self, next: Self, opener: Option<NodeKey>, key: NodeKey) -> bool {
        match opener {
            Some(p) => exists|e: Option<EdgeKey>| #[trigger] active.edge_added_synced(next, p, key, EdgeType::Hyperlink, e),
            None => next == active,
        }
    }

    /// What a webview creation does: add a node for the new webview (at its
    /// own URL or the next placeholder, next to the opener's node), map the
    /// webview to it, make it active, link the opener's node to it, and
    /// select it alone.
    pub open spec fn webview_created(
        self,
        next: Self,
        parent: WebViewId,
        child: WebViewId,
        initial_url: Option<String>,
        placement: Position,
    ) -> bool {
        exists|key: NodeKey, added: Self, mapped: Self, active: Self, linked: Self| {
            &&& #[trigger] self.url_chosen(initial_url).added_node_synced(added, key, self.child_url(initial_url), self.child_position(parent, placement))
            &&& #[trigger] added.webview_mapped(mapped, child, key)
            &&& #[trigger] mapped.lifecycle_set(active, key, NodeLifecycle::Active)
            &&& #[trigger] Self::linked_to_opener(active, linked, self.webview_node(parent), key)
            &&& linked.selected_node(next, key, false)
        }
    }

    fn child_position_for(&self, parent: WebViewId, placement: Position) -> (p: Position)
        requires
            self.wf(),
        ensures
            p == self.child_position(parent, placement),
    {
        match self.get_node_for_webview(parent) {
            Some(k) => if self.graph.contains_node(k) { placement } else { crate::graph::default_position() },
            None => crate::graph::default_position(),
        }
    }

    fn choose_child_url(&mut self, initial_url: Option<String>) -> (url: String)
        requires
            !is_own_url(initial_url) ==> old(self).next_placeholder_id < u32::MAX,
        ensures
            *final(self) == old(self).url_chosen(initial_url),
            url@ == old(self).child_url(initial_url),
    {
        let own = match &initial_url {
            Some(u) => u.unicode_len() > 0 && !same_text(u.as_str(), "about:blank"),
            None => false,
        };
        proof {
            reveal_strlit("about:blank");
        }
        if own {
            match initial_url {
                Some(u) => u,
                None => String::new(),
            }
        } else {
            self.next_placeholder_url()
        }
    }

    fn link_and_select(&mut self, opener: Option<NodeKey>, key: NodeKey)
        requires
            old(self).wf(),
            old(self).graph.edge_map().len() < u32::MAX,
        ensures
            final(self).wf(),
            exists|linked: Self| #[trigger] Self::linked_to_opener(*old(self), linked, opener, key) && linked.selected_node(*final(self), key, false),
            final(self).graph.node_map() == old(self).graph.node_map(),
            final(self).graph.edge_map().len() <= old(self).graph.edge_map().len() + 1,
            final(self).next_placeholder_id == old(self).next_placeholder_id,
    {
        match opener {
            Some(p) => {
                let e = self.add_edge_and_sync(p, key, EdgeType::Hyperlink);
                assert(old(self).edge_added_synced(*self, p, key, EdgeType::Hyperlink, e));
            },
            None => {},
        }
        let ghost linked = *self;
        self.select_node(key, false);
        assert(Self::linked_to_opener(*old(self), linked, opener, key));
    }

    fn webview_created_apply(&mut self, parent: WebViewId, child: WebViewId, initial_url: Option<String>, placement: Position)
        requires
            old(self).wf(),
            old(self).graph.node_map().len() < u32::MAX,
            old(self).graph.edge_map().len() < u32::MAX,
            !is_own_url(initial_url) ==> old(self).next_placeholder_id < u32::MAX,
        ensures
            final(self).wf(),
            old(self).webview_created(*final(self), parent, child, initial_url, placement),
            final(self).graph.node_map().len() == old(self).graph.node_map().len() + 1,
            final(self).graph.edge_map().len() <= old(self).graph.edge_map().len() + 1,
            final(self).next_placeholder_id <= old(self).next_placeholder_id + 1,
    {
        let ghost initial = initial_url;
        let parent_node = self.get_node_for_webview(parent);
        let position = self.child_position_for(parent, placement);
        let node_url = self.choose_child_url(initial_url);
        let key = self.add_node_and_sync(node_url, position);
        let ghost added = *self;
        self.map_webview_to_node(child, key);
        let ghost mapped = *self;
        self.promote_node_to_active(key);
        let ghost active = *self;
        self.link_and_select(parent_node, key);
        proof {
            let linked = choose|linked: Self| #[trigger] Self::linked_to_opener(active, linked, parent_node, key) && linked.selected_node(*self, key, false);
            assert(old(self).url_chosen(initial).added_node_synced(added, key, old(self).child_url(initial), old(self).child_position(parent, placement)));
            assert(added.webview_mapped(mapped, child, key));
            assert(mapped.lifecycle_set(active, key, NodeLifecycle::Active));
            assert(Self::linked_to_opener(active, linked, old(self).webview_node(parent), key));
        }
    }
}

} // verus!

verus! {

impl GraphBrowserApp {
    /// Whether the graph has room for what `intent` may add: a node for the
    /// creating intents, an edge for a webview creation, and a placeholder
    /// number where a placeholder URL is taken.
    pub open spec fn can_apply(self, intent: GraphIntent) -> bool {
        let nodes = self.graph.node_map().len() < u32::MAX;
        match intent {
            GraphIntent::CreateNodeNearCenter => nodes && self.next_placeholder_id < u32::MAX,
            GraphIntent::CreateNodeAtUrl { .. } => nodes,
            GraphIntent::WebViewCreated { initial_url, .. } => {
                &&& nodes
                &&& self.graph.edge_map().len() < u32::MAX
                &&& !is_own_url(initial_url) ==> self.next_placeholder_id < u32::MAX
            },
            GraphIntent::WebViewUrlChanged { .. } => nodes,
            _ => true,
        }
    }

    /// What applying `intent` does; `placement` is the position the
    /// embedder chose for the node that `CreateNodeNearCenter` or
    /// `WebViewCreated` adds.
    pub open spec fn intent_applied(self, next: Self, intent: GraphIntent, placement: Position) -> bool {
        match intent {
            GraphIntent::TogglePhysics => self.physics_toggled(next),
            GraphIntent::RequestFitToScreen => next == (GraphBrowserApp { fit_to_screen_requested: true, ..self }),
            GraphIntent::TogglePhysicsPanel => next == (GraphBrowserApp { show_physics_panel: !self.show_physics_panel, ..self }),
            GraphIntent::ToggleHelpPanel => next == (GraphBrowserApp { show_help_panel: !self.show_help_panel, ..self }),
            GraphIntent::CreateNodeNearCenter => exists|key: NodeKey| #[trigger] self.created_near_center(next, key, placement),
            GraphIntent::CreateNodeAtUrl { url, position } => self.created_at_url(next, url@, position),
            GraphIntent::RemoveSelectedNodes => self.selection_removed(next),
            GraphIntent::ClearGraph => self.graph_cleared(next),
            GraphIntent::SelectNode { key, multi_select } => self.selected_node(next, key, multi_select),
            GraphIntent::SetInteracting { interacting } => self.interaction_set(next, interacting),
            GraphIntent::SetNodePosition { key, position } =>
                self.node_replaced(next, key, Node { position, ..self.graph.node_map()[key] }, false),
            GraphIntent::SetNodeUrl { key, new_url } =>
                exists|previous: Option<String>| #[trigger] self.url_updated(next, key, new_url, previous),
            GraphIntent::WebViewCreated { parent_webview_id, child_webview_id, initial_url } =>
                self.webview_created(next, parent_webview_id, child_webview_id, initial_url, placement),
            GraphIntent::WebViewUrlChanged { webview_id, new_url } => self.webview_url_changed(next, webview_id, new_url),
            GraphIntent::WebViewHistoryChanged { webview_id, entries, current } =>
                self.history_changed(next, webview_id, entries, current),
            GraphIntent::WebViewTitleChanged { webview_id, title } => self.title_changed(next, webview_id, title),
            GraphIntent::SetNodeThumbnail { key, png_bytes, width, height } => self.node_replaced(next, key, Node {
                thumbnail_png: Some(png_bytes),
                thumbnail_width: width,
                thumbnail_height: height,
                ..self.graph.node_map()[key]
            }, true),
            GraphIntent::SetNodeFavicon { key, rgba, width, height } => self.node_replaced(next, key, Node {
                favicon_rgba: Some(rgba),
                favicon_width: width,
                favicon_height: height,
                ..self.graph.node_map()[key]
            }, true),
        }
    }

    /// A node is added at `url` and `position`, and selected alone.
    pub open spec fn created_at_url(self, next: Self, url: Seq<char>, position: Position) -> bool {
        exists|key: NodeKey, added: Self| {
            &&& #[trigger] self.added_node_synced(added, key, url, position)
            &&& #[trigger] added.selected_node(next, key, false)
        }
    }

    /// `next` has at most one node, one edge and one placeholder number more
    /// than this state.
    pub open spec fn grows_by_at_most_one(self, next: Self) -> bool {
        &&& next.graph.node_map().len() <= self.graph.node_map().len() + 1
        &&& next.graph.edge_map().len() <= self.graph.edge_map().len() + 1
        &&& next.next_placeholder_id <= self.next_placeholder_id + 1
    }

    fn create_node_at_url(&mut self, url: String, position: Position)
        requires
            old(self).wf(),
            old(self).graph.node_map().len() < u32::MAX,
        ensures
            final(self).wf(),
            old(self).created_at_url(*final(self), url@, position),
            final(self).graph.node_map().len() == old(self).graph.node_map().len() + 1,
            final(self).graph.edge_map() == old(self).graph.edge_map(),
            final(self).next_placeholder_id == old(self).next_placeholder_id,
    {
        let ghost url_view = url@;
        let key = self.add_node_and_sync(url, position);
        let ghost added = *self;
        self.select_node(key, false);
        assert(old(self).added_node_synced(added, key, url_view, position));
        assert(added.selected_node(*self, key, false));
    }

    /// Apply one intent.
    pub fn apply_intent(&mut self, intent: GraphIntent, placement: Position)
        requires
            old(self).wf(),
            old(self).can_apply(intent),
        ensures
            final(self).wf(),
            old(self).intent_applied(*final(self), intent, placement),
            old(self).grows_by_at_most_one(*final(self)),
    {
        let ghost g0 = self.graph;
        match intent {
            GraphIntent::TogglePhysics => self.toggle_physics(),
            GraphIntent::RequestFitToScreen => self.request_fit_to_screen(),
            GraphIntent::TogglePhysicsPanel => self.toggle_physics_panel(),
            GraphIntent::ToggleHelpPanel => self.toggle_help_panel(),
            GraphIntent::CreateNodeNearCenter => {
                let key = self.create_new_node_near_center(placement);
            },
            GraphIntent::CreateNodeAtUrl { url, position } => self.create_node_at_url(url, position),
            GraphIntent::RemoveSelectedNodes => {
                self.remove_selected_nodes();
                proof {
                    vstd::set_lib::lemma_len_subset(self.graph.node_map().dom(), g0.node_map().dom());
                    vstd::set_lib::lemma_len_subset(self.graph.edge_map().dom(), g0.edge_map().dom());
                }
            },
            GraphIntent::ClearGraph => self.clear_graph(),
            GraphIntent::SelectNode { key, multi_select } => self.select_node(key, multi_select),
            GraphIntent::SetInteracting { interacting } => self.set_interacting(interacting),
            GraphIntent::SetNodePosition { key, position } => {
                self.set_node_position(key, position);
                proof {
                    if g0.node_map().contains_key(key) {
                        assert(self.graph.node_map().dom() =~= g0.node_map().dom());
                    }
                }
            },
            GraphIntent::SetNodeUrl { key, new_url } => {
                let ghost url_copy = new_url;
                let previous = self.update_node_url_and_log(key, new_url);
                assert(old(self).url_updated(*self, key, url_copy, previous));
                proof {
                    if g0.node_map().contains_key(key) {
                        assert(self.graph.node_map().dom() =~= g0.node_map().dom());
                    }
                }
            },
            GraphIntent::WebViewCreated { parent_webview_id, child_webview_id, initial_url } =>
                self.webview_created_apply(parent_webview_id, child_webview_id, initial_url, placement),
            GraphIntent::WebViewUrlChanged { webview_id, new_url } => self.webview_url_changed_apply(webview_id, new_url),
            GraphIntent::WebViewHistoryChanged { webview_id, entries, current } => {
                match self.get_node_for_webview(webview_id) {
                    Some(key) => {
                        self.set_node_history(key, entries, current);
                        proof {
                            if g0.node_map().contains_key(key) {
                                assert(self.graph.node_map().dom() =~= g0.node_map().dom());
                            }
                        }
                    },
                    None => {},
                }
            },
            GraphIntent::WebViewTitleChanged { webview_id, title } => {
                self.webview_title_changed(webview_id, title);
                proof {
                    assert(self.graph.node_map().dom() =~= g0.node_map().dom());
                }
            },
            GraphIntent::SetNodeThumbnail { key, png_bytes, width, height } => {
                self.set_node_thumbnail(key, png_bytes, width, height);
                proof {
                    if g0.node_map().contains_key(key) {
                        assert(self.graph.node_map().dom() =~= g0.node_map().dom());
                    }
                }
            },
            GraphIntent::SetNodeFavicon { key, rgba, width, height } => {
                self.set_node_favicon(key, rgba, width, height);
                proof {
                    if g0.node_map().contains_key(key) {
                        assert(self.graph.node_map().dom() =~= g0.node_map().dom());
                    }
                }
            },
        }
    }
}

} // verus!

verus! {

impl GraphBrowserApp {
    /// `states` runs from its first state to its last by applying
    /// `intents` in turn, each with its placement.
    pub open spec fn intent_trace(states: Seq<Self>, intents: Seq<(GraphIntent, Position)>) -> bool {
        &&& states.len() == intents.len() + 1
        &&& forall|i: int| 0 <= i < intents.len() ==> #[trigger] states[i].intent_applied(states[i + 1], intents[i].0, intents[i].1)
    }

    /// `next` follows from this state by applying `intents` in order.
    pub open spec fn intents_applied(self, next: Self, intents: Seq<(GraphIntent, Position)>) -> bool {
        exists|states: Seq<Self>| {
            &&& #[trigger] Self::intent_trace(states, intents)
            &&& states[0] == self
            &&& states.last() == next
        }
    }

    /// Apply a batch of intents deterministically in insertion order. Each
    /// intent comes with the placement for the node it may add.
    pub fn apply_intents(&mut self, intents: Vec<(GraphIntent, Position)>)
        requires
            old(self).wf(),
            old(self).graph.node_map().len() + intents@.len() < u32::MAX,
            old(self).graph.edge_map().len() + intents@.len() < u32::MAX,
            old(self).next_placeholder_id + intents@.len() < u32::MAX,
        ensures
            final(self).wf(),
            old(self).intents_applied(*final(self), intents@),
            final(self).graph.node_map().len() <= old(self).graph.node_map().len() + intents@.len(),
            final(self).graph.edge_map().len() <= old(self).graph.edge_map().len() + intents@.len(),
            final(self).next_placeholder_id <= old(self).next_placeholder_id + intents@.len(),
    {
        let ghost all = intents@;
        let mut rest = intents;
        let ghost mut states: Seq<Self> = seq![*self];
        let ghost mut done: int = 0;
        while rest.len() > 0
            invariant
                0 <= done <= all.len(),
                rest@ == all.skip(done),
                self.wf(),
                self.graph.node_map().len() <= old(self).graph.node_map().len() + done,
                self.graph.edge_map().len() <= old(self).graph.edge_map().len() + done,
                self.next_placeholder_id <= old(self).next_placeholder_id + done,
                old(self).graph.node_map().len() + all.len() < u32::MAX,
                old(self).graph.edge_map().len() + all.len() < u32::MAX,
                old(self).next_placeholder_id + all.len() < u32::MAX,
                Self::intent_trace(states, all.take(done)),
                states[0] == *old(self),
                states.last() == *self,
            decreases rest@.len(),
        {
            let (intent, placement) = rest.remove(0);
            assert(all[done] == (intent, placement)) by {
                assert(all.skip(done)[0] == all[done]);
            }
            self.apply_intent(intent, placement);
            proof {
                let prev = states;
                states = states.push(*self);
                assert forall|j: int| 0 <= j < done + 1 implies #[trigger] states[j].intent_applied(states[j + 1], all.take(done + 1)[j].0, all.take(done + 1)[j].1) by {
                    if j < done {
                        assert(prev[j].intent_applied(prev[j + 1], all.take(done)[j].0, all.take(done)[j].1));
                    }
                }
                done = done + 1;
                assert(rest@ =~= all.skip(done));
            }
        }
        proof {
            assert(all.take(done) =~= all);
        }
    }
}

} // verus!
