//! Applying intents is deterministic up to what the library does not
//! choose itself: the keys the graph store hands out, the identities drawn
//! at random and the visit times read from the clock.

use vstd::prelude::*;

use super::intent::{clamped_index, GraphIntent};
use super::laws::lemma_intent_trace_step;
use super::{GraphBrowserApp, StoreRequest};
use crate::graph::{spec_default_position, EdgeKey, EdgeType, Graph, Node, NodeKey, NodeLifecycle, Position};
use crate::persistence::types::LogEntry;

verus! {

/// The text of each string.
pub open spec fn texts(v: Seq<String>) -> Seq<Seq<char>> {
    v.map_values(|s: String| s@)
}

/// The bytes held, if any.
pub open spec fn bytes_of(o: Option<Vec<u8>>) -> Option<Seq<u8>> {
    match o {
        Some(v) => Some(v@),
        None => None,
    }
}

/// Two nodes agree on everything but their identity and visit time.
pub open spec fn node_alike(a: Node, b: Node) -> bool {
    &&& a.url@ == b.url@
    &&& a.title@ == b.title@
    &&& a.position == b.position
    &&& a.velocity == b.velocity
    &&& a.is_selected == b.is_selected
    &&& a.is_pinned == b.is_pinned
    &&& a.lifecycle == b.lifecycle
    &&& texts(a.history_entries@) == texts(b.history_entries@)
    &&& a.history_index == b.history_index
    &&& bytes_of(a.thumbnail_png) == bytes_of(b.thumbnail_png)
    &&& a.thumbnail_width == b.thumbnail_width
    &&& a.thumbnail_height == b.thumbnail_height
    &&& bytes_of(a.favicon_rgba) == bytes_of(b.favicon_rgba)
    &&& a.favicon_width == b.favicon_width
    &&& a.favicon_height == b.favicon_height
}

/// Two graphs hold the same nodes under the same keys (up to identities
/// and visit times), the same edges and the same URL index.
pub open spec fn graph_alike(a: Graph, b: Graph) -> bool {
    &&& a.node_map().dom() == b.node_map().dom()
    &&& forall|k: NodeKey| #[trigger] a.node_map().contains_key(k) ==> node_alike(a.node_map()[k], b.node_map()[k])
    &&& a.edge_map() == b.edge_map()
    &&& a.url_index() == b.url_index()
}

/// Two log entries record the same change, whatever node identities they name.
pub open spec fn entry_alike(a: LogEntry, b: LogEntry) -> bool {
    match a {
        LogEntry::AddNode { url, position_x, position_y, .. } =>
            b matches LogEntry::AddNode { url: u, position_x: x, position_y: y, .. } && url@ == u@ && position_x == x && position_y == y,
        LogEntry::AddEdge { edge_type, .. } => b matches LogEntry::AddEdge { edge_type: t, .. } && edge_type == t,
        LogEntry::UpdateNodeTitle { title, .. } => b matches LogEntry::UpdateNodeTitle { title: t, .. } && title@ == t@,
        LogEntry::PinNode { is_pinned, .. } => b matches LogEntry::PinNode { is_pinned: p, .. } && is_pinned == p,
        LogEntry::RemoveNode { .. } => b is RemoveNode,
        LogEntry::ClearGraph => b is ClearGraph,
        LogEntry::UpdateNodeUrl { new_url, .. } => b matches LogEntry::UpdateNodeUrl { new_url: u, .. } && new_url@ == u@,
    }
}

/// Two store requests ask for the same work, log entries compared as
/// `entry_alike` does.
pub open spec fn request_alike(a: StoreRequest, b: StoreRequest) -> bool {
    match a {
        StoreRequest::Log(e) => b matches StoreRequest::Log(f) && entry_alike(e, f),
        _ => a == b,
    }
}

/// Two request lists agree request by request.
pub open spec fn requests_alike(a: Seq<StoreRequest>, b: Seq<StoreRequest>) -> bool {
    &&& a.len() == b.len()
    &&& forall|i: int| 0 <= i < a.len() ==> request_alike(#[trigger] a[i], b[i])
}

/// Two states agree on everything except node identities and visit times
/// (and the identity texts in logged requests): the same nodes under the
/// same keys, edges, URL index, selection, webview maps, requests and flags.
pub open spec fn alike(a: GraphBrowserApp, b: GraphBrowserApp) -> bool {
    &&& graph_alike(a.graph, b.graph)
    &&& a.selected_nodes.order() == b.selected_nodes.order()
    &&& a.selected_nodes.primary_key() == b.selected_nodes.primary_key()
    &&& a.selected_nodes.revision_number() == b.selected_nodes.revision_number()
    &&& a.webview_nodes() == b.webview_nodes()
    &&& a.node_webviews() == b.node_webviews()
    &&& a.active_webview_nodes@ == b.active_webview_nodes@
    &&& requests_alike(a.store_requests@, b.store_requests@)
    &&& a.physics_running == b.physics_running
    &&& a.physics_running_before_interaction == b.physics_running_before_interaction
    &&& a.next_placeholder_id == b.next_placeholder_id
    &&& a.is_interacting == b.is_interacting
    &&& a.show_physics_panel == b.show_physics_panel
    &&& a.show_help_panel == b.show_help_panel
    &&& a.fit_to_screen_requested == b.fit_to_screen_requested
    &&& a.persistence_enabled == b.persistence_enabled
    &&& a.snapshot_interval_secs == b.snapshot_interval_secs
    &&& a.egui_state_dirty == b.egui_state_dirty
}

/// The graph store handed out the same node and edge keys in both states.
pub open spec fn same_keys(a: GraphBrowserApp, b: GraphBrowserApp) -> bool {
    &&& a.graph.node_map().dom() == b.graph.node_map().dom()
    &&& a.graph.edge_map().dom() == b.graph.edge_map().dom()
}

proof fn lemma_requests_step(p1: Seq<StoreRequest>, p2: Seq<StoreRequest>, n1: Seq<StoreRequest>, n2: Seq<StoreRequest>)
    requires
        requests_alike(p1, p2),
        n1.len() == p1.len() + 1,
        n2.len() == p2.len() + 1,
        n1.drop_last() == p1,
        n2.drop_last() == p2,
        request_alike(n1.last(), n2.last()),
    ensures
        requests_alike(n1, n2),
{
    assert forall|i: int| 0 <= i < n1.len() implies request_alike(#[trigger] n1[i], n2[i]) by {
        if i < p1.len() {
            assert(n1[i] == n1.drop_last()[i]);
            assert(n2[i] == n2.drop_last()[i]);
        }
    }
}

/// Editing a node in place, with alike replacements, keeps states alike.
proof fn lemma_node_replaced_alike(
    s1: GraphBrowserApp, s2: GraphBrowserApp, n1: GraphBrowserApp, n2: GraphBrowserApp,
    key: NodeKey, m1: Node, m2: Node, dirty: bool,
)
    requires
        alike(s1, s2),
        s1.graph.node_map().contains_key(key) ==> node_alike(m1, m2),
        s1.node_replaced(n1, key, m1, dirty),
        s2.node_replaced(n2, key, m2, dirty),
    ensures
        alike(n1, n2),
{
    if s1.graph.node_map().contains_key(key) {
        assert(graph_alike(n1.graph, n2.graph)) by {
            assert(n1.graph.node_map().dom() == n2.graph.node_map().dom());
            assert forall|k: NodeKey| #[trigger] n1.graph.node_map().contains_key(k) implies node_alike(n1.graph.node_map()[k], n2.graph.node_map()[k]) by {
                if k != key {
                    assert(s1.graph.node_map().contains_key(k));
                }
            }
        }
    } else {
        assert(graph_alike(n1.graph, n2.graph)) by {
            assert forall|k: NodeKey| #[trigger] n1.graph.node_map().contains_key(k) implies node_alike(n1.graph.node_map()[k], n2.graph.node_map()[k]) by {
                assert(s1.graph.node_map().contains_key(k));
            }
        }
    }
}

proof fn lemma_lifecycle_set_alike(s1: GraphBrowserApp, s2: GraphBrowserApp, n1: GraphBrowserApp, n2: GraphBrowserApp, key: NodeKey, lifecycle: NodeLifecycle)
    requires
        alike(s1, s2),
        s1.lifecycle_set(n1, key, lifecycle),
        s2.lifecycle_set(n2, key, lifecycle),
    ensures
        alike(n1, n2),
{
    let m1 = Node { lifecycle, ..s1.graph.node_map()[key] };
    let m2 = Node { lifecycle, ..s2.graph.node_map()[key] };
    if s1.graph.node_map().contains_key(key) {
        assert(s1.graph.node_map().contains_key(key) ==> node_alike(s1.graph.node_map()[key], s2.graph.node_map()[key]));
    }
    assert(s1.node_replaced(n1, key, m1, false));
    assert(s2.node_replaced(n2, key, m2, false));
    if s1.graph.node_map().contains_key(key) {
        lemma_node_replaced_alike(s1, s2, n1, n2, key, m1, m2, false);
    } else {
        assert(graph_alike(n1.graph, n2.graph)) by {
            assert forall|k: NodeKey| #[trigger] n1.graph.node_map().contains_key(k) implies node_alike(n1.graph.node_map()[k], n2.graph.node_map()[k]) by {
                assert(s1.graph.node_map().contains_key(k));
            }
        }
    }
}

proof fn lemma_selected_alike(s1: GraphBrowserApp, s2: GraphBrowserApp, n1: GraphBrowserApp, n2: GraphBrowserApp, key: NodeKey, multi_select: bool)
    requires
        alike(s1, s2),
        s1.selected_node(n1, key, multi_select),
        s2.selected_node(n2, key, multi_select),
    ensures
        alike(n1, n2),
        n1.graph == s1.graph,
        n2.graph == s2.graph,
{
    assert(s1.selected_nodes.selected() == s2.selected_nodes.selected());
}

proof fn lemma_webview_mapped_alike(s1: GraphBrowserApp, s2: GraphBrowserApp, n1: GraphBrowserApp, n2: GraphBrowserApp, w: super::WebViewId, key: NodeKey)
    requires
        alike(s1, s2),
        s1.webview_mapped(n1, w, key),
        s2.webview_mapped(n2, w, key),
    ensures
        alike(n1, n2),
        n1.graph == s1.graph,
        n2.graph == s2.graph,
{
}

/// Adding a node under the same key in both states keeps them alike.
proof fn lemma_added_node_alike(s1: GraphBrowserApp, s2: GraphBrowserApp, n1: GraphBrowserApp, n2: GraphBrowserApp, key: NodeKey, url: Seq<char>, position: Position)
    requires
        alike(s1, s2),
        s1.added_node_synced(n1, key, url, position),
        s2.added_node_synced(n2, key, url, position),
    ensures
        alike(n1, n2),
{
    assert(texts(n1.graph.node_map()[key].history_entries@) =~= texts(n2.graph.node_map()[key].history_entries@));
    assert(graph_alike(n1.graph, n2.graph)) by {
        assert forall|k: NodeKey| #[trigger] n1.graph.node_map().contains_key(k) implies node_alike(n1.graph.node_map()[k], n2.graph.node_map()[k]) by {
            if k != key {
                assert(s1.graph.node_map().contains_key(k));
            }
        }
    }
    if s1.persistence_enabled {
        lemma_requests_step(s1.store_requests@, s2.store_requests@, n1.store_requests@, n2.store_requests@);
    }
}


/// Adding an edge under the same key in both states keeps them alike.
proof fn lemma_edge_added_alike(
    s1: GraphBrowserApp, s2: GraphBrowserApp, n1: GraphBrowserApp, n2: GraphBrowserApp,
    from: NodeKey, to: NodeKey, edge_type: EdgeType, e: Option<EdgeKey>,
)
    requires
        alike(s1, s2),
        s1.edge_added_synced(n1, from, to, edge_type, e),
        s2.edge_added_synced(n2, from, to, edge_type, e),
    ensures
        alike(n1, n2),
{
    assert(graph_alike(n1.graph, n2.graph)) by {
        assert forall|k: NodeKey| #[trigger] n1.graph.node_map().contains_key(k) implies node_alike(n1.graph.node_map()[k], n2.graph.node_map()[k]) by {
            assert(s1.graph.node_map().contains_key(k));
        }
    }
    if s1.persistence_enabled && s1.graph.node_map().contains_key(from) && s1.graph.node_map().contains_key(to) {
        lemma_requests_step(s1.store_requests@, s2.store_requests@, n1.store_requests@, n2.store_requests@);
    }
}

proof fn lemma_title_logged_alike(s1: GraphBrowserApp, s2: GraphBrowserApp, n1: GraphBrowserApp, n2: GraphBrowserApp, key: NodeKey)
    requires
        alike(s1, s2),
        s1.title_logged(n1, key),
        s2.title_logged(n2, key),
    ensures
        alike(n1, n2),
{
    if s1.persistence_enabled && s1.graph.node_map().contains_key(key) {
        assert(node_alike(s1.graph.node_map()[key], s2.graph.node_map()[key]));
        lemma_requests_step(s1.store_requests@, s2.store_requests@, n1.store_requests@, n2.store_requests@);
    }
}

proof fn lemma_retitled_and_logged_alike(s1: GraphBrowserApp, s2: GraphBrowserApp, n1: GraphBrowserApp, n2: GraphBrowserApp, key: NodeKey, title: String)
    requires
        alike(s1, s2),
        s1.retitled_and_logged(n1, key, title),
        s2.retitled_and_logged(n2, key, title),
    ensures
        alike(n1, n2),
{
    let (r1, l1) = choose|retitled: GraphBrowserApp, logged: GraphBrowserApp| {
        &&& #[trigger] s1.retitled(retitled, key, title)
        &&& #[trigger] retitled.title_logged(logged, key)
        &&& n1 == (GraphBrowserApp { egui_state_dirty: true, ..logged })
    };
    let (r2, l2) = choose|retitled: GraphBrowserApp, logged: GraphBrowserApp| {
        &&& #[trigger] s2.retitled(retitled, key, title)
        &&& #[trigger] retitled.title_logged(logged, key)
        &&& n2 == (GraphBrowserApp { egui_state_dirty: true, ..logged })
    };
    if s1.graph.node_map().contains_key(key) {
        assert(node_alike(s1.graph.node_map()[key], s2.graph.node_map()[key]));
    }
    let t1 = Node { title, ..s1.graph.node_map()[key] };
    let t2 = Node { title, ..s2.graph.node_map()[key] };
    lemma_node_replaced_alike(s1, s2, r1, r2, key, t1, t2, false);
    lemma_title_logged_alike(r1, r2, l1, l2, key);
}

proof fn lemma_visit_recorded_alike(s1: GraphBrowserApp, s2: GraphBrowserApp, n1: GraphBrowserApp, n2: GraphBrowserApp, key: NodeKey)
    requires
        alike(s1, s2),
        s1.visit_recorded(n1, key),
        s2.visit_recorded(n2, key),
    ensures
        alike(n1, n2),
{
    if s1.graph.node_map().contains_key(key) {
        assert(node_alike(s1.graph.node_map()[key], s2.graph.node_map()[key]));
    }
    let v1 = Node { last_visited: n1.graph.node_map()[key].last_visited, ..s1.graph.node_map()[key] };
    let v2 = Node { last_visited: n2.graph.node_map()[key].last_visited, ..s2.graph.node_map()[key] };
    lemma_node_replaced_alike(s1, s2, n1, n2, key, v1, v2, false);
}

proof fn lemma_url_updated_alike(
    s1: GraphBrowserApp, s2: GraphBrowserApp, n1: GraphBrowserApp, n2: GraphBrowserApp,
    key: NodeKey, new_url: String, p1: Option<String>, p2: Option<String>,
)
    requires
        alike(s1, s2),
        s1.url_updated(n1, key, new_url, p1),
        s2.url_updated(n2, key, new_url, p2),
    ensures
        alike(n1, n2),
{
    if s1.graph.node_map().contains_key(key) {
        assert(node_alike(s1.graph.node_map()[key], s2.graph.node_map()[key]));
        assert(graph_alike(n1.graph, n2.graph)) by {
            assert forall|k: NodeKey| #[trigger] n1.graph.node_map().contains_key(k) implies node_alike(n1.graph.node_map()[k], n2.graph.node_map()[k]) by {
                if k != key {
                    assert(s1.graph.node_map().contains_key(k));
                }
            }
        }
        if s1.persistence_enabled {
            lemma_requests_step(s1.store_requests@, s2.store_requests@, n1.store_requests@, n2.store_requests@);
        }
    } else {
        assert(graph_alike(n1.graph, n2.graph)) by {
            assert forall|k: NodeKey| #[trigger] n1.graph.node_map().contains_key(k) implies node_alike(n1.graph.node_map()[k], n2.graph.node_map()[k]) by {
                assert(s1.graph.node_map().contains_key(k));
            }
        }
    }
}

proof fn lemma_removed_one_alike(s1: GraphBrowserApp, s2: GraphBrowserApp, n1: GraphBrowserApp, n2: GraphBrowserApp, key: NodeKey)
    requires
        alike(s1, s2),
        s1.removed_one(n1, key),
        s2.removed_one(n2, key),
    ensures
        alike(n1, n2),
{
    assert(graph_alike(n1.graph, n2.graph)) by {
        assert forall|k: NodeKey| #[trigger] n1.graph.node_map().contains_key(k) implies node_alike(n1.graph.node_map()[k], n2.graph.node_map()[k]) by {
            assert(s1.graph.node_map().contains_key(k));
        }
        if s1.graph.node_map().contains_key(key) {
            assert(s1.graph.node_map()[key].url@ == s2.graph.node_map()[key].url@);
        }
    }
    if s1.persistence_enabled && s1.graph.node_map().contains_key(key) {
        lemma_requests_step(s1.store_requests@, s2.store_requests@, n1.store_requests@, n2.store_requests@);
    }
}

proof fn lemma_removal_traces_alike(a: Seq<GraphBrowserApp>, b: Seq<GraphBrowserApp>, keys: Seq<NodeKey>, i: int)
    requires
        GraphBrowserApp::removal_trace(a, keys),
        GraphBrowserApp::removal_trace(b, keys),
        alike(a[0], b[0]),
        0 <= i <= keys.len(),
    ensures
        alike(a[i], b[i]),
    decreases i,
{
    if i > 0 {
        let h = i - 1;
        lemma_removal_traces_alike(a, b, keys, h);
        assert(a[h].removed_one(a[h + 1], keys[h]));
        assert(b[h].removed_one(b[h + 1], keys[h]));
        lemma_removed_one_alike(a[h], b[h], a[i], b[i], keys[h]);
    }
}

proof fn lemma_selection_removed_alike(s1: GraphBrowserApp, s2: GraphBrowserApp, n1: GraphBrowserApp, n2: GraphBrowserApp)
    requires
        alike(s1, s2),
        s1.selection_removed(n1),
        s2.selection_removed(n2),
    ensures
        alike(n1, n2),
{
    let keys = s1.selected_nodes.order();
    let m1 = choose|mid: GraphBrowserApp| {
        &&& #[trigger] s1.removed_in_turn(mid, s1.selected_nodes.order())
        &&& mid.selected_nodes.cleared_after(n1.selected_nodes)
        &&& n1 == (GraphBrowserApp { selected_nodes: n1.selected_nodes, ..mid })
    };
    let m2 = choose|mid: GraphBrowserApp| {
        &&& #[trigger] s2.removed_in_turn(mid, s2.selected_nodes.order())
        &&& mid.selected_nodes.cleared_after(n2.selected_nodes)
        &&& n2 == (GraphBrowserApp { selected_nodes: n2.selected_nodes, ..mid })
    };
    let a = choose|states: Seq<GraphBrowserApp>| {
        &&& #[trigger] GraphBrowserApp::removal_trace(states, keys)
        &&& states[0] == s1
        &&& states.last() == m1
    };
    let b = choose|states: Seq<GraphBrowserApp>| {
        &&& #[trigger] GraphBrowserApp::removal_trace(states, keys)
        &&& states[0] == s2
        &&& states.last() == m2
    };
    lemma_removal_traces_alike(a, b, keys, keys.len() as int);
}


/// Where both runs added one key to the same set of keys and ended with the
/// same set, they added the same key.
proof fn lemma_same_new_key<A>(before: Set<A>, after: Set<A>, k1: A, k2: A)
    requires
        !before.contains(k1),
        !before.contains(k2),
        before.insert(k1) == after,
        before.insert(k2) == after,
    ensures
        k1 == k2,
{
    assert(after.contains(k1));
}

proof fn lemma_created_at_alike(
    s1: GraphBrowserApp, s2: GraphBrowserApp, n1: GraphBrowserApp, n2: GraphBrowserApp,
    url: Seq<char>, position: Position,
    k1: NodeKey, a1: GraphBrowserApp, k2: NodeKey, a2: GraphBrowserApp,
)
    requires
        alike(s1, s2),
        same_keys(n1, n2),
        s1.added_node_synced(a1, k1, url, position),
        a1.selected_node(n1, k1, false),
        s2.added_node_synced(a2, k2, url, position),
        a2.selected_node(n2, k2, false),
    ensures
        alike(n1, n2),
{
    assert(n1.graph == a1.graph);
    assert(n2.graph == a2.graph);
    assert(a1.graph.node_map().dom() == s1.graph.node_map().dom().insert(k1));
    assert(a2.graph.node_map().dom() == s2.graph.node_map().dom().insert(k2));
    lemma_same_new_key(s1.graph.node_map().dom(), n1.graph.node_map().dom(), k1, k2);
    lemma_added_node_alike(s1, s2, a1, a2, k1, url, position);
    lemma_selected_alike(a1, a2, n1, n2, k1, false);
}

proof fn lemma_webview_created_alike(
    s1: GraphBrowserApp, s2: GraphBrowserApp, n1: GraphBrowserApp, n2: GraphBrowserApp,
    parent: super::WebViewId, child: super::WebViewId, initial_url: Option<String>, placement: Position,
)
    requires
        alike(s1, s2),
        same_keys(n1, n2),
        s1.webview_created(n1, parent, child, initial_url, placement),
        s2.webview_created(n2, parent, child, initial_url, placement),
    ensures
        alike(n1, n2),
{
    let (k1, a1, m1, v1, l1) = choose|key: NodeKey, added: GraphBrowserApp, mapped: GraphBrowserApp, active: GraphBrowserApp, linked: GraphBrowserApp| {
        &&& #[trigger] s1.url_chosen(initial_url).added_node_synced(added, key, s1.child_url(initial_url), s1.child_position(parent, placement))
        &&& #[trigger] added.webview_mapped(mapped, child, key)
        &&& #[trigger] mapped.lifecycle_set(active, key, NodeLifecycle::Active)
        &&& #[trigger] GraphBrowserApp::linked_to_opener(active, linked, s1.webview_node(parent), key)
        &&& linked.selected_node(n1, key, false)
    };
    let (k2, a2, m2, v2, l2) = choose|key: NodeKey, added: GraphBrowserApp, mapped: GraphBrowserApp, active: GraphBrowserApp, linked: GraphBrowserApp| {
        &&& #[trigger] s2.url_chosen(initial_url).added_node_synced(added, key, s2.child_url(initial_url), s2.child_position(parent, placement))
        &&& #[trigger] added.webview_mapped(mapped, child, key)
        &&& #[trigger] mapped.lifecycle_set(active, key, NodeLifecycle::Active)
        &&& #[trigger] GraphBrowserApp::linked_to_opener(active, linked, s2.webview_node(parent), key)
        &&& linked.selected_node(n2, key, false)
    };
    let u1 = s1.url_chosen(initial_url);
    let u2 = s2.url_chosen(initial_url);
    let opener = s1.webview_node(parent);
    assert(s2.webview_node(parent) == opener);
    assert(s1.child_url(initial_url) == s2.child_url(initial_url));
    assert(s1.child_position(parent, placement) == s2.child_position(parent, placement));
    // The node keys: every step after the addition keeps the graph's keys.
    assert(n1.graph == l1.graph);
    assert(n2.graph == l2.graph);
    assert(v1.graph.node_map().dom() == a1.graph.node_map().dom());
    assert(v2.graph.node_map().dom() == a2.graph.node_map().dom());
    assert(v1.graph.edge_map() == s1.graph.edge_map());
    assert(v2.graph.edge_map() == s2.graph.edge_map());
    match opener {
        Some(p) => {
            let e1 = choose|e: Option<EdgeKey>| #[trigger] v1.edge_added_synced(l1, p, k1, EdgeType::Hyperlink, e);
            let e2 = choose|e: Option<EdgeKey>| #[trigger] v2.edge_added_synced(l2, p, k2, EdgeType::Hyperlink, e);
            assert(l1.graph.node_map() == v1.graph.node_map());
            assert(l2.graph.node_map() == v2.graph.node_map());
            lemma_same_new_key(u1.graph.node_map().dom(), n1.graph.node_map().dom(), k1, k2);
            lemma_added_node_alike(u1, u2, a1, a2, k1, s1.child_url(initial_url), s1.child_position(parent, placement));
            lemma_webview_mapped_alike(a1, a2, m1, m2, child, k1);
            lemma_lifecycle_set_alike(m1, m2, v1, v2, k1, NodeLifecycle::Active);
            if e1 is Some {
                assert(e2 is Some);
                assert(l1.graph.edge_map().dom() == s1.graph.edge_map().dom().insert(e1->0));
                assert(l2.graph.edge_map().dom() == s2.graph.edge_map().dom().insert(e2->0));
                lemma_same_new_key(s1.graph.edge_map().dom(), n1.graph.edge_map().dom(), e1->0, e2->0);
            }
            lemma_edge_added_alike(v1, v2, l1, l2, p, k1, EdgeType::Hyperlink, e1);
            lemma_selected_alike(l1, l2, n1, n2, k1, false);
        },
        None => {
            lemma_same_new_key(u1.graph.node_map().dom(), n1.graph.node_map().dom(), k1, k2);
            lemma_added_node_alike(u1, u2, a1, a2, k1, s1.child_url(initial_url), s1.child_position(parent, placement));
            lemma_webview_mapped_alike(a1, a2, m1, m2, child, k1);
            lemma_lifecycle_set_alike(m1, m2, v1, v2, k1, NodeLifecycle::Active);
            lemma_selected_alike(l1, l2, n1, n2, k1, false);
        },
    }
}

proof fn lemma_webview_url_changed_alike(
    s1: GraphBrowserApp, s2: GraphBrowserApp, n1: GraphBrowserApp, n2: GraphBrowserApp,
    webview_id: super::WebViewId, new_url: String,
)
    requires
        alike(s1, s2),
        same_keys(n1, n2),
        s1.webview_url_changed(n1, webview_id, new_url),
        s2.webview_url_changed(n2, webview_id, new_url),
    ensures
        alike(n1, n2),
{
    let key = s1.webview_nodes()[webview_id.id];
    if new_url@.len() == 0 {
    } else if !s1.webview_nodes().contains_key(webview_id.id) {
        let (k1, a1) = choose|added_key: NodeKey, added: GraphBrowserApp| {
            &&& #[trigger] s1.added_node_synced(added, added_key, new_url@, spec_default_position())
            &&& #[trigger] added.webview_mapped(n1, webview_id, added_key)
        };
        let (k2, a2) = choose|added_key: NodeKey, added: GraphBrowserApp| {
            &&& #[trigger] s2.added_node_synced(added, added_key, new_url@, spec_default_position())
            &&& #[trigger] added.webview_mapped(n2, webview_id, added_key)
        };
        lemma_same_new_key(s1.graph.node_map().dom(), n1.graph.node_map().dom(), k1, k2);
        lemma_added_node_alike(s1, s2, a1, a2, k1, new_url@, spec_default_position());
        lemma_webview_mapped_alike(a1, a2, n1, n2, webview_id, k1);
    } else if s1.graph.node_map().contains_key(key) {
        assert(node_alike(s1.graph.node_map()[key], s2.graph.node_map()[key]));
        let w1 = choose|visited: GraphBrowserApp| {
            &&& #[trigger] s1.visit_recorded(visited, key)
            &&& s1.graph.node_map()[key].url@ != new_url@ ==> exists|previous: Option<String>| #[trigger] visited.url_updated(n1, key, new_url, previous)
            &&& s1.graph.node_map()[key].url@ == new_url@ ==> n1 == visited
        };
        let w2 = choose|visited: GraphBrowserApp| {
            &&& #[trigger] s2.visit_recorded(visited, key)
            &&& s2.graph.node_map()[key].url@ != new_url@ ==> exists|previous: Option<String>| #[trigger] visited.url_updated(n2, key, new_url, previous)
            &&& s2.graph.node_map()[key].url@ == new_url@ ==> n2 == visited
        };
        lemma_visit_recorded_alike(s1, s2, w1, w2, key);
        if s1.graph.node_map()[key].url@ != new_url@ {
            let p1 = choose|previous: Option<String>| #[trigger] w1.url_updated(n1, key, new_url, previous);
            let p2 = choose|previous: Option<String>| #[trigger] w2.url_updated(n2, key, new_url, previous);
            lemma_url_updated_alike(w1, w2, n1, n2, key, new_url, p1, p2);
        }
    } else {
        assert(graph_alike(n1.graph, n2.graph)) by {
            assert forall|k: NodeKey| #[trigger] n1.graph.node_map().contains_key(k) implies node_alike(n1.graph.node_map()[k], n2.graph.node_map()[k]) by {
                assert(s1.graph.node_map().contains_key(k));
            }
        }
    }
}


/// Any intent, applied to two alike states, gives alike states, provided the
/// graph store handed out the same keys in both runs. Identities and visit
/// times may differ; nothing else the library decides does.
#[verifier::spinoff_prover]
#[verifier::rlimit(60)]
pub proof fn lemma_intent_applied_alike(
    s1: GraphBrowserApp,
    s2: GraphBrowserApp,
    n1: GraphBrowserApp,
    n2: GraphBrowserApp,
    intent: GraphIntent,
    placement: Position,
)
    requires
        alike(s1, s2),
        same_keys(n1, n2),
        s1.intent_applied(n1, intent, placement),
        s2.intent_applied(n2, intent, placement),
    ensures
        alike(n1, n2),
{
    match intent {
        GraphIntent::CreateNodeNearCenter => {
            let k1 = choose|key: NodeKey| #[trigger] s1.created_near_center(n1, key, placement);
            let k2 = choose|key: NodeKey| #[trigger] s2.created_near_center(n2, key, placement);
            let c1 = GraphBrowserApp { next_placeholder_id: (s1.next_placeholder_id + 1) as u32, ..s1 };
            let c2 = GraphBrowserApp { next_placeholder_id: (s2.next_placeholder_id + 1) as u32, ..s2 };
            let url = super::placeholder_url(s1.next_placeholder_id);
            let a1 = choose|added: GraphBrowserApp| {
                &&& #[trigger] c1.added_node_synced(added, k1, url, placement)
                &&& added.selected_node(n1, k1, false)
            };
            let a2 = choose|added: GraphBrowserApp| {
                &&& #[trigger] c2.added_node_synced(added, k2, url, placement)
                &&& added.selected_node(n2, k2, false)
            };
            lemma_created_at_alike(c1, c2, n1, n2, url, placement, k1, a1, k2, a2);
        },
        GraphIntent::CreateNodeAtUrl { url, position } => {
            let (k1, a1) = choose|key: NodeKey, added: GraphBrowserApp| {
                &&& #[trigger] s1.added_node_synced(added, key, url@, position)
                &&& #[trigger] added.selected_node(n1, key, false)
            };
            let (k2, a2) = choose|key: NodeKey, added: GraphBrowserApp| {
                &&& #[trigger] s2.added_node_synced(added, key, url@, position)
                &&& #[trigger] added.selected_node(n2, key, false)
            };
            lemma_created_at_alike(s1, s2, n1, n2, url@, position, k1, a1, k2, a2);
        },
        GraphIntent::RemoveSelectedNodes => {
            lemma_selection_removed_alike(s1, s2, n1, n2);
        },
        GraphIntent::ClearGraph => {
            assert(graph_alike(n1.graph, n2.graph)) by {
                assert(n1.graph.node_map().dom() =~= n2.graph.node_map().dom());
            }
            if s1.persistence_enabled {
                lemma_requests_step(s1.store_requests@, s2.store_requests@, n1.store_requests@, n2.store_requests@);
            }
        },
        GraphIntent::SelectNode { key, multi_select } => {
            lemma_selected_alike(s1, s2, n1, n2, key, multi_select);
        },
        GraphIntent::SetNodePosition { key, position } => {
            let m1 = Node { position, ..s1.graph.node_map()[key] };
            let m2 = Node { position, ..s2.graph.node_map()[key] };
            if s1.graph.node_map().contains_key(key) {
                assert(node_alike(s1.graph.node_map()[key], s2.graph.node_map()[key]));
            }
            lemma_node_replaced_alike(s1, s2, n1, n2, key, m1, m2, false);
        },
        GraphIntent::SetNodeUrl { key, new_url } => {
            let p1 = choose|previous: Option<String>| #[trigger] s1.url_updated(n1, key, new_url, previous);
            let p2 = choose|previous: Option<String>| #[trigger] s2.url_updated(n2, key, new_url, previous);
            lemma_url_updated_alike(s1, s2, n1, n2, key, new_url, p1, p2);
        },
        GraphIntent::WebViewCreated { parent_webview_id, child_webview_id, initial_url } => {
            lemma_webview_created_alike(s1, s2, n1, n2, parent_webview_id, child_webview_id, initial_url, placement);
        },
        GraphIntent::WebViewUrlChanged { webview_id, new_url } => {
            lemma_webview_url_changed_alike(s1, s2, n1, n2, webview_id, new_url);
        },
        GraphIntent::WebViewHistoryChanged { webview_id, entries, current } => {
            if s1.webview_nodes().contains_key(webview_id.id) {
                let key = s1.webview_nodes()[webview_id.id];
                let m1 = Node { history_entries: entries, history_index: clamped_index(entries@.len(), current), ..s1.graph.node_map()[key] };
                let m2 = Node { history_entries: entries, history_index: clamped_index(entries@.len(), current), ..s2.graph.node_map()[key] };
                if s1.graph.node_map().contains_key(key) {
                    assert(node_alike(s1.graph.node_map()[key], s2.graph.node_map()[key]));
                }
                lemma_node_replaced_alike(s1, s2, n1, n2, key, m1, m2, false);
            }
        },
        GraphIntent::WebViewTitleChanged { webview_id, title } => {
            let key = s1.webview_nodes()[webview_id.id];
            if !s1.webview_nodes().contains_key(webview_id.id) || title is None || title->0@.len() == 0 {
            } else if s1.graph.node_map().contains_key(key) && s1.graph.node_map()[key].title@ != title->0@ {
                assert(node_alike(s1.graph.node_map()[key], s2.graph.node_map()[key]));
                lemma_retitled_and_logged_alike(s1, s2, n1, n2, key, title->0);
            } else {
                if s1.graph.node_map().contains_key(key) {
                    assert(node_alike(s1.graph.node_map()[key], s2.graph.node_map()[key]));
                }
                assert(graph_alike(n1.graph, n2.graph)) by {
                    assert forall|k: NodeKey| #[trigger] n1.graph.node_map().contains_key(k) implies node_alike(n1.graph.node_map()[k], n2.graph.node_map()[k]) by {
                        assert(s1.graph.node_map().contains_key(k));
                    }
                }
            }
        },
        GraphIntent::SetNodeThumbnail { key, png_bytes, width, height } => {
            let m1 = Node { thumbnail_png: Some(png_bytes), thumbnail_width: width, thumbnail_height: height, ..s1.graph.node_map()[key] };
            let m2 = Node { thumbnail_png: Some(png_bytes), thumbnail_width: width, thumbnail_height: height, ..s2.graph.node_map()[key] };
            if s1.graph.node_map().contains_key(key) {
                assert(node_alike(s1.graph.node_map()[key], s2.graph.node_map()[key]));
            }
            lemma_node_replaced_alike(s1, s2, n1, n2, key, m1, m2, true);
        },
        GraphIntent::SetNodeFavicon { key, rgba, width, height } => {
            let m1 = Node { favicon_rgba: Some(rgba), favicon_width: width, favicon_height: height, ..s1.graph.node_map()[key] };
            let m2 = Node { favicon_rgba: Some(rgba), favicon_width: width, favicon_height: height, ..s2.graph.node_map()[key] };
            if s1.graph.node_map().contains_key(key) {
                assert(node_alike(s1.graph.node_map()[key], s2.graph.node_map()[key]));
            }
            lemma_node_replaced_alike(s1, s2, n1, n2, key, m1, m2, true);
        },
        _ => {},
    }
}

/// The intent boundary is deterministic: the same intents, applied in turn
/// to two alike states, leave alike states at every step, whenever the
/// graph store handed out the same keys in both runs. Node identities and
/// visit times, which come from chance and the clock, are what may differ.
pub proof fn lemma_intents_applied_alike(
    a: Seq<GraphBrowserApp>,
    b: Seq<GraphBrowserApp>,
    intents: Seq<(GraphIntent, Position)>,
)
    requires
        GraphBrowserApp::intent_trace(a, intents),
        GraphBrowserApp::intent_trace(b, intents),
        alike(a[0], b[0]),
        forall|i: int| 0 < i <= intents.len() ==> same_keys(#[trigger] a[i], b[i]),
    ensures
        alike(a.last(), b.last()),
{
    lemma_traces_alike(a, b, intents, intents.len() as int);
}

proof fn lemma_traces_alike(
    a: Seq<GraphBrowserApp>,
    b: Seq<GraphBrowserApp>,
    intents: Seq<(GraphIntent, Position)>,
    i: int,
)
    requires
        GraphBrowserApp::intent_trace(a, intents),
        GraphBrowserApp::intent_trace(b, intents),
        alike(a[0], b[0]),
        forall|j: int| 0 < j <= intents.len() ==> same_keys(#[trigger] a[j], b[j]),
        0 <= i <= intents.len(),
    ensures
        alike(a[i], b[i]),
    decreases i,
{
    if i > 0 {
        let h = i - 1;
        lemma_traces_alike(a, b, intents, h);
        lemma_intent_trace_step(a, intents, h);
        lemma_intent_trace_step(b, intents, h);
        assert(same_keys(a[i], b[i]));
        lemma_intent_applied_alike(a[h], b[h], a[i], b[i], intents[h].0, intents[h].1);
    }
}

} // verus!
