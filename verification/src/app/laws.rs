//! Properties that hold across the operations of the application state.

use vstd::prelude::*;

use super::intent::{clamped_index, GraphIntent};
use super::{
    is_add_edge_entry, is_add_node_entry, is_remove_entry, is_title_entry, is_url_entry, logs, node_slot,
    placeholder_number, placeholder_prefix, placeholder_url, GraphBrowserApp, SelectionState, StoreRequest, WebViewId,
};
use crate::graph::snapshot::{persisted_edge_type, restored_edge_type};
use crate::graph::{EdgeKey, EdgeType, EdgeView, Graph, Node, NodeKey, Position};
use crate::persistence::replay::{replay_trace, replays_entry};
use crate::persistence::types::LogEntry;
use crate::text::{decimal, lemma_parse_decimal};

verus! {

/// One step of an intent trace.
pub proof fn lemma_intent_trace_step(states: Seq<GraphBrowserApp>, intents: Seq<(GraphIntent, Position)>, i: int)
    requires
        GraphBrowserApp::intent_trace(states, intents),
        0 <= i < intents.len(),
    ensures
        states[i].intent_applied(states[i + 1], intents[i].0, intents[i].1),
{
}

/// Applying no intent changes nothing, and applying one intent has the
/// effect of `apply_intent`.
pub proof fn lemma_intents_applied_base(s: GraphBrowserApp, next: GraphBrowserApp, intent: GraphIntent, placement: Position)
    ensures
        s.intents_applied(next, Seq::<(GraphIntent, Position)>::empty()) <==> next == s,
        s.intents_applied(next, seq![(intent, placement)]) <==> s.intent_applied(next, intent, placement),
{
    let none = Seq::<(GraphIntent, Position)>::empty();
    if next == s {
        assert(GraphBrowserApp::intent_trace(seq![s], none));
        assert(seq![s].last() == s);
    }
    if s.intents_applied(next, none) {
        let states = choose|states: Seq<GraphBrowserApp>| {
            &&& #[trigger] GraphBrowserApp::intent_trace(states, none)
            &&& states[0] == s
            &&& states.last() == next
        };
    }
    let one = seq![(intent, placement)];
    if s.intent_applied(next, intent, placement) {
        let states = seq![s, next];
        assert(GraphBrowserApp::intent_trace(states, one)) by {
            assert forall|i: int| 0 <= i < one.len() implies #[trigger] states[i].intent_applied(states[i + 1], one[i].0, one[i].1) by {
                assert(i == 0);
            }
        }
        assert(states.last() == next);
    }
    if s.intents_applied(next, one) {
        let states = choose|states: Seq<GraphBrowserApp>| {
            &&& #[trigger] GraphBrowserApp::intent_trace(states, one)
            &&& states[0] == s
            &&& states.last() == next
        };
        assert(states[0].intent_applied(states[1], one[0].0, one[0].1));
    }
}

/// Intents take effect one at a time in order: applying `xs` and then `ys`
/// is applying `xs` followed by `ys`, and every way of applying the
/// concatenation passes through a state that applying `xs` reaches.
pub proof fn lemma_intents_applied_concat(
    s: GraphBrowserApp,
    next: GraphBrowserApp,
    xs: Seq<(GraphIntent, Position)>,
    ys: Seq<(GraphIntent, Position)>,
)
    ensures
        (exists|mid: GraphBrowserApp| s.intents_applied(mid, xs) && #[trigger] mid.intents_applied(next, ys))
            <==> s.intents_applied(next, xs + ys),
{
    let zs = xs + ys;
    if exists|mid: GraphBrowserApp| s.intents_applied(mid, xs) && #[trigger] mid.intents_applied(next, ys) {
        let mid = choose|mid: GraphBrowserApp| s.intents_applied(mid, xs) && #[trigger] mid.intents_applied(next, ys);
        let a = choose|states: Seq<GraphBrowserApp>| {
            &&& #[trigger] GraphBrowserApp::intent_trace(states, xs)
            &&& states[0] == s
            &&& states.last() == mid
        };
        let b = choose|states: Seq<GraphBrowserApp>| {
            &&& #[trigger] GraphBrowserApp::intent_trace(states, ys)
            &&& states[0] == mid
            &&& states.last() == next
        };
        let states = a + b.skip(1);
        assert(GraphBrowserApp::intent_trace(states, zs)) by {
            assert forall|i: int| 0 <= i < zs.len() implies #[trigger] states[i].intent_applied(states[i + 1], zs[i].0, zs[i].1) by {
                if i < xs.len() {
                    assert(a[i].intent_applied(a[i + 1], xs[i].0, xs[i].1));
                    if i + 1 == xs.len() {
                        assert(states[i + 1] == b[0]);
                    }
                } else {
                    let j = i - xs.len();
                    assert(b[j].intent_applied(b[j + 1], ys[j].0, ys[j].1));
                    if j == 0 {
                        assert(states[i] == a.last());
                    }
                }
            }
        }
        if ys.len() == 0 {
            assert(states.last() == a.last());
        } else {
            assert(states.last() == b.last());
        }
    }
    if s.intents_applied(next, zs) {
        let states = choose|states: Seq<GraphBrowserApp>| {
            &&& #[trigger] GraphBrowserApp::intent_trace(states, zs)
            &&& states[0] == s
            &&& states.last() == next
        };
        let n = xs.len() as int;
        let a = states.subrange(0, n + 1);
        let b = states.subrange(n, states.len() as int);
        let mid = states[n];
        assert(GraphBrowserApp::intent_trace(a, xs)) by {
            assert forall|i: int| 0 <= i < xs.len() implies #[trigger] a[i].intent_applied(a[i + 1], xs[i].0, xs[i].1) by {
                assert(states[i].intent_applied(states[i + 1], zs[i].0, zs[i].1));
            }
        }
        assert(GraphBrowserApp::intent_trace(b, ys)) by {
            assert forall|j: int| 0 <= j < ys.len() implies #[trigger] b[j].intent_applied(b[j + 1], ys[j].0, ys[j].1) by {
                assert(states[n + j].intent_applied(states[n + j + 1], zs[n + j].0, zs[n + j].1));
            }
        }
        assert(s.intents_applied(mid, xs));
        assert(mid.intents_applied(next, ys));
    }
}

/// Selecting never lowers the selection revision.
pub proof fn lemma_select_revision_monotone(s: SelectionState, next: SelectionState, key: NodeKey, multi_select: bool)
    requires
        s.selected_after(next, key, multi_select),
    ensures
        next.revision_number() >= s.revision_number(),
{
}

/// Clearing never lowers the selection revision.
pub proof fn lemma_clear_revision_monotone(s: SelectionState, next: SelectionState)
    requires
        s.cleared_after(next),
    ensures
        next.revision_number() >= s.revision_number(),
{
}

/// Toggling the layout twice gives back the state, unless an interaction
/// is under way with no running state saved for it.
pub proof fn lemma_toggle_physics_twice(s: GraphBrowserApp, m: GraphBrowserApp, n: GraphBrowserApp)
    requires
        s.physics_toggled(m),
        m.physics_toggled(n),
        s.is_interacting ==> s.physics_running_before_interaction is Some,
    ensures
        n == s,
{
}

/// Toggling a panel twice gives back the state.
pub proof fn lemma_toggle_panels_twice(s: GraphBrowserApp)
    ensures
        (GraphBrowserApp { show_physics_panel: !(GraphBrowserApp { show_physics_panel: !s.show_physics_panel, ..s }).show_physics_panel, ..(GraphBrowserApp { show_physics_panel: !s.show_physics_panel, ..s }) }) == s,
        (GraphBrowserApp { show_help_panel: !(GraphBrowserApp { show_help_panel: !s.show_help_panel, ..s }).show_help_panel, ..(GraphBrowserApp { show_help_panel: !s.show_help_panel, ..s }) }) == s,
{
}

/// An interaction that starts and ends restores the layout's running
/// state, and forgets what it saved.
pub proof fn lemma_interaction_restores_physics(s: GraphBrowserApp, m: GraphBrowserApp, n: GraphBrowserApp)
    requires
        !s.is_interacting,
        s.interaction_set(m, true),
        m.interaction_set(n, false),
    ensures
        n == (GraphBrowserApp { physics_running_before_interaction: None, ..s }),
{
}

/// Mapping a webview to a node and then unmapping the webview leaves
/// neither the webview nor the node mapped, and every other mapping as it
/// was.
pub proof fn lemma_map_then_unmap(s: GraphBrowserApp, m: GraphBrowserApp, n: GraphBrowserApp, w: WebViewId, k: NodeKey)
    requires
        s.webview_mapped(m, w, k),
        m.webview_unmapped(n, w),
    ensures
        n.webview_nodes() == s.webview_nodes().remove(w.id),
        n.node_webviews() == s.node_webviews().remove(node_slot(k)),
        n == (GraphBrowserApp { webview_to_node: n.webview_to_node, node_to_webview: n.node_to_webview, ..s }),
{
    assert(m.webview_nodes().contains_key(w.id));
    assert(n.webview_nodes() =~= s.webview_nodes().remove(w.id));
    assert(n.node_webviews() =~= s.node_webviews().remove(node_slot(k)));
}

/// The number read back from placeholder URL `n` is `n`, so distinct
/// numbers give distinct URLs.
pub proof fn lemma_placeholder_number_round_trip(n: u32)
    ensures
        placeholder_number(placeholder_url(n)) == Some(n),
{
    let url = placeholder_url(n);
    let p = placeholder_prefix();
    assert(url.take(p.len() as int) =~= p);
    assert(url.skip(p.len() as int) =~= decimal(n as nat));
    lemma_parse_decimal(n);
}

/// Distinct placeholder numbers give distinct placeholder URLs.
pub proof fn lemma_placeholder_urls_distinct(m: u32, n: u32)
    requires
        m != n,
    ensures
        placeholder_url(m) != placeholder_url(n),
{
    lemma_placeholder_number_round_trip(m);
    lemma_placeholder_number_round_trip(n);
}

/// Along a removal trace, every removed key is absent at the end, and the
/// nodes and edges at the end are among those at the start.
pub proof fn lemma_removal_trace_removes(states: Seq<GraphBrowserApp>, keys: Seq<NodeKey>)
    requires
        GraphBrowserApp::removal_trace(states, keys),
        states[0].wf(),
    ensures
        forall|j: int| 0 <= j < keys.len() ==> !states.last().graph.node_map().contains_key(#[trigger] keys[j]),
        states.last().graph.node_map().dom().subset_of(states[0].graph.node_map().dom()),
        states.last().selected_nodes == states[0].selected_nodes,
        states.last().wf(),
    decreases keys.len(),
{
    if keys.len() > 0 {
        let prefix = states.drop_last();
        let kp = keys.drop_last();
        assert forall|i: int| 0 <= i < kp.len() implies #[trigger] prefix[i].removed_one(prefix[i + 1], kp[i]) by {
            assert(states[i].removed_one(states[i + 1], keys[i]));
        }
        lemma_removal_trace_removes(prefix, kp);
        let last = keys.len() - 1;
        assert(states[last].removed_one(states[last + 1], keys[last]));
        assert(prefix.last() == states[last]);
        assert forall|j: int| 0 <= j < keys.len() implies !states.last().graph.node_map().contains_key(#[trigger] keys[j]) by {
            if j < last {
                assert(kp[j] == keys[j]);
                assert(!prefix.last().graph.node_map().contains_key(kp[j]));
            }
        }
    }
}

/// After the selected nodes are removed, none of them is in the graph.
pub proof fn lemma_selection_removed_absent(s: GraphBrowserApp, next: GraphBrowserApp, key: NodeKey)
    requires
        s.wf(),
        s.selection_removed(next),
        s.selected_nodes.selected().contains(key),
    ensures
        !next.graph.node_map().contains_key(key),
        next.selected_nodes.order().len() == 0,
{
    let mid = choose|mid: GraphBrowserApp| {
        &&& #[trigger] s.removed_in_turn(mid, s.selected_nodes.order())
        &&& mid.selected_nodes.cleared_after(next.selected_nodes)
        &&& next == (GraphBrowserApp { selected_nodes: next.selected_nodes, ..mid })
    };
    let states = choose|states: Seq<GraphBrowserApp>| {
        &&& #[trigger] GraphBrowserApp::removal_trace(states, s.selected_nodes.order())
        &&& states[0] == s
        &&& states.last() == mid
    };
    lemma_removal_trace_removes(states, s.selected_nodes.order());
    let keys = s.selected_nodes.order();
    let j = choose|j: int| 0 <= j < keys.len() && keys[j] == key;
    assert(!mid.graph.node_map().contains_key(keys[j]));
}

/// Whether an intent may add a node.
pub open spec fn may_add_node(intent: GraphIntent) -> bool {
    ||| intent is CreateNodeNearCenter
    ||| intent is CreateNodeAtUrl
    ||| intent is WebViewCreated
    ||| intent is WebViewUrlChanged
}

/// An intent that adds no node leaves an absent node absent.
pub proof fn lemma_absent_stays_absent(s: GraphBrowserApp, next: GraphBrowserApp, intent: GraphIntent, placement: Position, key: NodeKey)
    requires
        s.wf(),
        !may_add_node(intent),
        !s.graph.node_map().contains_key(key),
        s.intent_applied(next, intent, placement),
    ensures
        !next.graph.node_map().contains_key(key),
{
    match intent {
        GraphIntent::RemoveSelectedNodes => {
            let mid = choose|mid: GraphBrowserApp| {
                &&& #[trigger] s.removed_in_turn(mid, s.selected_nodes.order())
                &&& mid.selected_nodes.cleared_after(next.selected_nodes)
                &&& next == (GraphBrowserApp { selected_nodes: next.selected_nodes, ..mid })
            };
            let states = choose|states: Seq<GraphBrowserApp>| {
                &&& #[trigger] GraphBrowserApp::removal_trace(states, s.selected_nodes.order())
                &&& states[0] == s
                &&& states.last() == mid
            };
            lemma_removal_trace_removes(states, s.selected_nodes.order());
        },
        GraphIntent::WebViewTitleChanged { webview_id, title } => {
            let k = s.webview_nodes()[webview_id.id];
            if s.webview_nodes().contains_key(webview_id.id) && title is Some && title->0@.len() > 0
                && s.graph.node_map().contains_key(k) && s.graph.node_map()[k].title@ != title->0@ {
                let (retitled, logged) = choose|retitled: GraphBrowserApp, logged: GraphBrowserApp| {
                    &&& #[trigger] s.retitled(retitled, k, title->0)
                    &&& #[trigger] retitled.title_logged(logged, k)
                    &&& next == (GraphBrowserApp { egui_state_dirty: true, ..logged })
                };
            }
        },
        GraphIntent::SetNodeUrl { key: k, new_url } => {
            let previous = choose|previous: Option<String>| #[trigger] s.url_updated(next, k, new_url, previous);
        },
        _ => {},
    }
}

/// A deleted node stays deleted whatever title update comes before or
/// after the deletion: removing the selection and retitling the node's
/// webview, in either order, leaves the selected node out of the graph.
pub proof fn lemma_delete_dominates_title_update(
    s: GraphBrowserApp,
    n1: GraphBrowserApp,
    n2: GraphBrowserApp,
    key: NodeKey,
    webview_id: WebViewId,
    title: Option<String>,
    p: Position,
    q: Position,
)
    requires
        s.wf(),
        s.selected_nodes.selected().contains(key),
        s.intents_applied(n1, seq![(GraphIntent::RemoveSelectedNodes, p), (GraphIntent::WebViewTitleChanged { webview_id, title }, q)]),
        s.intents_applied(n2, seq![(GraphIntent::WebViewTitleChanged { webview_id, title }, q), (GraphIntent::RemoveSelectedNodes, p)]),
    ensures
        !n1.graph.node_map().contains_key(key),
        !n2.graph.node_map().contains_key(key),
{
    let remove = (GraphIntent::RemoveSelectedNodes, p);
    let retitle = (GraphIntent::WebViewTitleChanged { webview_id, title }, q);
    let first_order = seq![remove, retitle];
    let a = choose|states: Seq<GraphBrowserApp>| {
        &&& #[trigger] GraphBrowserApp::intent_trace(states, first_order)
        &&& states[0] == s
        &&& states.last() == n1
    };
    lemma_intent_trace_step(a, first_order, 0);
    lemma_selection_removed_absent(s, a[1], key);
    lemma_intent_trace_step(a, first_order, 1);
    lemma_removal_keeps_wf(s, a[1]);
    lemma_absent_stays_absent(a[1], a[2], retitle.0, retitle.1, key);
    let second_order = seq![retitle, remove];
    let b = choose|states: Seq<GraphBrowserApp>| {
        &&& #[trigger] GraphBrowserApp::intent_trace(states, second_order)
        &&& states[0] == s
        &&& states.last() == n2
    };
    lemma_intent_trace_step(b, second_order, 0);
    lemma_retitle_keeps_selection(s, b[1], webview_id, title);
    lemma_intent_trace_step(b, second_order, 1);
    lemma_selection_removed_absent(b[1], b[2], key);
}

/// An update of a node's contents: a title or history reported by a
/// webview, a thumbnail, a favicon, or a new URL.
pub open spec fn is_content_update(intent: GraphIntent) -> bool {
    ||| intent is WebViewTitleChanged
    ||| intent is WebViewHistoryChanged
    ||| intent is SetNodeThumbnail
    ||| intent is SetNodeFavicon
    ||| intent is SetNodeUrl
}

/// A content update keeps the state well-formed and leaves the selection
/// and both webview maps as they were; it adds no node.
pub proof fn lemma_content_update_keeps(s: GraphBrowserApp, next: GraphBrowserApp, intent: GraphIntent, placement: Position)
    requires
        s.wf(),
        is_content_update(intent),
        s.intent_applied(next, intent, placement),
    ensures
        next.wf(),
        next.selected_nodes == s.selected_nodes,
        next.webview_nodes() == s.webview_nodes(),
        next.node_webviews() == s.node_webviews(),
        !may_add_node(intent),
{
    match intent {
        GraphIntent::SetNodeUrl { key, new_url } => {
            let previous = choose|previous: Option<String>| #[trigger] s.url_updated(next, key, new_url, previous);
        },
        GraphIntent::WebViewTitleChanged { webview_id, title } => {
            let key = s.webview_nodes()[webview_id.id];
            if s.webview_nodes().contains_key(webview_id.id) && title is Some && title->0@.len() != 0
                && s.graph.node_map().contains_key(key) && s.graph.node_map()[key].title@ != title->0@ {
                let (retitled, logged) = choose|retitled: GraphBrowserApp, logged: GraphBrowserApp| {
                    &&& #[trigger] s.retitled(retitled, key, title->0)
                    &&& #[trigger] retitled.title_logged(logged, key)
                    &&& next == (GraphBrowserApp { egui_state_dirty: true, ..logged })
                };
            }
        },
        _ => {},
    }
}

/// Removing the nodes of `keys` one after another, with `key` among them
/// (once) and the node's webview recorded as `wv`, leaves `wv` unmapped.
proof fn lemma_removal_unmaps_webview(states: Seq<GraphBrowserApp>, keys: Seq<NodeKey>, key: NodeKey, wv: WebViewId, j: int)
    requires
        GraphBrowserApp::removal_trace(states, keys),
        keys.no_duplicates(),
        states[0].node_webviews().contains_key(node_slot(key)),
        states[0].node_webviews()[node_slot(key)] == wv,
        0 <= j <= keys.len(),
    ensures
        !keys.take(j).contains(key) ==> states[j].node_webviews().contains_key(node_slot(key))
            && states[j].node_webviews()[node_slot(key)] == wv,
        keys.take(j).contains(key) ==> !states[j].webview_nodes().contains_key(wv.id),
    decreases j,
{
    if j == 0 {
        assert(keys.take(0) =~= Seq::<NodeKey>::empty());
    } else {
        let h = j - 1;
        lemma_removal_unmaps_webview(states, keys, key, wv, h);
        assert(states[h].removed_one(states[h + 1], keys[h]));
        assert(keys.take(j) =~= keys.take(h).push(keys[h]));
        if keys[h] == key {
            assert(keys.take(j)[h] == key);
            assert(keys.take(j).contains(key));
            assert(!keys.take(h).contains(key)) by {
                if keys.take(h).contains(key) {
                    let i = choose|i: int| 0 <= i < h && keys.take(h)[i] == key;
                    assert(keys[i] == keys[h]);
                }
            }
        } else {
            assert(node_slot(keys[h]) != node_slot(key));
            if !keys.take(j).contains(key) {
                assert(!keys.take(h).contains(key)) by {
                    if keys.take(h).contains(key) {
                        let i = choose|i: int| 0 <= i < h && keys.take(h)[i] == key;
                        assert(keys.take(j)[i] == key);
                    }
                }
            }
            if !keys.take(j).contains(key) {
                let slot = node_slot(keys[h]);
                if states[h].node_webviews().contains_key(slot) {
                    assert(states[j].node_webviews() == states[h].node_webviews().remove(slot));
                } else {
                    assert(states[j].node_webviews() == states[h].node_webviews());
                }
                assert(states[j].node_webviews().contains_key(node_slot(key)));
                assert(states[j].node_webviews()[node_slot(key)] == wv);
            }
            if keys.take(j).contains(key) {
                let i = choose|i: int| 0 <= i < j && keys.take(j)[i] == key;
                assert(keys.take(h)[i] == key);
            }
        }
    }
}

/// Removing the selection, with `key` selected and its webview recorded as
/// `wv`, leaves `key` out of the graph and `wv` unmapped.
pub proof fn lemma_selection_removal_unmaps(s: GraphBrowserApp, next: GraphBrowserApp, key: NodeKey, wv: WebViewId)
    requires
        s.wf(),
        s.selection_removed(next),
        s.selected_nodes.selected().contains(key),
        s.node_webviews().contains_key(node_slot(key)),
        s.node_webviews()[node_slot(key)] == wv,
    ensures
        next.wf(),
        !next.graph.node_map().contains_key(key),
        !next.webview_nodes().contains_key(wv.id),
{
    lemma_selection_removed_absent(s, next, key);
    lemma_removal_keeps_wf(s, next);
    let mid = choose|mid: GraphBrowserApp| {
        &&& #[trigger] s.removed_in_turn(mid, s.selected_nodes.order())
        &&& mid.selected_nodes.cleared_after(next.selected_nodes)
        &&& next == (GraphBrowserApp { selected_nodes: next.selected_nodes, ..mid })
    };
    let keys = s.selected_nodes.order();
    let states = choose|states: Seq<GraphBrowserApp>| {
        &&& #[trigger] GraphBrowserApp::removal_trace(states, keys)
        &&& states[0] == s
        &&& states.last() == mid
    };
    SelectionState::lemma_selection_invariant(s.selected_nodes);
    lemma_removal_unmaps_webview(states, keys, key, wv, keys.len() as int);
    assert(keys.take(keys.len() as int) =~= keys);
    assert(keys.contains(key));
}

/// The state along an intent trace of content updates with one removal of
/// the selection at position `at`: before the removal, `key` stays selected
/// and its webview recorded as `wv`; from the removal on, `key` is out of
/// the graph and `wv` unmapped.
proof fn lemma_delete_wins_prefix(
    states: Seq<GraphBrowserApp>,
    intents: Seq<(GraphIntent, Position)>,
    at: int,
    key: NodeKey,
    wv: WebViewId,
    i: int,
)
    requires
        GraphBrowserApp::intent_trace(states, intents),
        states[0].wf(),
        states[0].selected_nodes.selected().contains(key),
        states[0].node_webviews().contains_key(node_slot(key)),
        states[0].node_webviews()[node_slot(key)] == wv,
        0 <= at < intents.len(),
        intents[at].0 is RemoveSelectedNodes,
        forall|j: int| 0 <= j < intents.len() && j != at ==> is_content_update(#[trigger] intents[j].0),
        0 <= i <= intents.len(),
    ensures
        states[i].wf(),
        i <= at ==> states[i].selected_nodes.selected().contains(key)
            && states[i].node_webviews().contains_key(node_slot(key))
            && states[i].node_webviews()[node_slot(key)] == wv,
        i > at ==> !states[i].graph.node_map().contains_key(key) && !states[i].webview_nodes().contains_key(wv.id),
    decreases i,
{
    if i > 0 {
        let h = i - 1;
        lemma_delete_wins_prefix(states, intents, at, key, wv, h);
        lemma_intent_trace_step(states, intents, h);
        if h == at {
            lemma_selection_removal_unmaps(states[h], states[i], key, wv);
        } else {
            assert(is_content_update(intents[h].0));
            lemma_content_update_keeps(states[h], states[i], intents[h].0, intents[h].1);
            if h > at {
                lemma_absent_stays_absent(states[h], states[i], intents[h].0, intents[h].1, key);
            }
        }
    }
}

/// A deleted node stays deleted whatever content updates come before or
/// after the deletion: for any updates of titles, histories, thumbnails,
/// favicons and URLs, with the removal of the selection inserted at any
/// position, a selected node ends up out of the graph and its webview
/// unmapped. (The webview is the one the node's own mapping records.)
pub proof fn lemma_delete_wins_any_order(
    s: GraphBrowserApp,
    next: GraphBrowserApp,
    updates: Seq<(GraphIntent, Position)>,
    at: int,
    removal_placement: Position,
    key: NodeKey,
    wv: WebViewId,
)
    requires
        s.wf(),
        s.selected_nodes.selected().contains(key),
        s.node_webviews().contains_key(node_slot(key)),
        s.node_webviews()[node_slot(key)] == wv,
        forall|j: int| 0 <= j < updates.len() ==> is_content_update(#[trigger] updates[j].0),
        0 <= at <= updates.len(),
        s.intents_applied(next, updates.take(at).push((GraphIntent::RemoveSelectedNodes, removal_placement)) + updates.skip(at)),
    ensures
        !next.graph.node_map().contains_key(key),
        !next.webview_nodes().contains_key(wv.id),
{
    let intents = updates.take(at).push((GraphIntent::RemoveSelectedNodes, removal_placement)) + updates.skip(at);
    let states = choose|states: Seq<GraphBrowserApp>| {
        &&& #[trigger] GraphBrowserApp::intent_trace(states, intents)
        &&& states[0] == s
        &&& states.last() == next
    };
    assert(intents[at].0 is RemoveSelectedNodes);
    assert forall|j: int| 0 <= j < intents.len() && j != at implies is_content_update(#[trigger] intents[j].0) by {
        if j < at {
            assert(intents[j] == updates[j]);
        } else {
            assert(intents[j] == updates[j - 1]);
        }
    }
    lemma_delete_wins_prefix(states, intents, at, key, wv, intents.len() as int);
}

/// Removing the selection keeps the state well-formed.
pub proof fn lemma_removal_keeps_wf(s: GraphBrowserApp, next: GraphBrowserApp)
    requires
        s.wf(),
        s.selection_removed(next),
    ensures
        next.wf(),
{
    let mid = choose|mid: GraphBrowserApp| {
        &&& #[trigger] s.removed_in_turn(mid, s.selected_nodes.order())
        &&& mid.selected_nodes.cleared_after(next.selected_nodes)
        &&& next == (GraphBrowserApp { selected_nodes: next.selected_nodes, ..mid })
    };
    let states = choose|states: Seq<GraphBrowserApp>| {
        &&& #[trigger] GraphBrowserApp::removal_trace(states, s.selected_nodes.order())
        &&& states[0] == s
        &&& states.last() == mid
    };
    lemma_removal_trace_removes(states, s.selected_nodes.order());
}

/// A title update keeps the state well-formed and the selection as it was.
pub proof fn lemma_retitle_keeps_selection(s: GraphBrowserApp, next: GraphBrowserApp, webview_id: WebViewId, title: Option<String>)
    requires
        s.wf(),
        s.title_changed(next, webview_id, title),
    ensures
        next.wf(),
        next.selected_nodes == s.selected_nodes,
{
    let k = s.webview_nodes()[webview_id.id];
    if s.webview_nodes().contains_key(webview_id.id) && title is Some && title->0@.len() > 0
        && s.graph.node_map().contains_key(k) && s.graph.node_map()[k].title@ != title->0@ {
        let (retitled, logged) = choose|retitled: GraphBrowserApp, logged: GraphBrowserApp| {
            &&& #[trigger] s.retitled(retitled, k, title->0)
            &&& #[trigger] retitled.title_logged(logged, k)
            &&& next == (GraphBrowserApp { egui_state_dirty: true, ..logged })
        };
    }
}

/// The last of two URL updates of a present node wins.
pub proof fn lemma_last_url_update_wins(
    s: GraphBrowserApp,
    n: GraphBrowserApp,
    key: NodeKey,
    first: String,
    second: String,
    p: Position,
    q: Position,
)
    requires
        s.wf(),
        s.graph.node_map().contains_key(key),
        s.intents_applied(n, seq![(GraphIntent::SetNodeUrl { key, new_url: first }, p), (GraphIntent::SetNodeUrl { key, new_url: second }, q)]),
    ensures
        n.graph.node_map().contains_key(key),
        n.graph.node_map()[key].url == second,
{
    let i1 = (GraphIntent::SetNodeUrl { key, new_url: first }, p);
    let i2 = (GraphIntent::SetNodeUrl { key, new_url: second }, q);
    let both = seq![i1, i2];
    let a = choose|states: Seq<GraphBrowserApp>| {
        &&& #[trigger] GraphBrowserApp::intent_trace(states, both)
        &&& states[0] == s
        &&& states.last() == n
    };
    lemma_intent_trace_step(a, both, 0);
    let p1 = choose|previous: Option<String>| #[trigger] s.url_updated(a[1], key, first, previous);
    assert(a[1].graph.node_map().contains_key(key));
    lemma_intent_trace_step(a, both, 1);
    let p2 = choose|previous: Option<String>| #[trigger] a[1].url_updated(a[2], key, second, previous);
}

} // verus!

verus! {

/// The node under `key` is the one indexed under its identity.
pub open spec fn indexed_under_identity(g: Graph, key: NodeKey) -> bool {
    &&& g.node_map().contains_key(key)
    &&& g.id_index().contains_key(g.node_map()[key].id)
    &&& g.id_index()[g.node_map()[key].id] == key
}

/// Replaying the entry logged by a URL update onto the graph as it was
/// gives the graph as it is after the update.
pub proof fn lemma_url_update_log_replays(s: GraphBrowserApp, next: GraphBrowserApp, key: NodeKey, new_url: String, previous: Option<String>, replayed: Graph)
    requires
        s.wf(),
        s.persistence_enabled,
        indexed_under_identity(s.graph, key),
        s.url_updated(next, key, new_url, previous),
        next.store_requests@.last() matches StoreRequest::Log(entry) && replays_entry(s.graph, replayed, entry),
    ensures
        replayed.same_contents(next.graph),
{
    let entry = next.store_requests@.last()->Log_0;
    assert(logs(next.store_requests@.last(), |e: LogEntry| is_url_entry(e, s.graph.node_map()[key].id, new_url)));
}

/// Replaying the entry logged by a title change onto the graph as it was
/// gives the graph as it is after the change.
pub proof fn lemma_title_change_log_replays(s: GraphBrowserApp, next: GraphBrowserApp, key: NodeKey, title: String, replayed: Graph)
    requires
        s.wf(),
        s.persistence_enabled,
        indexed_under_identity(s.graph, key),
        s.retitled_and_logged(next, key, title),
        next.store_requests@.last() matches StoreRequest::Log(entry) && replays_entry(s.graph, replayed, entry),
    ensures
        replayed.same_contents(next.graph),
{
    let (retitled, logged) = choose|retitled: GraphBrowserApp, logged: GraphBrowserApp| {
        &&& #[trigger] s.retitled(retitled, key, title)
        &&& #[trigger] retitled.title_logged(logged, key)
        &&& next == (GraphBrowserApp { egui_state_dirty: true, ..logged })
    };
    assert(retitled.graph.node_map()[key].title == title);
    assert(logs(next.store_requests@.last(), |e: LogEntry| is_title_entry(e, retitled.graph.node_map()[key].id, retitled.graph.node_map()[key].title)));
}

/// Replaying the entry logged by removing a node onto the graph as it was
/// gives the graph as it is after the removal.
pub proof fn lemma_removal_log_replays(s: GraphBrowserApp, next: GraphBrowserApp, key: NodeKey, replayed: Graph)
    requires
        s.wf(),
        s.persistence_enabled,
        indexed_under_identity(s.graph, key),
        s.removed_one(next, key),
        next.store_requests@.last() matches StoreRequest::Log(entry) && replays_entry(s.graph, replayed, entry),
    ensures
        replayed.same_contents(next.graph),
{
    assert(logs(next.store_requests@.last(), |e: LogEntry| is_remove_entry(e, s.graph.node_map()[key].id)));
}

/// Replaying the entry logged by clearing the graph gives the empty graph
/// that clearing leaves.
pub proof fn lemma_clear_log_replays(s: GraphBrowserApp, next: GraphBrowserApp, replayed: Graph)
    requires
        s.wf(),
        s.persistence_enabled,
        s.graph_cleared(next),
        next.store_requests@.last() matches StoreRequest::Log(entry) && replays_entry(s.graph, replayed, entry),
    ensures
        replayed.same_contents(next.graph),
{
    assert(logs(next.store_requests@.last(), |e: LogEntry| e is ClearGraph));
    assert(replayed.node_map() =~= next.graph.node_map());
    assert(replayed.edge_map() =~= next.graph.edge_map());
    assert(replayed.url_index() =~= next.graph.url_index());
    assert(replayed.id_index() =~= next.graph.id_index());
}

/// Replaying the entry logged by adding an edge onto the graph as it was
/// adds the same edge (under an edge key of its own).
pub proof fn lemma_edge_log_replays(
    s: GraphBrowserApp,
    next: GraphBrowserApp,
    from: NodeKey,
    to: NodeKey,
    edge_type: EdgeType,
    edge: Option<EdgeKey>,
    replayed: Graph,
)
    requires
        s.wf(),
        s.persistence_enabled,
        indexed_under_identity(s.graph, from),
        indexed_under_identity(s.graph, to),
        s.edge_added_synced(next, from, to, edge_type, edge),
        next.store_requests@.last() matches StoreRequest::Log(entry) && replays_entry(s.graph, replayed, entry),
    ensures
        s.graph.added_edge(next.graph, edge->0, EdgeView { from, to, edge_type }),
        exists|e: EdgeKey| #[trigger] s.graph.added_edge(replayed, e, EdgeView { from, to, edge_type }),
{
    assert(logs(next.store_requests@.last(), |e: LogEntry| is_add_edge_entry(e, s.graph.node_map()[from].id, s.graph.node_map()[to].id, edge_type)));
    let entry = next.store_requests@.last()->Log_0;
    assert(restored_edge_type(persisted_edge_type(edge_type)) == edge_type);
}

/// Replaying the entry logged by adding a node onto the graph as it was
/// adds the same node (under a node key of its own), when its identity was
/// not indexed before.
pub proof fn lemma_node_log_replays(
    s: GraphBrowserApp,
    next: GraphBrowserApp,
    key: NodeKey,
    url: Seq<char>,
    position: Position,
    replayed: Graph,
)
    requires
        s.wf(),
        s.persistence_enabled,
        s.added_node_synced(next, key, url, position),
        !s.graph.id_index().contains_key(next.graph.node_map()[key].id),
        next.store_requests@.last() matches StoreRequest::Log(entry) && replays_entry(s.graph, replayed, entry),
    ensures
        s.graph.added_node(next.graph, key, next.graph.node_map()[key].id, url, position),
        exists|k: NodeKey| #[trigger] s.graph.added_node(replayed, k, next.graph.node_map()[key].id, url, position),
{
    let id = next.graph.node_map()[key].id;
    assert(logs(next.store_requests@.last(), |e: LogEntry| is_add_node_entry(e, id, url, position)));
}

/// Replaying an entry depends only on the contents of the graph it is
/// replayed onto.
pub proof fn lemma_replay_respects_contents(g1: Graph, g2: Graph, next: Graph, entry: LogEntry)
    requires
        g1.same_contents(g2),
        replays_entry(g1, next, entry),
    ensures
        replays_entry(g2, next, entry),
{
    match entry {
        LogEntry::AddNode { node_id, url, position_x, position_y } => {
            if let Some(id) = crate::graph::node_id::uuid_parse(node_id@) {
                if !g1.id_index().contains_key(id) {
                    let key = choose|key: NodeKey| #[trigger] g1.added_node(next, key, id, url@, Position { x: position_x, y: position_y });
                    assert(g2.added_node(next, key, id, url@, Position { x: position_x, y: position_y }));
                }
            }
        },
        LogEntry::AddEdge { from_node_id, to_node_id, edge_type } => {
            let from = crate::persistence::replay::named_node(g1, from_node_id@);
            let to = crate::persistence::replay::named_node(g1, to_node_id@);
            if from is Some && to is Some {
                let e = choose|e: EdgeKey| #[trigger] g1.added_edge(next, e, EdgeView {
                    from: from->0,
                    to: to->0,
                    edge_type: restored_edge_type(edge_type),
                });
                assert(g2.added_edge(next, e, EdgeView { from: from->0, to: to->0, edge_type: restored_edge_type(edge_type) }));
            }
        },
        _ => {},
    }
}

/// `next` follows `s` by one logged operation that keeps node keys: a URL
/// update, a title change or the removal of a node, each of a node indexed
/// under its identity, or clearing the graph.
pub open spec fn key_preserving_logged_step(s: GraphBrowserApp, next: GraphBrowserApp) -> bool {
    ||| exists|key: NodeKey, new_url: String, previous: Option<String>|
        indexed_under_identity(s.graph, key) && #[trigger] s.url_updated(next, key, new_url, previous)
    ||| exists|key: NodeKey, title: String|
        indexed_under_identity(s.graph, key) && #[trigger] s.retitled_and_logged(next, key, title)
    ||| exists|key: NodeKey| indexed_under_identity(s.graph, key) && #[trigger] s.removed_one(next, key)
    ||| s.graph_cleared(next)
}

/// Replaying, onto a graph with the contents the run started from, the
/// entries that a run of URL updates, title changes, removals and clears
/// logged gives the graph that the run left: what recovery reads back is
/// what was written.
pub proof fn lemma_log_replay_reproduces_run(states: Seq<GraphBrowserApp>, gs: Seq<Graph>, entries: Seq<LogEntry>)
    requires
        states.len() == entries.len() + 1,
        forall|i: int| 0 <= i < entries.len() ==> {
            &&& (#[trigger] states[i]).wf()
            &&& states[i].persistence_enabled
            &&& key_preserving_logged_step(states[i], states[i + 1])
            &&& states[i + 1].store_requests@.last() == StoreRequest::Log(entries[i])
        },
        replay_trace(gs, entries),
        gs[0].same_contents(states[0].graph),
    ensures
        gs.last().same_contents(states.last().graph),
{
    lemma_replay_prefix(states, gs, entries, entries.len() as int);
}

/// The first `n` steps of a run are reproduced by the first `n` replays.
proof fn lemma_replay_prefix(states: Seq<GraphBrowserApp>, gs: Seq<Graph>, entries: Seq<LogEntry>, n: int)
    requires
        states.len() == entries.len() + 1,
        forall|i: int| 0 <= i < entries.len() ==> {
            &&& (#[trigger] states[i]).wf()
            &&& states[i].persistence_enabled
            &&& key_preserving_logged_step(states[i], states[i + 1])
            &&& states[i + 1].store_requests@.last() == StoreRequest::Log(entries[i])
        },
        replay_trace(gs, entries),
        gs[0].same_contents(states[0].graph),
        0 <= n <= entries.len(),
    ensures
        gs[n].same_contents(states[n].graph),
    decreases n,
{
    if n > 0 {
        let i = n - 1;
        lemma_replay_prefix(states, gs, entries, i);
        let s = states[i];
        let next = states[i + 1];
        assert(s.wf());
        assert(replays_entry(gs[i], gs[i + 1], entries[i]));
        lemma_replay_respects_contents(gs[i], s.graph, gs[i + 1], entries[i]);
        assert(next.store_requests@.last() matches StoreRequest::Log(entry) && replays_entry(s.graph, gs[i + 1], entry));
        if exists|key: NodeKey, new_url: String, previous: Option<String>|
            indexed_under_identity(s.graph, key) && #[trigger] s.url_updated(next, key, new_url, previous) {
            let (key, new_url, previous) = choose|key: NodeKey, new_url: String, previous: Option<String>|
                indexed_under_identity(s.graph, key) && #[trigger] s.url_updated(next, key, new_url, previous);
            lemma_url_update_log_replays(s, next, key, new_url, previous, gs[i + 1]);
        } else if exists|key: NodeKey, title: String|
            indexed_under_identity(s.graph, key) && #[trigger] s.retitled_and_logged(next, key, title) {
            let (key, title) = choose|key: NodeKey, title: String|
                indexed_under_identity(s.graph, key) && #[trigger] s.retitled_and_logged(next, key, title);
            lemma_title_change_log_replays(s, next, key, title, gs[i + 1]);
        } else if exists|key: NodeKey| indexed_under_identity(s.graph, key) && #[trigger] s.removed_one(next, key) {
            let key = choose|key: NodeKey| indexed_under_identity(s.graph, key) && #[trigger] s.removed_one(next, key);
            lemma_removal_log_replays(s, next, key, gs[i + 1]);
        } else {
            lemma_clear_log_replays(s, next, gs[i + 1]);
        }
    }
}


/// The two states hold the same: the same graph contents, selection,
/// webview maps, requests and flags.
pub open spec fn same_state(a: GraphBrowserApp, b: GraphBrowserApp) -> bool {
    &&& a.graph.same_contents(b.graph)
    &&& a.selected_nodes.order() == b.selected_nodes.order()
    &&& a.selected_nodes.primary_key() == b.selected_nodes.primary_key()
    &&& a.selected_nodes.revision_number() == b.selected_nodes.revision_number()
    &&& a.webview_nodes() == b.webview_nodes()
    &&& a.node_webviews() == b.node_webviews()
    &&& a.active_webview_nodes@ == b.active_webview_nodes@
    &&& a.store_requests@ == b.store_requests@
    &&& a.physics_running == b.physics_running
    &&& a.physics_running_before_interaction == b.physics_running_before_interaction
    &&& a.next_placeholder_id == b.next_placeholder_id
    &&& a.is_interacting == b.is_interacting
    &&& a.show_physics_panel == b.show_physics_panel
    &&& a.show_help_panel == b.show_help_panel
    &&& a.fit_to_screen_requested == b.fit_to_screen_requested
    &&& a.persistence_enabled == b.persistence_enabled
    &&& a.snapshot_interval_secs == b.snapshot_interval_secs
    &&& a.egui_state_dirty == b.egui_state_dirty
}

/// Intents whose effect rests on nothing but the state and the intent: no
/// new node (whose key, identity and visit time are not the library's
/// choice) and no logged text.
pub open spec fn is_state_determined(intent: GraphIntent) -> bool {
    match intent {
        GraphIntent::TogglePhysics => true,
        GraphIntent::RequestFitToScreen => true,
        GraphIntent::TogglePhysicsPanel => true,
        GraphIntent::ToggleHelpPanel => true,
        GraphIntent::ClearGraph => true,
        GraphIntent::SelectNode { .. } => true,
        GraphIntent::SetInteracting { .. } => true,
        GraphIntent::SetNodePosition { .. } => true,
        GraphIntent::WebViewHistoryChanged { .. } => true,
        GraphIntent::SetNodeThumbnail { .. } => true,
        GraphIntent::SetNodeFavicon { .. } => true,
        _ => false,
    }
}

/// Editing a node in place from two states that hold the same gives
/// states that hold the same.
proof fn lemma_node_replaced_same(s1: GraphBrowserApp, s2: GraphBrowserApp, n1: GraphBrowserApp, n2: GraphBrowserApp, key: NodeKey, m: Node, dirty: bool)
    requires
        same_state(s1, s2),
        s1.node_replaced(n1, key, m, dirty),
        s2.node_replaced(n2, key, m, dirty),
    ensures
        same_state(n1, n2),
{
}

/// One intent whose effect rests on the state alone, applied to two states
/// that hold the same, gives states that hold the same.
pub proof fn lemma_intent_applied_same(s1: GraphBrowserApp, s2: GraphBrowserApp, n1: GraphBrowserApp, n2: GraphBrowserApp, intent: GraphIntent, placement: Position)
    requires
        same_state(s1, s2),
        is_state_determined(intent),
        s1.intent_applied(n1, intent, placement),
        s2.intent_applied(n2, intent, placement),
    ensures
        same_state(n1, n2),
{
    match intent {
        GraphIntent::SelectNode { key, multi_select } => {
            assert(s1.selected_nodes.selected() == s2.selected_nodes.selected());
        },
        GraphIntent::SetNodePosition { key, position } => {
            lemma_node_replaced_same(s1, s2, n1, n2, key, Node { position, ..s1.graph.node_map()[key] }, false);
        },
        GraphIntent::SetNodeThumbnail { key, png_bytes, width, height } => {
            lemma_node_replaced_same(s1, s2, n1, n2, key, Node {
                thumbnail_png: Some(png_bytes),
                thumbnail_width: width,
                thumbnail_height: height,
                ..s1.graph.node_map()[key]
            }, true);
        },
        GraphIntent::SetNodeFavicon { key, rgba, width, height } => {
            lemma_node_replaced_same(s1, s2, n1, n2, key, Node {
                favicon_rgba: Some(rgba),
                favicon_width: width,
                favicon_height: height,
                ..s1.graph.node_map()[key]
            }, true);
        },
        GraphIntent::WebViewHistoryChanged { webview_id, entries, current } => {
            if s1.webview_nodes().contains_key(webview_id.id) {
                let key = s1.webview_nodes()[webview_id.id];
                lemma_node_replaced_same(s1, s2, n1, n2, key, Node {
                    history_entries: entries,
                    history_index: clamped_index(entries@.len(), current),
                    ..s1.graph.node_map()[key]
                }, false);
            }
        },
        GraphIntent::ClearGraph => {
            if s1.persistence_enabled {
                assert(n1.store_requests@ =~= n2.store_requests@) by {
                    assert(n1.store_requests@.last() == n2.store_requests@.last());
                    assert(n1.store_requests@.drop_last() == n2.store_requests@.drop_last());
                    assert forall|j: int| 0 <= j < n1.store_requests@.len() implies n1.store_requests@[j] == n2.store_requests@[j] by {
                        if j < n1.store_requests@.len() - 1 {
                            assert(n1.store_requests@[j] == n1.store_requests@.drop_last()[j]);
                            assert(n2.store_requests@[j] == n2.store_requests@.drop_last()[j]);
                        }
                    }
                }
            }
        },
        _ => {},
    }
}

proof fn lemma_traces_same(
    a: Seq<GraphBrowserApp>,
    b: Seq<GraphBrowserApp>,
    intents: Seq<(GraphIntent, Position)>,
    i: int,
)
    requires
        GraphBrowserApp::intent_trace(a, intents),
        GraphBrowserApp::intent_trace(b, intents),
        same_state(a[0], b[0]),
        forall|j: int| 0 <= j < intents.len() ==> is_state_determined(#[trigger] intents[j].0),
        0 <= i <= intents.len(),
    ensures
        same_state(a[i], b[i]),
    decreases i,
{
    if i > 0 {
        let h = i - 1;
        lemma_traces_same(a, b, intents, h);
        lemma_intent_trace_step(a, intents, h);
        lemma_intent_trace_step(b, intents, h);
        assert(is_state_determined(intents[h].0));
        lemma_intent_applied_same(a[h], b[h], a[i], b[i], intents[h].0, intents[h].1);
    }
}

/// Applying intents is deterministic where nothing outside the state
/// decides: the same batch of intents whose effect rests on the state
/// alone, applied to two states that hold the same, leaves two states that
/// hold the same.
pub proof fn lemma_intents_applied_deterministic(
    s1: GraphBrowserApp,
    s2: GraphBrowserApp,
    n1: GraphBrowserApp,
    n2: GraphBrowserApp,
    intents: Seq<(GraphIntent, Position)>,
)
    requires
        same_state(s1, s2),
        forall|j: int| 0 <= j < intents.len() ==> is_state_determined(#[trigger] intents[j].0),
        s1.intents_applied(n1, intents),
        s2.intents_applied(n2, intents),
    ensures
        same_state(n1, n2),
{
    let a = choose|states: Seq<GraphBrowserApp>| {
        &&& #[trigger] GraphBrowserApp::intent_trace(states, intents)
        &&& states[0] == s1
        &&& states.last() == n1
    };
    let b = choose|states: Seq<GraphBrowserApp>| {
        &&& #[trigger] GraphBrowserApp::intent_trace(states, intents)
        &&& states[0] == s2
        &&& states.last() == n2
    };
    lemma_traces_same(a, b, intents, intents.len() as int);
}


/// A history change reported by a webview gives the webview's (present)
/// node exactly the reported entries, and as current index the reported one
/// when it is in range, the last entry when it is past the end (the smaller
/// of the two), and 0 for an empty history. Every other node is untouched.
pub proof fn lemma_history_change_sets_index(
    s: GraphBrowserApp,
    next: GraphBrowserApp,
    webview_id: WebViewId,
    entries: Vec<String>,
    current: usize,
    placement: Position,
)
    requires
        s.intent_applied(next, GraphIntent::WebViewHistoryChanged { webview_id, entries, current }, placement),
        s.webview_nodes().contains_key(webview_id.id),
        s.graph.node_map().contains_key(s.webview_nodes()[webview_id.id]),
    ensures
        ({
            let key = s.webview_nodes()[webview_id.id];
            let n = next.graph.node_map()[key];
            &&& next.graph.node_map().contains_key(key)
            &&& n.history_entries == entries
            &&& entries@.len() == 0 ==> n.history_index == 0
            &&& entries@.len() > 0 ==> n.history_index as int == vstd::math::min(current as int, entries@.len() - 1)
            &&& current < entries@.len() ==> n.history_index == current
            &&& n.url@ == s.graph.node_map()[key].url@
            &&& n.title == s.graph.node_map()[key].title
            &&& forall|k: NodeKey| k != key && #[trigger] s.graph.node_map().contains_key(k) ==> next.graph.node_map()[k] == s.graph.node_map()[k]
        }),
{
}

} // verus!
