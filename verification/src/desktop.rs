//! Decisions of the desktop shell that do not depend on the window system:
//! turning browser-engine events into intents, stepping through search
//! matches, accepting captured thumbnails, reading a data directory typed
//! by the user, and checking tiles against the application state.

use vstd::prelude::*;

use crate::app::intent::GraphIntent;
use crate::app::{node_slot, GraphBrowserApp, WebViewId};
use crate::graph::{default_position, spec_default_position, NodeKey, NodeLifecycle, Position};
use crate::search::{fuzzy_match_node_keys, is_search_result};
use crate::text::{decimal, u32_to_decimal, has_prefix, is_stripped, same_text, strip_ends, strip_prefix, Strip};
use crate::util::copy_bytes;

verus! {

/// What the browser engine reports about its webviews.
pub enum GraphSemanticEvent {
    UrlChanged {
        webview_id: WebViewId,
        new_url: String,
    },
    HistoryChanged {
        webview_id: WebViewId,
        entries: Vec<String>,
        current: usize,
    },
    PageTitleChanged {
        webview_id: WebViewId,
        title: Option<String>,
    },
    CreateNewWebView {
        parent_webview_id: WebViewId,
        child_webview_id: WebViewId,
        initial_url: Option<String>,
    },
}

/// The intent an engine event asks for.
pub open spec fn intent_for_event(e: GraphSemanticEvent) -> GraphIntent {
    match e {
        GraphSemanticEvent::UrlChanged { webview_id, new_url } => GraphIntent::WebViewUrlChanged { webview_id, new_url },
        GraphSemanticEvent::HistoryChanged { webview_id, entries, current } =>
            GraphIntent::WebViewHistoryChanged { webview_id, entries, current },
        GraphSemanticEvent::PageTitleChanged { webview_id, title } => GraphIntent::WebViewTitleChanged { webview_id, title },
        GraphSemanticEvent::CreateNewWebView { parent_webview_id, child_webview_id, initial_url } =>
            GraphIntent::WebViewCreated { parent_webview_id, child_webview_id, initial_url },
    }
}

/// The intent an engine event asks for.
pub fn intent_from_event(e: GraphSemanticEvent) -> (intent: GraphIntent)
    ensures
        intent == intent_for_event(e),
{
    match e {
        GraphSemanticEvent::UrlChanged { webview_id, new_url } => GraphIntent::WebViewUrlChanged { webview_id, new_url },
        GraphSemanticEvent::HistoryChanged { webview_id, entries, current } =>
            GraphIntent::WebViewHistoryChanged { webview_id, entries, current },
        GraphSemanticEvent::PageTitleChanged { webview_id, title } => GraphIntent::WebViewTitleChanged { webview_id, title },
        GraphSemanticEvent::CreateNewWebView { parent_webview_id, child_webview_id, initial_url } =>
            GraphIntent::WebViewCreated { parent_webview_id, child_webview_id, initial_url },
    }
}

/// Convert engine events to intents, one for one, in order.
pub fn graph_intents_from_semantic_events(events: Vec<GraphSemanticEvent>) -> (intents: Vec<GraphIntent>)
    ensures
        intents@ == events@.map_values(|e: GraphSemanticEvent| intent_for_event(e)),
{
    let ghost all = events@;
    let mut rest = events;
    let mut intents: Vec<GraphIntent> = Vec::new();
    let ghost mut done: int = 0;
    while rest.len() > 0
        invariant
            0 <= done <= all.len(),
            rest@ == all.skip(done),
            intents@ == all.take(done).map_values(|e: GraphSemanticEvent| intent_for_event(e)),
        decreases rest@.len(),
    {
        let e = rest.remove(0);
        assert(all[done] == e) by {
            assert(all.skip(done)[0] == all[done]);
        }
        intents.push(intent_from_event(e));
        proof {
            done = done + 1;
            assert(rest@ =~= all.skip(done));
            assert(intents@ =~= all.take(done).map_values(|e: GraphSemanticEvent| intent_for_event(e)));
        }
    }
    proof {
        assert(all.take(done) =~= all);
    }
    intents
}

/// Whether an event reports a new webview.
pub open spec fn is_creation(e: GraphSemanticEvent) -> bool {
    e is CreateNewWebView
}

/// Order pending engine events for the reducer: webview creations first,
/// then every other event, each group in the order given. Also returns
/// the webviews that were created, in order.
pub fn graph_intents_from_pending_semantic_events(events: Vec<GraphSemanticEvent>) -> (r: (Vec<GraphIntent>, Vec<WebViewId>))
    ensures
        r.0@ == events@.filter(|e: GraphSemanticEvent| is_creation(e)).map_values(|e: GraphSemanticEvent| intent_for_event(e))
            + events@.filter(|e: GraphSemanticEvent| !is_creation(e)).map_values(|e: GraphSemanticEvent| intent_for_event(e)),
        r.1@ == events@.filter(|e: GraphSemanticEvent| is_creation(e)).map_values(|e: GraphSemanticEvent| e->child_webview_id),
{
    let ghost all = events@;
    let mut rest = events;
    let mut create_events: Vec<GraphSemanticEvent> = Vec::new();
    let mut other_events: Vec<GraphSemanticEvent> = Vec::new();
    let mut created: Vec<WebViewId> = Vec::new();
    let ghost mut done: int = 0;
    while rest.len() > 0
        invariant
            0 <= done <= all.len(),
            rest@ == all.skip(done),
            create_events@ == all.take(done).filter(|e: GraphSemanticEvent| is_creation(e)),
            other_events@ == all.take(done).filter(|e: GraphSemanticEvent| !is_creation(e)),
            created@ == create_events@.map_values(|e: GraphSemanticEvent| e->child_webview_id),
        decreases rest@.len(),
    {
        let e = rest.remove(0);
        assert(all[done] == e) by {
            assert(all.skip(done)[0] == all[done]);
        }
        proof {
            assert(all.take(done + 1).drop_last() =~= all.take(done));
            reveal(Seq::filter);
        }
        match e {
            GraphSemanticEvent::CreateNewWebView { parent_webview_id, child_webview_id, initial_url } => {
                created.push(child_webview_id);
                create_events.push(GraphSemanticEvent::CreateNewWebView { parent_webview_id, child_webview_id, initial_url });
            },
            _ => other_events.push(e),
        }
        proof {
            done = done + 1;
            assert(rest@ =~= all.skip(done));
            assert(created@ =~= create_events@.map_values(|e: GraphSemanticEvent| e->child_webview_id));
        }
    }
    proof {
        assert(all.take(done) =~= all);
    }
    let mut intents = graph_intents_from_semantic_events(create_events);
    let mut others = graph_intents_from_semantic_events(other_events);
    intents.append(&mut others);
    (intents, created)
}

} // verus!

verus! {

/// Search for `query` in the application's graph and keep the active match
/// in range: a blank query clears the matches and the active index; no
/// match clears the active index; an active index that is missing or out
/// of range becomes 0; a valid one is kept.
pub fn refresh_graph_search_matches(
    graph_app: &GraphBrowserApp,
    query: &str,
    matches: &mut Vec<NodeKey>,
    active_index: &mut Option<usize>,
)
    requires
        graph_app.wf(),
    ensures
        is_search_result(graph_app.graph, query@, final(matches)@),
        final(matches)@.len() == 0 ==> *final(active_index) == None::<usize>,
        final(matches)@.len() > 0 ==> *final(active_index) == (match *old(active_index) {
            Some(i) => if i < final(matches)@.len() { Some(i) } else { Some(0usize) },
            None => Some(0usize),
        }),
{
    *matches = fuzzy_match_node_keys(&graph_app.graph, query);
    if matches.len() == 0 {
        *active_index = None;
    } else {
        match *active_index {
            Some(i) => {
                if i >= matches.len() {
                    *active_index = Some(0);
                }
            },
            None => {
                *active_index = Some(0);
            },
        }
    }
}

/// The active index after moving `active` by `step` through `len`
/// matches, wrapping around; a missing index counts as 0, and with no
/// match there is none.
pub open spec fn stepped(len: nat, active: Option<usize>, step: isize) -> Option<usize> {
    if len == 0 {
        None
    } else {
        Some((((match active { Some(i) => i, None => 0usize } as isize) + step) % (len as int)) as usize)
    }
}

/// Move the active match by `step`, wrapping around the list of matches;
/// a missing active index counts as 0. With no match, the active index is
/// cleared.
pub fn step_graph_search_active_match(matches: &Vec<NodeKey>, active_index: &mut Option<usize>, step: isize)
    requires
        isize::MIN <= (match *old(active_index) { Some(i) => i, None => 0usize } as isize) + step <= isize::MAX,
    ensures
        *final(active_index) == stepped(matches@.len(), *old(active_index), step),
{
    if matches.len() == 0 {
        *active_index = None;
        return;
    }
    let current = match *active_index {
        Some(i) => i,
        None => 0,
    } as isize;
    let len = matches.len() as i128;
    let moved = current as i128 + step as i128;
    match moved.checked_rem_euclid(len) {
        Some(r) => {
            *active_index = Some(r as usize);
        },
        None => {},
    }
}

/// Stepping forward and then back through the matches returns to the
/// active match.
pub proof fn lemma_step_back_undoes_forward(len: nat, i: usize)
    requires
        i < len <= isize::MAX,
    ensures
        stepped(len, stepped(len, Some(i), 1isize), -1isize) == Some(i),
{
    let forward = ((i as isize) + 1) % (len as int);
    assert(i as isize == i);
    assert(forward == if i + 1 < len { i + 1 } else { 0 }) by (nonlinear_arith)
        requires
            forward == (i + 1) % (len as int),
            0 <= i < len,
    ;
    let back = (((forward as usize) as isize) + (-1isize)) % (len as int);
    assert((forward as usize) as isize == forward);
    assert(back == i) by (nonlinear_arith)
        requires
            back == (forward - 1) % (len as int),
            forward == if i + 1 < len { i + 1 } else { 0 },
            0 <= i < len,
    ;
}

/// Stepping lands on the match `step` places away from the active one,
/// wrapping around: the new index is in range and differs from
/// `i + step` by a whole number of rounds through the matches. Stepping
/// by 1 goes to the next match (the first after the last); stepping by -1
/// goes to the previous one (the last before the first).
pub proof fn lemma_step_moves_by_step(len: nat, i: usize, step: isize)
    requires
        i < len <= isize::MAX,
        isize::MIN <= i + step <= isize::MAX,
    ensures
        stepped(len, Some(i), step) is Some,
        stepped(len, Some(i), step)->0 < len,
        (i + step - stepped(len, Some(i), step)->0) % (len as int) == 0,
        step == 1 ==> stepped(len, Some(i), step) == Some(if i + 1 < len { (i + 1) as usize } else { 0usize }),
        step == -1 ==> stepped(len, Some(i), step) == Some(if i > 0 { (i - 1) as usize } else { (len - 1) as usize }),
{
    let r = ((i as isize) + step) % (len as int);
    assert(i as isize == i);
    assert(0 <= r < len) by (nonlinear_arith)
        requires
            r == (i + step) % (len as int),
            len > 0,
    ;
    assert((r as usize) as int == r);
    assert((i + step - r) % (len as int) == 0) by (nonlinear_arith)
        requires
            r == (i + step) % (len as int),
            len > 0,
    ;
    if step == 1 {
        assert(r == if i + 1 < len { i + 1 } else { 0 }) by (nonlinear_arith)
            requires
                r == (i + 1) % (len as int),
                0 <= i < len,
        ;
    }
    if step == -1 {
        assert(r == if i > 0 { i - 1 } else { len - 1 }) by (nonlinear_arith)
            requires
                r == (i - 1) % (len as int),
                0 <= i < len,
        ;
    }
}

/// The active match, when the active index is in range.
pub fn active_graph_search_match(matches: &Vec<NodeKey>, active_index: Option<usize>) -> (key: Option<NodeKey>)
    ensures
        key == (match active_index {
            Some(i) => if i < matches@.len() { Some(matches@[i as int]) } else { None::<NodeKey> },
            None => None::<NodeKey>,
        }),
{
    match active_index {
        Some(i) => if i < matches.len() { Some(matches[i]) } else { None },
        None => None,
    }
}

} // verus!

verus! {

/// A thumbnail captured for a webview, with the URL its node had when the
/// capture was requested.
pub struct ThumbnailCaptureResult {
    pub webview_id: WebViewId,
    pub requested_url: String,
    pub png_bytes: Option<Vec<u8>>,
    pub width: u32,
    pub height: u32,
}

/// The node a thumbnail result belongs to: the webview's node, when it is
/// present and still at the requested URL, and the capture produced bytes.
pub open spec fn thumbnail_target(app: GraphBrowserApp, result: ThumbnailCaptureResult) -> Option<NodeKey> {
    let key = app.webview_nodes()[result.webview_id.id];
    if app.webview_nodes().contains_key(result.webview_id.id)
        && app.graph.node_map().contains_key(key)
        && app.graph.node_map()[key].url@ == result.requested_url@
        && result.png_bytes is Some {
        Some(key)
    } else {
        None
    }
}

/// The intent that stores a captured thumbnail on its node; `None` for a
/// stale capture (unmapped webview, missing node, or a node that has moved
/// to another URL) or one without bytes.
pub fn graph_intent_for_thumbnail_result(graph_app: &GraphBrowserApp, result: &ThumbnailCaptureResult) -> (intent: Option<GraphIntent>)
    requires
        graph_app.wf(),
    ensures
        match thumbnail_target(*graph_app, *result) {
            Some(key) => intent matches Some(GraphIntent::SetNodeThumbnail { key: k, png_bytes, width, height })
                && k == key && png_bytes@ == result.png_bytes->0@ && width == result.width && height == result.height,
            None => intent is None,
        },
{
    let node_key = match graph_app.get_node_for_webview(result.webview_id) {
        Some(k) => k,
        None => return None,
    };
    let same_url = match graph_app.graph.get_node(node_key) {
        Some(node) => same_text(node.url.as_str(), result.requested_url.as_str()),
        None => return None,
    };
    if !same_url {
        return None;
    }
    match &result.png_bytes {
        Some(bytes) => Some(GraphIntent::SetNodeThumbnail {
            key: node_key,
            png_bytes: copy_bytes(bytes),
            width: result.width,
            height: result.height,
        }),
        None => None,
    }
}

/// The URL to capture a thumbnail for, for a webview whose capture was
/// requested: its node's URL, unless the webview is unmapped, the node is
/// missing, or the URL starts with `about:blank`.
pub fn thumbnail_capture_url(graph_app: &GraphBrowserApp, webview_id: WebViewId) -> (url: Option<String>)
    requires
        graph_app.wf(),
    ensures
        url matches Some(u) ==> capture_url(*graph_app, webview_id) == Some(u@),
        url is None ==> capture_url(*graph_app, webview_id) is None,
        match url {
            Some(u) => {
                let key = graph_app.webview_nodes()[webview_id.id];
                &&& graph_app.webview_nodes().contains_key(webview_id.id)
                &&& graph_app.graph.node_map().contains_key(key)
                &&& u@ == graph_app.graph.node_map()[key].url@
                &&& !has_prefix(u@, "about:blank"@)
            },
            None => !graph_app.webview_nodes().contains_key(webview_id.id)
                || !graph_app.graph.node_map().contains_key(graph_app.webview_nodes()[webview_id.id])
                || has_prefix(graph_app.graph.node_map()[graph_app.webview_nodes()[webview_id.id]].url@, "about:blank"@),
        },
{
    let node_key = match graph_app.get_node_for_webview(webview_id) {
        Some(k) => k,
        None => return None,
    };
    match graph_app.graph.get_node(node_key) {
        Some(node) => {
            if strip_prefix(node.url.as_str(), "about:blank").is_some() {
                None
            } else {
                Some(node.url.clone())
            }
        },
        None => None,
    }
}

/// The URL a thumbnail is captured for, for webview `w`: its node's URL,
/// unless the webview is unmapped, the node is missing, or the URL starts
/// with `about:blank`.
pub open spec fn capture_url(app: GraphBrowserApp, w: WebViewId) -> Option<Seq<char>> {
    let key = app.webview_nodes()[w.id];
    if app.webview_nodes().contains_key(w.id) && app.graph.node_map().contains_key(key)
        && !has_prefix(app.graph.node_map()[key].url@, "about:blank"@) {
        Some(app.graph.node_map()[key].url@)
    } else {
        None
    }
}

/// The captures taken for the requests `requested`, in order, as (webview
/// number, URL), and the webviews in flight afterwards: a request is
/// skipped when its webview is already in flight, is not among the `live`
/// webviews, or has no capture URL; otherwise it is taken and its webview
/// is in flight from then on.
pub open spec fn capture_round(
    app: GraphBrowserApp,
    requested: Seq<WebViewId>,
    live: Set<u64>,
    in_flight: Set<u64>,
) -> (Seq<(u64, Seq<char>)>, Set<u64>)
    decreases requested.len(),
{
    if requested.len() == 0 {
        (Seq::empty(), in_flight)
    } else {
        let prev = capture_round(app, requested.drop_last(), live, in_flight);
        let w = requested.last();
        if prev.1.contains(w.id) || !live.contains(w.id) || capture_url(app, w) is None {
            prev
        } else {
            (prev.0.push((w.id, capture_url(app, w)->0)), prev.1.insert(w.id))
        }
    }
}

/// Whether `ws` holds a webview numbered `id`.
fn has_webview(ws: &Vec<WebViewId>, id: u64) -> (found: bool)
    ensures
        found == webview_numbers(ws@).contains(id),
{
    let mut i: usize = 0;
    while i < ws.len()
        invariant
            i <= ws@.len(),
            forall|j: int| 0 <= j < i ==> ws@[j].id != id,
        decreases ws@.len() - i,
    {
        if ws[i].id == id {
            assert(ws@[i as int].id == id);
            return true;
        }
        i = i + 1;
    }
    false
}

/// Keep in `in_flight` only the webviews that `live` holds.
fn retain_live(in_flight: &mut Vec<WebViewId>, live: &Vec<WebViewId>)
    ensures
        webview_numbers(final(in_flight)@) == webview_numbers(old(in_flight)@).intersect(webview_numbers(live@)),
{
    let ghost live_ids = webview_numbers(live@);
    let mut kept: Vec<WebViewId> = Vec::new();
    let mut i: usize = 0;
    while i < in_flight.len()
        invariant
            i <= in_flight@.len(),
            live_ids == webview_numbers(live@),
            in_flight@ == old(in_flight)@,
            webview_numbers(kept@) == webview_numbers(in_flight@.take(i as int)).intersect(live_ids),
        decreases in_flight@.len() - i,
    {
        let w = in_flight[i];
        let ghost before = kept@;
        proof {
            assert(in_flight@.take(i + 1) =~= in_flight@.take(i as int).push(w));
        }
        if has_webview(live, w.id) {
            kept.push(w);
            proof {
                assert(webview_numbers(kept@) =~= webview_numbers(in_flight@.take(i + 1)).intersect(live_ids)) by {
                    assert forall|n: u64| webview_numbers(kept@).contains(n) <==> webview_numbers(in_flight@.take(i + 1)).intersect(live_ids).contains(n) by {
                        if webview_numbers(kept@).contains(n) {
                            let j = choose|j: int| 0 <= j < kept@.len() && #[trigger] kept@[j].id == n;
                            if j < before.len() {
                                assert(before[j].id == n);
                                assert(webview_numbers(before).contains(n));
                                let m = choose|m: int| 0 <= m < i && #[trigger] in_flight@.take(i as int)[m].id == n;
                                assert(in_flight@.take(i + 1)[m].id == n);
                            } else {
                                assert(in_flight@.take(i + 1)[i as int].id == n);
                            }
                        }
                        if webview_numbers(in_flight@.take(i + 1)).intersect(live_ids).contains(n) {
                            let m = choose|m: int| 0 <= m < i + 1 && #[trigger] in_flight@.take(i + 1)[m].id == n;
                            if m < i {
                                assert(in_flight@.take(i as int)[m].id == n);
                                assert(webview_numbers(before).contains(n));
                                let j = choose|j: int| 0 <= j < before.len() && #[trigger] before[j].id == n;
                                assert(kept@[j].id == n);
                            } else {
                                assert(kept@[kept@.len() - 1].id == n);
                            }
                        }
                    }
                }
            }
        } else {
            proof {
                assert(webview_numbers(kept@) =~= webview_numbers(in_flight@.take(i + 1)).intersect(live_ids)) by {
                    assert forall|n: u64| webview_numbers(kept@).contains(n) <==> webview_numbers(in_flight@.take(i + 1)).intersect(live_ids).contains(n) by {
                        if webview_numbers(kept@).contains(n) {
                            let m = choose|m: int| 0 <= m < i && #[trigger] in_flight@.take(i as int)[m].id == n;
                            assert(in_flight@.take(i + 1)[m].id == n);
                        }
                        if webview_numbers(in_flight@.take(i + 1)).intersect(live_ids).contains(n) {
                            let m = choose|m: int| 0 <= m < i + 1 && #[trigger] in_flight@.take(i + 1)[m].id == n;
                            if m < i {
                                assert(in_flight@.take(i as int)[m].id == n);
                            } else {
                                assert(n == w.id);
                            }
                        }
                    }
                }
            }
        }
        i = i + 1;
    }
    proof {
        assert(in_flight@.take(in_flight@.len() as int) =~= in_flight@);
    }
    *in_flight = kept;
}

/// Forget webview `id` in `in_flight`.
fn forget_webview(in_flight: &mut Vec<WebViewId>, id: u64)
    ensures
        webview_numbers(final(in_flight)@) == webview_numbers(old(in_flight)@).remove(id),
{
    let mut kept: Vec<WebViewId> = Vec::new();
    let mut i: usize = 0;
    while i < in_flight.len()
        invariant
            i <= in_flight@.len(),
            in_flight@ == old(in_flight)@,
            webview_numbers(kept@) == webview_numbers(in_flight@.take(i as int)).remove(id),
        decreases in_flight@.len() - i,
    {
        let w = in_flight[i];
        let ghost before = kept@;
        proof {
            assert(in_flight@.take(i + 1) =~= in_flight@.take(i as int).push(w));
        }
        if w.id != id {
            kept.push(w);
        }
        proof {
            assert(webview_numbers(kept@) =~= webview_numbers(in_flight@.take(i + 1)).remove(id)) by {
                assert forall|n: u64| webview_numbers(kept@).contains(n) <==> webview_numbers(in_flight@.take(i + 1)).remove(id).contains(n) by {
                    if webview_numbers(kept@).contains(n) {
                        let j = choose|j: int| 0 <= j < kept@.len() && #[trigger] kept@[j].id == n;
                        if j < before.len() {
                            assert(before[j].id == n);
                            assert(webview_numbers(before).contains(n));
                            let m = choose|m: int| 0 <= m < i && #[trigger] in_flight@.take(i as int)[m].id == n;
                            assert(in_flight@.take(i + 1)[m].id == n);
                        } else {
                            assert(in_flight@.take(i + 1)[i as int].id == n);
                        }
                    }
                    if webview_numbers(in_flight@.take(i + 1)).remove(id).contains(n) {
                        let m = choose|m: int| 0 <= m < i + 1 && #[trigger] in_flight@.take(i + 1)[m].id == n;
                        if m < i {
                            assert(in_flight@.take(i as int)[m].id == n);
                            assert(webview_numbers(before).contains(n));
                            let j = choose|j: int| 0 <= j < before.len() && #[trigger] before[j].id == n;
                            assert(kept@[j].id == n);
                        } else {
                            assert(kept@[kept@.len() - 1].id == n);
                        }
                    }
                }
            }
        }
        i = i + 1;
    }
    proof {
        assert(in_flight@.take(in_flight@.len() as int) =~= in_flight@);
    }
    *in_flight = kept;
}

/// The results of `results` that are accepted (see `thumbnail_target`),
/// in order.
pub open spec fn accepted_thumbnails(app: GraphBrowserApp, results: Seq<ThumbnailCaptureResult>) -> Seq<ThumbnailCaptureResult>
    decreases results.len(),
{
    if results.len() == 0 {
        Seq::empty()
    } else {
        let prev = accepted_thumbnails(app, results.drop_last());
        if thumbnail_target(app, results.last()) is Some {
            prev.push(results.last())
        } else {
            prev
        }
    }
}

/// The webview numbers of the results of `results`.
pub open spec fn result_webviews(results: Seq<ThumbnailCaptureResult>) -> Set<u64> {
    Set::new(|n: u64| exists|i: int| 0 <= i < results.len() && #[trigger] results[i].webview_id.id == n)
}

/// Take in the captures that came back: forget the in-flight webviews that
/// no longer exist and those whose capture came back, and turn each
/// accepted capture into the intent that stores it on its node, in order.
pub fn load_pending_thumbnail_results(
    graph_app: &GraphBrowserApp,
    results: &Vec<ThumbnailCaptureResult>,
    live: &Vec<WebViewId>,
    in_flight: &mut Vec<WebViewId>,
) -> (intents: Vec<GraphIntent>)
    requires
        graph_app.wf(),
    ensures
        webview_numbers(final(in_flight)@) == webview_numbers(old(in_flight)@).intersect(webview_numbers(live@))
            .difference(result_webviews(results@)),
        intents@.len() == accepted_thumbnails(*graph_app, results@).len(),
        forall|i: int| #![trigger intents@[i]] 0 <= i < intents@.len() ==> {
            let r = accepted_thumbnails(*graph_app, results@)[i];
            intents@[i] matches GraphIntent::SetNodeThumbnail { key, png_bytes, width, height }
                && key == thumbnail_target(*graph_app, r)->0 && png_bytes@ == r.png_bytes->0@
                && width == r.width && height == r.height
        },
{
    let ghost start = webview_numbers(old(in_flight)@).intersect(webview_numbers(live@));
    retain_live(in_flight, live);
    let mut intents: Vec<GraphIntent> = Vec::new();
    let mut i: usize = 0;
    while i < results.len()
        invariant
            i <= results@.len(),
            graph_app.wf(),
            webview_numbers(in_flight@) == start.difference(result_webviews(results@.take(i as int))),
            intents@.len() == accepted_thumbnails(*graph_app, results@.take(i as int)).len(),
            forall|j: int| #![trigger intents@[j]] 0 <= j < intents@.len() ==> {
                let r = accepted_thumbnails(*graph_app, results@.take(i as int))[j];
                intents@[j] matches GraphIntent::SetNodeThumbnail { key, png_bytes, width, height }
                    && key == thumbnail_target(*graph_app, r)->0 && png_bytes@ == r.png_bytes->0@
                    && width == r.width && height == r.height
            },
        decreases results@.len() - i,
    {
        let result = &results[i];
        let ghost prev_acc = accepted_thumbnails(*graph_app, results@.take(i as int));
        proof {
            assert(results@.take(i + 1).drop_last() =~= results@.take(i as int));
            assert(results@.take(i + 1).last() == *result);
        }
        forget_webview(in_flight, result.webview_id.id);
        proof {
            assert(result_webviews(results@.take(i + 1)) =~= result_webviews(results@.take(i as int)).insert(result.webview_id.id)) by {
                assert forall|n: u64| result_webviews(results@.take(i + 1)).contains(n) <==> result_webviews(results@.take(i as int)).insert(result.webview_id.id).contains(n) by {
                    if result_webviews(results@.take(i + 1)).contains(n) {
                        let j = choose|j: int| 0 <= j < i + 1 && #[trigger] results@.take(i + 1)[j].webview_id.id == n;
                        if j < i {
                            assert(results@.take(i as int)[j].webview_id.id == n);
                        }
                    }
                    if result_webviews(results@.take(i as int)).contains(n) {
                        let j = choose|j: int| 0 <= j < i && #[trigger] results@.take(i as int)[j].webview_id.id == n;
                        assert(results@.take(i + 1)[j].webview_id.id == n);
                    }
                    if n == result.webview_id.id {
                        assert(results@.take(i + 1)[i as int].webview_id.id == n);
                    }
                }
            }
            assert(webview_numbers(in_flight@) =~= start.difference(result_webviews(results@.take(i + 1))));
        }
        match graph_intent_for_thumbnail_result(graph_app, result) {
            Some(intent) => {
                intents.push(intent);
            },
            None => {},
        }
        proof {
            let acc = accepted_thumbnails(*graph_app, results@.take(i + 1));
            assert forall|j: int| #![trigger intents@[j]] 0 <= j < intents@.len() implies {
                let r = acc[j];
                intents@[j] matches GraphIntent::SetNodeThumbnail { key, png_bytes, width, height }
                    && key == thumbnail_target(*graph_app, r)->0 && png_bytes@ == r.png_bytes->0@
                    && width == r.width && height == r.height
            } by {
                if j < prev_acc.len() {
                    assert(acc[j] == prev_acc[j]);
                }
            }
        }
        i = i + 1;
    }
    proof {
        assert(results@.take(results@.len() as int) =~= results@);
    }
    intents
}

/// Decide which requested thumbnail captures to take: first forget the
/// in-flight webviews that no longer exist (`live` lists those that do),
/// then go through the requests in order (see `capture_round`). Returns
/// each capture to take with the URL it is for; the embedder takes the
/// screenshots and reports them as `ThumbnailCaptureResult`s.
pub fn request_pending_thumbnail_captures(
    graph_app: &GraphBrowserApp,
    requested: &Vec<WebViewId>,
    live: &Vec<WebViewId>,
    in_flight: &mut Vec<WebViewId>,
) -> (captures: Vec<(WebViewId, String)>)
    requires
        graph_app.wf(),
    ensures
        ({
            let round = capture_round(*graph_app, requested@, webview_numbers(live@),
                webview_numbers(old(in_flight)@).intersect(webview_numbers(live@)));
            &&& captures@.map_values(|c: (WebViewId, String)| (c.0.id, c.1@)) == round.0
            &&& webview_numbers(final(in_flight)@) == round.1
        }),
{
    let ghost live_ids = webview_numbers(live@);
    let ghost start = webview_numbers(old(in_flight)@).intersect(live_ids);
    retain_live(in_flight, live);
    let mut captures: Vec<(WebViewId, String)> = Vec::new();
    let mut r: usize = 0;
    while r < requested.len()
        invariant
            r <= requested@.len(),
            graph_app.wf(),
            live_ids == webview_numbers(live@),
            ({
                let round = capture_round(*graph_app, requested@.take(r as int), live_ids, start);
                &&& captures@.map_values(|c: (WebViewId, String)| (c.0.id, c.1@)) == round.0
                &&& webview_numbers(in_flight@) == round.1
            }),
        decreases requested@.len() - r,
    {
        let w = requested[r];
        proof {
            assert(requested@.take(r + 1).drop_last() =~= requested@.take(r as int));
            assert(requested@.take(r + 1).last() == w);
        }
        let busy = has_webview(in_flight, w.id);
        let alive = has_webview(live, w.id);
        if !busy && alive {
            match thumbnail_capture_url(graph_app, w) {
                Some(url) => {
                    let ghost before = in_flight@;
                    in_flight.push(w);
                    captures.push((w, url));
                    proof {
                        let prev = capture_round(*graph_app, requested@.take(r as int), live_ids, start);
                        assert(webview_numbers(in_flight@) =~= prev.1.insert(w.id)) by {
                            assert forall|n: u64| webview_numbers(in_flight@).contains(n) <==> prev.1.insert(w.id).contains(n) by {
                                if webview_numbers(in_flight@).contains(n) && n != w.id {
                                    let j = choose|j: int| 0 <= j < in_flight@.len() && #[trigger] in_flight@[j].id == n;
                                    assert(before[j].id == n);
                                    assert(webview_numbers(before).contains(n));
                                }
                                if prev.1.contains(n) && n != w.id {
                                    let j = choose|j: int| 0 <= j < before.len() && #[trigger] before[j].id == n;
                                    assert(in_flight@[j].id == n);
                                }
                                if n == w.id {
                                    assert(in_flight@[in_flight@.len() - 1].id == n);
                                }
                            }
                        }
                        assert(captures@.map_values(|c: (WebViewId, String)| (c.0.id, c.1@)) =~= prev.0.push((w.id, capture_url(*graph_app, w)->0)));
                    }
                },
                None => {},
            }
        }
        r = r + 1;
    }
    proof {
        assert(requested@.take(requested@.len() as int) =~= requested@);
    }
    captures
}

/// `r` is what the data-directory field yields for `raw`: trimmed of white
/// space, then of double quotes, then of single quotes, then of white space
/// again.
pub open spec fn is_cleaned_dir_input(r: Seq<char>, raw: Seq<char>) -> bool {
    exists|a: Seq<char>, b: Seq<char>, c: Seq<char>| {
        &&& #[trigger] is_stripped(a, raw, Strip::WhiteSpace)
        &&& #[trigger] is_stripped(b, a, Strip::Char('"'))
        &&& #[trigger] is_stripped(c, b, Strip::Char('\''))
        &&& is_stripped(r, c, Strip::WhiteSpace)
    }
}

/// Read a data directory typed by the user: surrounding white space and
/// quotes are removed; nothing left means no directory.
pub fn parse_data_dir_input(raw: &str) -> (dir: Option<String>)
    ensures
        exists|r: Seq<char>| #[trigger] is_cleaned_dir_input(r, raw@) && match dir {
            Some(d) => d@ == r && r.len() > 0,
            None => r.len() == 0,
        },
{
    let a = strip_ends(raw, Strip::WhiteSpace);
    let b = strip_ends(a, Strip::Char('"'));
    let c = strip_ends(b, Strip::Char('\''));
    let r = strip_ends(c, Strip::WhiteSpace);
    assert(is_cleaned_dir_input(r@, raw@));
    if r.unicode_len() == 0 {
        None
    } else {
        Some(r.to_string())
    }
}

} // verus!

verus! {

/// Whether `keys` lists `k`.
pub(crate) fn lists_key(keys: &Vec<NodeKey>, k: NodeKey) -> (found: bool)
    ensures
        found == keys@.contains(k),
{
    let mut i: usize = 0;
    while i < keys.len()
        invariant
            i <= keys@.len(),
            forall|j: int| 0 <= j < i ==> keys@[j] != k,
        decreases keys@.len() - i,
    {
        if keys[i] == k {
            assert(keys@[i as int] == k);
            return true;
        }
        i = i + 1;
    }
    false
}

/// The problems found for the node shown in a webview tile: a tile whose
/// node is gone; otherwise a node without a webview, and a node without a
/// rendering context (`contexts` lists the nodes that have one).
pub open spec fn tile_violations(app: GraphBrowserApp, contexts: Seq<NodeKey>, k: NodeKey) -> Seq<Seq<char>> {
    if !app.graph.node_map().contains_key(k) {
        seq!["tile/webview desync: tile has stale node key "@ + decimal(k.index as nat)]
    } else {
        (if !app.node_webviews().contains_key(node_slot(k)) {
            seq!["tile/webview desync: node "@ + decimal(k.index as nat) + " is missing webview mapping"@]
        } else {
            Seq::<Seq<char>>::empty()
        }) + (if !contexts.contains(k) {
            seq!["tile/context desync: node "@ + decimal(k.index as nat) + " is missing rendering context"@]
        } else {
            Seq::<Seq<char>>::empty()
        })
    }
}

/// The problems found for the tiles of `tiles`, tile after tile.
pub open spec fn all_tile_violations(app: GraphBrowserApp, contexts: Seq<NodeKey>, tiles: Seq<NodeKey>) -> Seq<Seq<char>>
    decreases tiles.len(),
{
    if tiles.len() == 0 {
        Seq::empty()
    } else {
        all_tile_violations(app, contexts, tiles.drop_last()) + tile_violations(app, contexts, tiles.last())
    }
}

/// `"<head><n><tail>"` for node index `n`.
fn index_message(head: &str, n: u32, tail: &str) -> (m: String)
    ensures
        m@ == head@ + decimal(n as nat) + tail@,
{
    let mut m = head.to_string();
    let digits = u32_to_decimal(n);
    m.append(digits.as_str());
    m.append(tail);
    m
}

/// Check the webview tiles (`tile_nodes`, the nodes shown in tiles)
/// against the application state and the nodes that have a rendering
/// context (`context_nodes`), and describe each mismatch.
pub fn collect_tile_invariant_violations(tile_nodes: &Vec<NodeKey>, graph_app: &GraphBrowserApp, context_nodes: &Vec<NodeKey>) -> (violations: Vec<String>)
    requires
        graph_app.wf(),
    ensures
        violations@.map_values(|s: String| s@) == all_tile_violations(*graph_app, context_nodes@, tile_nodes@),
{
    let mut violations: Vec<String> = Vec::new();
    let mut i: usize = 0;
    while i < tile_nodes.len()
        invariant
            i <= tile_nodes@.len(),
            graph_app.wf(),
            violations@.map_values(|s: String| s@) == all_tile_violations(*graph_app, context_nodes@, tile_nodes@.take(i as int)),
        decreases tile_nodes@.len() - i,
    {
        let k = tile_nodes[i];
        let ghost before = violations@.map_values(|s: String| s@);
        proof {
            assert(tile_nodes@.take(i + 1).drop_last() =~= tile_nodes@.take(i as int));
            assert(tile_nodes@.take(i + 1).last() == k);
            reveal_strlit("tile/webview desync: tile has stale node key ");
        }
        if !graph_app.graph.contains_node(k) {
            violations.push(index_message("tile/webview desync: tile has stale node key ", k.index, ""));
            proof {
                reveal_strlit("");
                assert(violations@.map_values(|s: String| s@) =~= before + tile_violations(*graph_app, context_nodes@, k));
            }
        } else {
            if graph_app.get_webview_for_node(k).is_none() {
                violations.push(index_message("tile/webview desync: node ", k.index, " is missing webview mapping"));
            }
            if !lists_key(context_nodes, k) {
                violations.push(index_message("tile/context desync: node ", k.index, " is missing rendering context"));
            }
            proof {
                assert(violations@.map_values(|s: String| s@) =~= before + tile_violations(*graph_app, context_nodes@, k));
            }
        }
        i = i + 1;
    }
    proof {
        assert(tile_nodes@.take(tile_nodes@.len() as int) =~= tile_nodes@);
    }
    violations
}

} // verus!

verus! {

/// The webview numbers of `ws`.
pub open spec fn webview_numbers(ws: Seq<WebViewId>) -> Set<u64> {
    Set::new(|n: u64| exists|i: int| 0 <= i < ws.len() && #[trigger] ws[i].id == n)
}

/// The node slots of the mapped webviews that are not in `seen`.
pub open spec fn stale_slots(app: GraphBrowserApp, seen: Set<u64>) -> Set<u64> {
    Set::new(|s: u64| exists|w: u64| #[trigger] app.webview_nodes().contains_key(w) && !seen.contains(w) && node_slot(app.webview_nodes()[w]) == s)
}

impl GraphBrowserApp {
    /// The active webview's node, when the webview is mapped, is selected
    /// alone, as `select_node` does; otherwise nothing changes.
    pub open spec fn active_highlighted(self, next: Self, active: Option<WebViewId>) -> bool {
        match active {
            Some(w) => if self.webview_nodes().contains_key(w.id) {
                self.selected_node(next, self.webview_nodes()[w.id], false)
            } else {
                next == self
            },
            None => next == self,
        }
    }

    /// Every mapping of a webview that is not in `seen` is removed in both
    /// directions; nothing else changes.
    pub open spec fn stale_unmapped(self, next: Self, seen: Set<u64>) -> bool {
        &&& next.wf()
        &&& next.webview_nodes() == self.webview_nodes().restrict(seen)
        &&& next.node_webviews() == self.node_webviews().remove_keys(stale_slots(self, seen))
        &&& next == (GraphBrowserApp { webview_to_node: next.webview_to_node, node_to_webview: next.node_to_webview, ..self })
    }
}

/// Bring the application in line with the webviews that exist: select the
/// active webview's node, then forget the mappings of webviews that are
/// gone.
pub fn reconcile_mappings_and_selection(app: &mut GraphBrowserApp, seen_webviews: &Vec<WebViewId>, active_webview: Option<WebViewId>)
    requires
        old(app).wf(),
    ensures
        final(app).wf(),
        exists|mid: GraphBrowserApp| #[trigger] old(app).active_highlighted(mid, active_webview)
            && mid.stale_unmapped(*final(app), webview_numbers(seen_webviews@)),
{
    match active_webview {
        Some(w) => match app.get_node_for_webview(w) {
            Some(key) => app.select_node(key, false),
            None => {},
        },
        None => {},
    }
    let ghost mid = *app;
    let ghost seen = webview_numbers(seen_webviews@);
    let mappings = app.webview_node_mappings();
    let mut stale: Vec<WebViewId> = Vec::new();
    let mut i: usize = 0;
    while i < mappings.len()
        invariant
            i <= mappings@.len(),
            forall|j: int| 0 <= j < stale@.len() ==> #[trigger] mid.webview_nodes().contains_key(stale@[j].id) && !seen.contains(stale@[j].id),
            forall|j: int| 0 <= j < i ==> !seen.contains(#[trigger] mappings@[j].0.id) ==> stale@.contains(mappings@[j].0),
            forall|a: int, b: int| 0 <= a < b < stale@.len() ==> stale@[a].id != stale@[b].id,
            forall|j: int| #![trigger stale@[j]] 0 <= j < stale@.len() ==> exists|m: int| 0 <= m < i && #[trigger] mappings@[m].0 == stale@[j],
            forall|j: int| 0 <= j < mappings@.len() ==> #[trigger] mid.webview_nodes().contains_key(mappings@[j].0.id),
            forall|a: int, b: int| 0 <= a < b < mappings@.len() ==> mappings@[a].0 != mappings@[b].0,
            seen == webview_numbers(seen_webviews@),
        decreases mappings@.len() - i,
    {
        let w = mappings[i].0;
        let mut found = false;
        let mut j: usize = 0;
        while j < seen_webviews.len()
            invariant
                j <= seen_webviews@.len(),
                found == exists|m: int| 0 <= m < j && #[trigger] seen_webviews@[m].id == w.id,
            decreases seen_webviews@.len() - j,
        {
            if seen_webviews[j].id == w.id {
                found = true;
            }
            j = j + 1;
        }
        if !found {
            proof {
                assert forall|a: int| 0 <= a < stale@.len() implies stale@[a].id != w.id by {
                    let m = choose|m: int| 0 <= m < i && #[trigger] mappings@[m].0 == stale@[a];
                    assert(mappings@[m].0 != mappings@[i as int].0);
                }
            }
            let ghost prev = stale@;
            stale.push(w);
            proof {
                assert(stale@[stale@.len() - 1] == w);
                assert forall|j: int| 0 <= j < i + 1 && !seen.contains(#[trigger] mappings@[j].0.id) implies stale@.contains(mappings@[j].0) by {
                    if j < i {
                        let t = choose|t: int| 0 <= t < prev.len() && prev[t] == mappings@[j].0;
                        assert(stale@[t] == mappings@[j].0);
                    }
                }
            }
        } else {
            proof {
                let m = choose|m: int| 0 <= m < seen_webviews@.len() && #[trigger] seen_webviews@[m].id == w.id;
                assert(seen.contains(w.id));
            }
        }
        i = i + 1;
    }
    let ghost stale_ids = stale@.map_values(|x: WebViewId| x.id);
    let mut k: usize = 0;
    while k < stale.len()
        invariant
            k <= stale@.len(),
            app.wf(),
            forall|j: int| 0 <= j < stale@.len() ==> #[trigger] mid.webview_nodes().contains_key(stale@[j].id) && !seen.contains(stale@[j].id),
            forall|a: int, b: int| 0 <= a < b < stale@.len() ==> stale@[a].id != stale@[b].id,
            app.webview_nodes() == mid.webview_nodes().remove_keys(Set::new(|n: u64| exists|j: int| 0 <= j < k && #[trigger] stale@[j].id == n)),
            app.node_webviews() == mid.node_webviews().remove_keys(Set::new(|s: u64| exists|j: int| 0 <= j < k && s == node_slot(mid.webview_nodes()[#[trigger] stale@[j].id]))),
            *app == (GraphBrowserApp { webview_to_node: app.webview_to_node, node_to_webview: app.node_to_webview, ..mid }),
        decreases stale@.len() - k,
    {
        let w = stale[k];
        let ghost before = *app;
        proof {
            assert(app.webview_nodes().contains_key(w.id)) by {
                assert forall|j: int| 0 <= j < k implies stale@[j].id != w.id by {}
            }
        }
        app.unmap_webview(w);
        proof {
            assert(app.webview_nodes() =~= mid.webview_nodes().remove_keys(Set::new(|n: u64| exists|j: int| 0 <= j < k + 1 && #[trigger] stale@[j].id == n)));
            assert(before.webview_nodes()[w.id] == mid.webview_nodes()[w.id]);
            assert(app.node_webviews() =~= mid.node_webviews().remove_keys(Set::new(|s: u64| exists|j: int| 0 <= j < k + 1 && s == node_slot(mid.webview_nodes()[#[trigger] stale@[j].id]))));
        }
        k = k + 1;
    }
    proof {
        let removed_ids = Set::new(|n: u64| exists|j: int| 0 <= j < stale@.len() && #[trigger] stale@[j].id == n);
        assert forall|n: u64| mid.webview_nodes().contains_key(n) && !seen.contains(n) implies removed_ids.contains(n) by {
            assert(mid.webview_to_node.wf());
            let m = choose|m: int| 0 <= m < mappings@.len() && #[trigger] mappings@[m].0.id == n;
            assert(stale@.contains(mappings@[m].0));
            let j = choose|j: int| 0 <= j < stale@.len() && stale@[j] == mappings@[m].0;
            assert(stale@[j].id == n);
        }
        assert(app.webview_nodes() =~= mid.webview_nodes().restrict(seen));
        let removed_slots = Set::new(|s: u64| exists|j: int| 0 <= j < stale@.len() && s == node_slot(mid.webview_nodes()[#[trigger] stale@[j].id]));
        assert forall|s: u64| removed_slots.contains(s) <==> stale_slots(mid, seen).contains(s) by {
            if stale_slots(mid, seen).contains(s) {
                let w = choose|w: u64| #[trigger] mid.webview_nodes().contains_key(w) && !seen.contains(w) && node_slot(mid.webview_nodes()[w]) == s;
                assert(removed_ids.contains(w));
                let j = choose|j: int| 0 <= j < stale@.len() && #[trigger] stale@[j].id == w;
                assert(removed_slots.contains(s));
            }
            if removed_slots.contains(s) {
                let j = choose|j: int| 0 <= j < stale@.len() && s == node_slot(mid.webview_nodes()[#[trigger] stale@[j].id]);
                assert(mid.webview_nodes().contains_key(stale@[j].id));
            }
        }
        assert(removed_slots =~= stale_slots(mid, seen));
        assert(app.node_webviews() =~= mid.node_webviews().remove_keys(stale_slots(mid, seen)));
        assert(old(app).active_highlighted(mid, active_webview));
    }
}

} // verus!

verus! {

/// The node selected alone, if exactly one is selected.
pub open spec fn single_selected(app: GraphBrowserApp) -> Option<NodeKey> {
    if app.selected_nodes.order().len() == 1 {
        app.selected_nodes.primary_key()
    } else {
        None
    }
}

/// Apply an address typed in graph view: the node selected alone moves to
/// the address; with no single selection, a node is created there at the
/// default position and selected.
pub fn apply_graph_view_address_submit(app: &mut GraphBrowserApp, url: &str)
    requires
        old(app).wf(),
        old(app).graph.node_map().len() < u32::MAX,
    ensures
        final(app).wf(),
        match single_selected(*old(app)) {
            Some(key) => exists|new_url: String, previous: Option<String>|
                new_url@ == url@ && #[trigger] old(app).url_updated(*final(app), key, new_url, previous),
            None => old(app).created_at_url(*final(app), url@, spec_default_position()),
        },
{
    match app.get_single_selected_node() {
        Some(key) => {
            let new_url = url.to_string();
            let ghost url_copy = new_url;
            app.apply_intent(GraphIntent::SetNodeUrl { key, new_url }, default_position());
            let ghost previous = choose|previous: Option<String>| #[trigger] old(app).url_updated(*app, key, url_copy, previous);
            assert(old(app).url_updated(*app, key, url_copy, previous));
        },
        None => {
            app.apply_intent(GraphIntent::CreateNodeAtUrl { url: url.to_string(), position: default_position() }, default_position());
        },
    }
}

/// Submit an address typed in the address bar. In graph view it is applied
/// to the graph as `apply_graph_view_address_submit` does and the field
/// becomes clean (`true`); in the detail view nothing changes here, the
/// embedder navigates the focused webview to the address, and the field
/// stays as it is (`false`).
pub fn handle_address_bar_submit(app: &mut GraphBrowserApp, url: &str, is_graph_view: bool) -> (clean: bool)
    requires
        old(app).wf(),
        is_graph_view ==> old(app).graph.node_map().len() < u32::MAX,
    ensures
        clean == is_graph_view,
        final(app).wf(),
        !is_graph_view ==> *final(app) == *old(app),
        is_graph_view ==> match single_selected(*old(app)) {
            Some(key) => exists|new_url: String, previous: Option<String>|
                new_url@ == url@ && #[trigger] old(app).url_updated(*final(app), key, new_url, previous),
            None => old(app).created_at_url(*final(app), url@, spec_default_position()),
        },
{
    if is_graph_view {
        apply_graph_view_address_submit(app, url);
        true
    } else {
        false
    }
}

/// The webview of node `k`, if it has one.
pub open spec fn node_webview(app: GraphBrowserApp, k: NodeKey) -> Option<WebViewId> {
    if app.node_webviews().contains_key(node_slot(k)) {
        Some(app.node_webviews()[node_slot(k)])
    } else {
        None
    }
}

/// The webviews of the nodes of `nodes` that have one, in order.
pub open spec fn nodes_webviews(app: GraphBrowserApp, nodes: Seq<NodeKey>) -> Seq<WebViewId>
    decreases nodes.len(),
{
    if nodes.len() == 0 {
        Seq::empty()
    } else {
        let prev = nodes_webviews(app, nodes.drop_last());
        match node_webview(app, nodes.last()) {
            Some(w) => prev.push(w),
            None => prev,
        }
    }
}

/// The webviews to close before the nodes of `nodes` are removed: those
/// of the nodes that have one, in order.
pub fn webviews_for_nodes(app: &GraphBrowserApp, nodes: &Vec<NodeKey>) -> (ws: Vec<WebViewId>)
    requires
        app.wf(),
    ensures
        ws@ == nodes_webviews(*app, nodes@),
{
    let mut ws: Vec<WebViewId> = Vec::new();
    let mut i: usize = 0;
    while i < nodes.len()
        invariant
            i <= nodes@.len(),
            app.wf(),
            ws@ == nodes_webviews(*app, nodes@.take(i as int)),
        decreases nodes@.len() - i,
    {
        proof {
            assert(nodes@.take(i + 1).drop_last() =~= nodes@.take(i as int));
            assert(nodes@.take(i + 1).last() == nodes@[i as int]);
        }
        match app.get_webview_for_node(nodes[i]) {
            Some(w) => ws.push(w),
            None => {},
        }
        i = i + 1;
    }
    proof {
        assert(nodes@.take(nodes@.len() as int) =~= nodes@);
    }
    ws
}

/// The nodes of the graph that a search leaves out of the filtered view:
/// those not among `matches`, in increasing key order.
pub fn nodes_outside_matches(graph_app: &GraphBrowserApp, matches: &Vec<NodeKey>) -> (outside: Vec<NodeKey>)
    requires
        graph_app.wf(),
    ensures
        forall|k: NodeKey| outside@.contains(k) <==> graph_app.graph.node_map().contains_key(k) && !matches@.contains(k),
        forall|i: int, j: int| 0 <= i < j < outside@.len() ==> outside@[i].index < outside@[j].index,
{
    let keys = graph_app.graph.node_keys();
    let mut outside: Vec<NodeKey> = Vec::new();
    let mut i: usize = 0;
    while i < keys.len()
        invariant
            i <= keys@.len(),
            graph_app.wf(),
            forall|j: int| 0 <= j < keys@.len() ==> graph_app.graph.node_map().contains_key(#[trigger] keys@[j]),
            forall|k: NodeKey| graph_app.graph.node_map().contains_key(k) ==> keys@.contains(k),
            forall|a: int, b: int| 0 <= a < b < keys@.len() ==> keys@[a].index < keys@[b].index,
            forall|k: NodeKey| outside@.contains(k) <==> keys@.take(i as int).contains(k) && !matches@.contains(k),
            forall|a: int, b: int| 0 <= a < b < outside@.len() ==> outside@[a].index < outside@[b].index,
            forall|a: int| #![trigger outside@[a]] 0 <= a < outside@.len() ==> exists|m: int| 0 <= m < i && #[trigger] keys@[m] == outside@[a],
        decreases keys@.len() - i,
    {
        let k = keys[i];
        let ghost before = outside@;
        proof {
            assert(keys@.take(i + 1) =~= keys@.take(i as int).push(k));
        }
        if !lists_key(matches, k) {
            outside.push(k);
            proof {
                assert forall|a: int, b: int| 0 <= a < b < outside@.len() implies outside@[a].index < outside@[b].index by {
                    if b == outside@.len() - 1 {
                        let m = choose|m: int| 0 <= m < i && #[trigger] keys@[m] == before[a];
                        assert(keys@[m].index < keys@[i as int].index);
                    }
                }
                assert forall|a: int| #![trigger outside@[a]] 0 <= a < outside@.len() implies exists|m: int| 0 <= m < i + 1 && #[trigger] keys@[m] == outside@[a] by {
                    if a < before.len() {
                        let m = choose|m: int| 0 <= m < i && #[trigger] keys@[m] == before[a];
                        assert(keys@[m] == outside@[a]);
                    } else {
                        assert(keys@[i as int] == outside@[a]);
                    }
                }
            }
        }
        proof {
            assert forall|x: NodeKey| outside@.contains(x) <==> keys@.take(i + 1).contains(x) && !matches@.contains(x) by {
                if outside@.contains(x) && x != k {
                    let a = choose|a: int| 0 <= a < outside@.len() && #[trigger] outside@[a] == x;
                    assert(before[a] == x);
                    assert(before.contains(x));
                    let m = choose|m: int| 0 <= m < i && #[trigger] keys@.take(i as int)[m] == x;
                    assert(keys@.take(i + 1)[m] == x);
                }
                if keys@.take(i + 1).contains(x) && !matches@.contains(x) {
                    let m = choose|m: int| 0 <= m < i + 1 && #[trigger] keys@.take(i + 1)[m] == x;
                    if m < i {
                        assert(keys@.take(i as int)[m] == x);
                        assert(before.contains(x));
                        let a = choose|a: int| 0 <= a < before.len() && #[trigger] before[a] == x;
                        assert(outside@[a] == x);
                    } else {
                        assert(x == k);
                        assert(outside@[outside@.len() - 1] == k);
                    }
                }
                if x == k && outside@.contains(x) {
                    assert(keys@.take(i + 1)[i as int] == k);
                }
            }
        }
        i = i + 1;
    }
    proof {
        assert(keys@.take(keys@.len() as int) =~= keys@);
    }
    outside
}

} // verus!

verus! {

/// The nodes of the mapped webviews among `ws`, in order.
pub open spec fn mapped_nodes(app: GraphBrowserApp, ws: Seq<WebViewId>) -> Seq<NodeKey>
    decreases ws.len(),
{
    if ws.len() == 0 {
        Seq::empty()
    } else {
        let rest = mapped_nodes(app, ws.drop_last());
        if app.webview_nodes().contains_key(ws.last().id) {
            rest.push(app.webview_nodes()[ws.last().id])
        } else {
            rest
        }
    }
}

impl GraphBrowserApp {
    /// Closing webview `w`: its mappings are removed, and its node, if it
    /// had one, is demoted to cold.
    pub open spec fn parked_one(self, next: Self, w: WebViewId) -> bool {
        exists|mid: Self| {
            &&& #[trigger] self.webview_unmapped(mid, w)
            &&& self.webview_nodes().contains_key(w.id) ==> mid.demoted(next, self.webview_nodes()[w.id])
            &&& !self.webview_nodes().contains_key(w.id) ==> next == mid
        }
    }

    /// `states` runs from its first state to its last by closing `ws` in turn.
    pub open spec fn park_trace(states: Seq<Self>, ws: Seq<WebViewId>) -> bool {
        &&& states.len() == ws.len() + 1
        &&& forall|i: int| 0 <= i < ws.len() ==> #[trigger] states[i].parked_one(states[i + 1], ws[i])
    }

    /// What entering graph view does to the webviews `open`: when no nodes
    /// are saved yet and some webview is open, the nodes of the open
    /// webviews are saved for later, and every open webview is closed (and
    /// returned, for the embedder to close). Otherwise nothing happens.
    pub open spec fn webviews_parked(self, next: Self, open: Seq<WebViewId>, closing: Seq<WebViewId>) -> bool {
        if self.active_webview_nodes@.len() == 0 && open.len() > 0 {
            &&& closing == open
            &&& exists|states: Seq<Self>| {
                &&& #[trigger] Self::park_trace(states, open)
                &&& states[0] == (GraphBrowserApp { active_webview_nodes: states[0].active_webview_nodes, ..self })
                &&& states[0].active_webview_nodes@ == mapped_nodes(self, open)
                &&& states.last() == next
            }
        } else {
            &&& closing.len() == 0
            &&& next == self
        }
    }

    /// Save the nodes of the open webviews and close them all, when graph
    /// view is entered with webviews open and nothing saved yet. Returns the
    /// webviews the embedder must close.
    pub fn park_webviews(&mut self, open_webviews: &Vec<WebViewId>) -> (closing: Vec<WebViewId>)
        requires
            old(self).wf(),
        ensures
            final(self).wf(),
            old(self).webviews_parked(*final(self), open_webviews@, closing@),
    {
        if self.active_webview_nodes.len() != 0 || open_webviews.len() == 0 {
            return Vec::new();
        }
        let mut i: usize = 0;
        while i < open_webviews.len()
            invariant
                i <= open_webviews@.len(),
                self.wf(),
                *self == (GraphBrowserApp { active_webview_nodes: self.active_webview_nodes, ..*old(self) }),
                self.active_webview_nodes@ == mapped_nodes(*old(self), open_webviews@.take(i as int)),
            decreases open_webviews@.len() - i,
        {
            proof {
                assert(open_webviews@.take(i + 1).drop_last() =~= open_webviews@.take(i as int));
                assert(open_webviews@.take(i + 1).last() == open_webviews@[i as int]);
            }
            match self.get_node_for_webview(open_webviews[i]) {
                Some(node_key) => self.active_webview_nodes.push(node_key),
                None => {},
            }
            i = i + 1;
        }
        proof {
            assert(open_webviews@.take(open_webviews@.len() as int) =~= open_webviews@);
        }
        let ghost mut states: Seq<Self> = seq![*self];
        let mut closing: Vec<WebViewId> = Vec::new();
        let mut j: usize = 0;
        while j < open_webviews.len()
            invariant
                j <= open_webviews@.len(),
                self.wf(),
                closing@ == open_webviews@.take(j as int),
                Self::park_trace(states, open_webviews@.take(j as int)),
                states[0].active_webview_nodes@ == mapped_nodes(*old(self), open_webviews@),
                states[0] == (GraphBrowserApp { active_webview_nodes: states[0].active_webview_nodes, ..*old(self) }),
                states.last() == *self,
            decreases open_webviews@.len() - j,
        {
            let w = open_webviews[j];
            let ghost before = *self;
            let unmapped = self.unmap_webview(w);
            let ghost mid = *self;
            match unmapped {
                Some(node_key) => self.demote_node_to_cold(node_key),
                None => {},
            }
            closing.push(w);
            proof {
                assert(before.parked_one(*self, w));
                let prev = states;
                states = states.push(*self);
                assert forall|t: int| 0 <= t < j + 1 implies #[trigger] states[t].parked_one(states[t + 1], open_webviews@.take(j + 1)[t]) by {
                    if t < j {
                        assert(prev[t].parked_one(prev[t + 1], open_webviews@.take(j as int)[t]));
                    }
                }
                assert(closing@ =~= open_webviews@.take(j + 1));
            }
            j = j + 1;
        }
        proof {
            assert(open_webviews@.take(open_webviews@.len() as int) =~= open_webviews@);
        }
        closing
    }
}

} // verus!

verus! {

/// The webviews to create when returning from graph view to `nodes`, each
/// with whether it becomes the active one: in order, every node without a
/// webview that is present and not planned yet.
pub open spec fn restore_plan(app: GraphBrowserApp, nodes: Seq<NodeKey>, active: NodeKey) -> Seq<(NodeKey, bool)>
    decreases nodes.len(),
{
    if nodes.len() == 0 {
        Seq::empty()
    } else {
        let rest = restore_plan(app, nodes.drop_last(), active);
        let k = nodes.last();
        if !app.node_webviews().contains_key(node_slot(k)) && app.graph.node_map().contains_key(k)
            && !rest.map_values(|p: (NodeKey, bool)| p.0).contains(k) {
            rest.push((k, k == active))
        } else {
            rest
        }
    }
}

/// What showing the tile of `active` asks for: with nodes saved on entering
/// graph view, a webview for each of them as `restore_plan` says; without,
/// a webview for `active` if it is present and has none.
pub open spec fn webview_plan(app: GraphBrowserApp, active: NodeKey) -> Seq<(NodeKey, bool)> {
    if app.active_webview_nodes@.len() > 0 {
        restore_plan(app, app.active_webview_nodes@, active)
    } else if !app.node_webviews().contains_key(node_slot(active)) && app.graph.node_map().contains_key(active) {
        seq![(active, true)]
    } else {
        Seq::empty()
    }
}

/// Whether `plan` lists node `k`.
fn planned(plan: &Vec<(NodeKey, bool)>, k: NodeKey) -> (found: bool)
    ensures
        found == plan@.map_values(|p: (NodeKey, bool)| p.0).contains(k),
{
    let mut i: usize = 0;
    while i < plan.len()
        invariant
            i <= plan@.len(),
            forall|j: int| 0 <= j < i ==> plan@[j].0 != k,
        decreases plan@.len() - i,
    {
        if plan[i].0 == k {
            assert(plan@.map_values(|p: (NodeKey, bool)| p.0)[i as int] == k);
            return true;
        }
        i = i + 1;
    }
    false
}

impl GraphBrowserApp {
    /// The webviews to create for showing the tile of `active_node`, each
    /// with the node it shows and whether it becomes the active webview.
    pub fn webviews_to_create(&self, active_node: NodeKey) -> (plan: Vec<(NodeKey, bool)>)
        requires
            self.wf(),
        ensures
            plan@ == webview_plan(*self, active_node),
    {
        if self.active_webview_nodes.len() == 0 {
            if self.get_webview_for_node(active_node).is_none() && self.graph.contains_node(active_node) {
                let mut plan: Vec<(NodeKey, bool)> = Vec::new();
                plan.push((active_node, true));
                assert(plan@ =~= seq![(active_node, true)]);
                return plan;
            }
            return Vec::new();
        }
        let nodes = &self.active_webview_nodes;
        let mut plan: Vec<(NodeKey, bool)> = Vec::new();
        let mut i: usize = 0;
        while i < nodes.len()
            invariant
                i <= nodes@.len(),
                self.wf(),
                nodes@ == self.active_webview_nodes@,
                plan@ == restore_plan(*self, nodes@.take(i as int), active_node),
            decreases nodes@.len() - i,
        {
            let k = nodes[i];
            proof {
                assert(nodes@.take(i + 1).drop_last() =~= nodes@.take(i as int));
                assert(nodes@.take(i + 1).last() == k);
            }
            if self.get_webview_for_node(k).is_none() && self.graph.contains_node(k) && !planned(&plan, k) {
                plan.push((k, k == active_node));
            }
            i = i + 1;
        }
        proof {
            assert(nodes@.take(nodes@.len() as int) =~= nodes@);
        }
        plan
    }

    /// Record a webview the embedder created for `node_key`: map it, and
    /// make the node active when the webview is the active one.
    pub fn record_created_webview(&mut self, webview_id: WebViewId, node_key: NodeKey, activate: bool)
        requires
            old(self).wf(),
        ensures
            final(self).wf(),
            exists|mapped: Self| {
                &&& #[trigger] old(self).webview_mapped(mapped, webview_id, node_key)
                &&& activate ==> mapped.lifecycle_set(*final(self), node_key, NodeLifecycle::Active)
                &&& !activate ==> *final(self) == mapped
            },
    {
        self.map_webview_to_node(webview_id, node_key);
        if activate {
            self.promote_node_to_active(node_key);
        }
    }

    /// Finish showing the tile of `active_node` once the planned webviews
    /// exist: saved nodes are forgotten; without saved nodes, the active
    /// node, if it has a webview, is made active.
    pub fn finish_webview_restore(&mut self, active_node: NodeKey)
        requires
            old(self).wf(),
        ensures
            final(self).wf(),
            old(self).active_webview_nodes@.len() > 0 ==> *final(self) == (GraphBrowserApp { active_webview_nodes: final(self).active_webview_nodes, ..*old(self) })
                && final(self).active_webview_nodes@.len() == 0,
            (old(self).active_webview_nodes@.len() == 0 && old(self).node_webviews().contains_key(node_slot(active_node)))
                ==> old(self).lifecycle_set(*final(self), active_node, NodeLifecycle::Active),
            (old(self).active_webview_nodes@.len() == 0 && !old(self).node_webviews().contains_key(node_slot(active_node)))
                ==> *final(self) == *old(self),
    {
        if self.active_webview_nodes.len() > 0 {
            self.active_webview_nodes = Vec::new();
        } else if self.get_webview_for_node(active_node).is_some() {
            self.promote_node_to_active(active_node);
        }
    }
}

} // verus!

verus! {

/// The serialization that the `url` crate gives `text` when it parses it
/// as an absolute URL, or `None` when it does not parse.
pub uninterp spec fn url_parse(text: Seq<char>) -> Option<Seq<char>>;

/// `url::Url::parse`, handing back the parsed URL's serialization
/// (`String::from(url)`), or `None` where the crate reports a parse
/// error. The contract only names the result: it is a function of the
/// text alone.
#[verifier::external_body]
fn parse_url(text: &str) -> (parsed: Option<String>)
    ensures
        parsed matches Some(s) ==> url_parse(text@) == Some(s@),
        parsed is None ==> url_parse(text@) is None,
{
    match url::Url::parse(text) {
        Ok(u) => Some(String::from(u)),
        Err(_) => None,
    }
}

/// The address a webview is created at, from what parsing its node's URL
/// gave: the parsed URL, or `about:blank` where it did not parse.
pub open spec fn address_from(parsed: Option<Seq<char>>) -> Seq<char> {
    match parsed {
        Some(s) => s,
        None => "about:blank"@,
    }
}

/// The address a webview is created at, from what parsing its node's URL
/// gave.
pub fn webview_address(parsed: Option<String>) -> (address: String)
    ensures
        address@ == address_from(match parsed { Some(s) => Some(s@), None => None }),
{
    match parsed {
        Some(s) => s,
        None => {
            proof {
                reveal_strlit("about:blank");
            }
            "about:blank".to_string()
        },
    }
}

/// The address at which a webview for node `key` is created: the node's
/// URL as the `url` crate parses it, or `about:blank` where it does not
/// parse; `None` when the node is missing.
pub fn webview_url_for_node(graph_app: &GraphBrowserApp, key: NodeKey) -> (address: Option<String>)
    requires
        graph_app.wf(),
    ensures
        !graph_app.graph.node_map().contains_key(key) ==> address is None,
        graph_app.graph.node_map().contains_key(key) ==> (address matches Some(a)
            && a@ == address_from(url_parse(graph_app.graph.node_map()[key].url@))),
{
    match graph_app.graph.get_node(key) {
        Some(node) => {
            let parsed = parse_url(node.url.as_str());
            Some(webview_address(parsed))
        },
        None => None,
    }
}

} // verus!

verus! {

/// Where the first node of a fresh session goes: (400, 300), as `f32` bit
/// patterns.
pub open spec fn initial_node_position() -> Position {
    Position { x: 0x43C8_0000u32, y: 0x4396_0000u32 }
}

/// Start a session: when nothing was recovered (the graph is empty), add a
/// node for `initial_url` at (400, 300), as `add_node_and_sync` does, and
/// return its key; a recovered graph is left as it is.
pub fn ensure_initial_node(graph_app: &mut GraphBrowserApp, initial_url: &str) -> (key: Option<NodeKey>)
    requires
        old(graph_app).wf(),
    ensures
        final(graph_app).wf(),
        old(graph_app).graph.node_map().len() > 0 ==> key is None && *final(graph_app) == *old(graph_app),
        old(graph_app).graph.node_map().len() == 0 ==> (key matches Some(k)
            && old(graph_app).added_node_synced(*final(graph_app), k, initial_url@, initial_node_position())),
{
    if graph_app.has_recovered_graph() {
        return None;
    }
    let key = graph_app.add_node_and_sync(initial_url.to_string(), Position { x: 0x43C8_0000, y: 0x4396_0000 });
    Some(key)
}

} // verus!
