//! The panes of the window layout: the graph itself, or a webview bound to
//! a node. The layout widget keeps the panes; these are the decisions it
//! asks of the application: tab titles, which tabs close, which node the
//! detail view opens, and which webview panes have lost their node.

use vstd::prelude::*;

use crate::app::{GraphBrowserApp, WebViewId};
use crate::desktop::{lists_key, single_selected};
use crate::graph::NodeKey;
use crate::text::{decimal, u32_to_decimal};
use crate::util::{truncate_with_ellipsis, truncated};

verus! {

/// What a pane of the layout shows.
#[derive(Clone, Copy, Debug, PartialEq, Eq, Structural)]
pub enum TileKind {
    /// The spatial graph pane.
    Graph,
    /// A webview pane bound to a graph node.
    WebView(NodeKey),
}

/// The tab title of `pane`: "Graph" for the graph; the node's title for a
/// webview pane whose node exists, and `Node NodeIndex(<n>)` otherwise.
pub open spec fn pane_title(app: GraphBrowserApp, pane: TileKind) -> Seq<char> {
    match pane {
        TileKind::Graph => "Graph"@,
        TileKind::WebView(k) => if app.graph.node_map().contains_key(k) {
            app.graph.node_map()[k].title@
        } else {
            "Node NodeIndex("@ + decimal(k.index as nat) + ")"@
        },
    }
}

/// The tab title of `pane`.
pub fn tab_title_for_pane(graph_app: &GraphBrowserApp, pane: &TileKind) -> (title: String)
    requires
        graph_app.wf(),
    ensures
        title@ == pane_title(*graph_app, *pane),
{
    match pane {
        TileKind::Graph => {
            proof {
                reveal_strlit("Graph");
            }
            "Graph".to_string()
        },
        TileKind::WebView(node_key) => match graph_app.graph.get_node(*node_key) {
            Some(n) => n.title.clone(),
            None => {
                proof {
                    reveal_strlit("Node NodeIndex(");
                    reveal_strlit(")");
                }
                let mut t = "Node NodeIndex(".to_string();
                let digits = u32_to_decimal(node_key.index);
                t.append(digits.as_str());
                t.append(")");
                t
            },
        },
    }
}

/// The label drawn on the tab of `pane`: "Graph" for the graph; for a
/// webview pane, its tab title cut to 26 characters.
pub open spec fn tab_label_text(app: GraphBrowserApp, pane: TileKind) -> Seq<char> {
    match pane {
        TileKind::Graph => "Graph"@,
        TileKind::WebView(_) => truncated(pane_title(app, pane), 26),
    }
}

/// The label drawn on the tab of `pane`.
pub fn tab_label(graph_app: &GraphBrowserApp, pane: &TileKind) -> (label: String)
    requires
        graph_app.wf(),
    ensures
        label@ == tab_label_text(*graph_app, *pane),
{
    let title = tab_title_for_pane(graph_app, pane);
    match pane {
        TileKind::Graph => title,
        TileKind::WebView(_) => truncate_with_ellipsis(title.as_str(), 26),
    }
}

/// Closing the tab of `pane`: a webview pane's node is queued in
/// `pending_closed` (its webview is closed afterwards); the tab closes.
pub fn on_tab_close(pane: &TileKind, pending_closed: &mut Vec<NodeKey>) -> (closes: bool)
    ensures
        closes,
        match *pane {
            TileKind::WebView(k) => final(pending_closed)@ == old(pending_closed)@.push(k),
            TileKind::Graph => final(pending_closed)@ == old(pending_closed)@,
        },
{
    match pane {
        TileKind::WebView(k) => pending_closed.push(*k),
        TileKind::Graph => {},
    }
    true
}

/// Webview tabs can be closed; the graph tab cannot.
pub fn is_tab_closable(pane: &TileKind) -> (closable: bool)
    ensures
        closable == (*pane is WebView),
{
    match pane {
        TileKind::WebView(_) => true,
        TileKind::Graph => false,
    }
}

/// `k` is the node of least index in the graph of `app`.
pub open spec fn is_first_node(app: GraphBrowserApp, k: NodeKey) -> bool {
    &&& app.graph.node_map().contains_key(k)
    &&& forall|j: NodeKey| #[trigger] app.graph.node_map().contains_key(j) ==> k.index <= j.index
}

/// `node` is the node the detail view opens: the node selected alone,
/// else the node of least index, else none.
pub open spec fn is_detail_node(app: GraphBrowserApp, node: Option<NodeKey>) -> bool {
    &&& single_selected(app) is Some ==> node == single_selected(app)
    &&& single_selected(app) is None && app.graph.node_map().len() == 0 ==> node is None
    &&& single_selected(app) is None && app.graph.node_map().len() > 0 ==> node is Some
        && is_first_node(app, node->0)
}

/// The node the detail view opens.
pub fn preferred_detail_node(graph_app: &GraphBrowserApp) -> (node: Option<NodeKey>)
    requires
        graph_app.wf(),
    ensures
        is_detail_node(*graph_app, node),
{
    match graph_app.get_single_selected_node() {
        Some(k) => Some(k),
        None => {
            let keys = graph_app.graph.node_keys();
            if keys.len() == 0 {
                None
            } else {
                let k = keys[0];
                proof {
                    assert forall|j: NodeKey| #[trigger] graph_app.graph.node_map().contains_key(j) implies k.index <= j.index by {
                        assert(keys@.contains(j));
                        let i = choose|i: int| 0 <= i < keys@.len() && keys@[i] == j;
                        if i > 0 {
                            assert(keys@[0].index < keys@[i].index);
                        }
                    }
                }
                Some(k)
            }
        },
    }
}

/// The nodes shown in the webview panes of `panes`.
pub open spec fn webview_tile_nodes(panes: Seq<TileKind>) -> Set<NodeKey> {
    Set::new(|k: NodeKey| panes.contains(TileKind::WebView(k)))
}

/// The nodes shown in webview panes, each once, in the order of their
/// first pane.
pub fn all_webview_tile_nodes(panes: &Vec<TileKind>) -> (nodes: Vec<NodeKey>)
    ensures
        nodes@.no_duplicates(),
        nodes@.to_set() == webview_tile_nodes(panes@),
{
    let mut nodes: Vec<NodeKey> = Vec::new();
    let mut i: usize = 0;
    while i < panes.len()
        invariant
            i <= panes@.len(),
            nodes@.no_duplicates(),
            forall|k: NodeKey| nodes@.contains(k) <==> panes@.take(i as int).contains(TileKind::WebView(k)),
        decreases panes@.len() - i,
    {
        let ghost before = nodes@;
        proof {
            assert(panes@.take(i + 1) =~= panes@.take(i as int).push(panes@[i as int]));
        }
        match panes[i] {
            TileKind::WebView(k) => {
                if !lists_key(&nodes, k) {
                    nodes.push(k);
                    proof {
                        assert forall|a: int, b: int| 0 <= a < b < nodes@.len() implies nodes@[a] != nodes@[b] by {
                            if b == nodes@.len() - 1 {
                                assert(before.contains(nodes@[a]));
                            }
                        }
                    }
                }
                proof {
                    assert forall|x: NodeKey| nodes@.contains(x) <==> panes@.take(i + 1).contains(TileKind::WebView(x)) by {
                        if nodes@.contains(x) && x != k {
                            let j = choose|j: int| 0 <= j < nodes@.len() && #[trigger] nodes@[j] == x;
                            assert(before[j] == x);
                            assert(before.contains(x));
                        }
                        if panes@.take(i + 1).contains(TileKind::WebView(x)) {
                            let j = choose|j: int| 0 <= j < i + 1 && #[trigger] panes@.take(i + 1)[j] == TileKind::WebView(x);
                            if j < i {
                                assert(panes@.take(i as int)[j] == TileKind::WebView(x));
                                assert(before.contains(x));
                                let a = choose|a: int| 0 <= a < before.len() && #[trigger] before[a] == x;
                                assert(nodes@[a] == x);
                            } else {
                                assert(x == k);
                                if !before.contains(k) {
                                    assert(nodes@[nodes@.len() - 1] == k);
                                }
                            }
                        }
                        if x == k {
                            assert(panes@.take(i + 1)[i as int] == TileKind::WebView(k));
                        }
                    }
                }
            },
            TileKind::Graph => {
                proof {
                    assert forall|x: NodeKey| nodes@.contains(x) <==> panes@.take(i + 1).contains(TileKind::WebView(x)) by {
                        if panes@.take(i + 1).contains(TileKind::WebView(x)) {
                            let j = choose|j: int| 0 <= j < i + 1 && #[trigger] panes@.take(i + 1)[j] == TileKind::WebView(x);
                            assert(j < i);
                            assert(panes@.take(i as int)[j] == TileKind::WebView(x));
                        }
                        if nodes@.contains(x) {
                            let j = choose|j: int| 0 <= j < i && #[trigger] panes@.take(i as int)[j] == TileKind::WebView(x);
                            assert(panes@.take(i + 1)[j] == TileKind::WebView(x));
                        }
                    }
                }
            },
        }
        i = i + 1;
    }
    proof {
        assert(panes@.take(panes@.len() as int) =~= panes@);
        assert(nodes@.to_set() =~= webview_tile_nodes(panes@));
    }
    nodes
}

/// The nodes of webview panes whose node is no longer in the graph.
pub open spec fn stale_tile_nodes(app: GraphBrowserApp, panes: Seq<TileKind>) -> Set<NodeKey> {
    webview_tile_nodes(panes).filter(|k: NodeKey| !app.graph.node_map().contains_key(k))
}

/// The nodes of webview panes whose node is no longer in the graph, each
/// once.
pub fn stale_webview_tile_nodes(panes: &Vec<TileKind>, graph_app: &GraphBrowserApp) -> (stale: Vec<NodeKey>)
    requires
        graph_app.wf(),
    ensures
        stale@.no_duplicates(),
        stale@.to_set() == stale_tile_nodes(*graph_app, panes@),
{
    let nodes = all_webview_tile_nodes(panes);
    let mut stale: Vec<NodeKey> = Vec::new();
    let mut i: usize = 0;
    while i < nodes.len()
        invariant
            i <= nodes@.len(),
            graph_app.wf(),
            nodes@.no_duplicates(),
            stale@.no_duplicates(),
            forall|k: NodeKey| stale@.contains(k) <==> (nodes@.take(i as int).contains(k) && !graph_app.graph.node_map().contains_key(k)),
        decreases nodes@.len() - i,
    {
        let k = nodes[i];
        let ghost before = stale@;
        proof {
            assert(nodes@.take(i + 1) =~= nodes@.take(i as int).push(k));
            assert(!nodes@.take(i as int).contains(k)) by {
                if nodes@.take(i as int).contains(k) {
                    let j = choose|j: int| 0 <= j < i && #[trigger] nodes@.take(i as int)[j] == k;
                    assert(nodes@[j] == nodes@[i as int]);
                }
            }
        }
        if !graph_app.graph.contains_node(k) {
            stale.push(k);
            proof {
                assert forall|a: int, b: int| 0 <= a < b < stale@.len() implies stale@[a] != stale@[b] by {
                    if b == stale@.len() - 1 {
                        assert(before.contains(stale@[a]));
                    }
                }
                assert forall|x: NodeKey| stale@.contains(x) <==> (nodes@.take(i + 1).contains(x) && !graph_app.graph.node_map().contains_key(x)) by {
                    if stale@.contains(x) && x != k {
                        let j = choose|j: int| 0 <= j < stale@.len() && #[trigger] stale@[j] == x;
                        assert(before[j] == x);
                        assert(before.contains(x));
                        let j2 = choose|j2: int| 0 <= j2 < i && #[trigger] nodes@.take(i as int)[j2] == x;
                        assert(nodes@.take(i + 1)[j2] == x);
                    }
                    if nodes@.take(i + 1).contains(x) && x != k && !graph_app.graph.node_map().contains_key(x) {
                        let j = choose|j: int| 0 <= j < i + 1 && #[trigger] nodes@.take(i + 1)[j] == x;
                        assert(nodes@.take(i as int)[j] == x);
                        assert(nodes@.take(i as int).contains(x));
                        assert(before.contains(x));
                        let a = choose|a: int| 0 <= a < before.len() && #[trigger] before[a] == x;
                        assert(stale@[a] == x);
                    }
                    if x == k {
                        assert(stale@[stale@.len() - 1] == k);
                        assert(nodes@.take(i + 1)[i as int] == k);
                    }
                }
            }
        } else {
            proof {
                assert forall|x: NodeKey| stale@.contains(x) <==> (nodes@.take(i + 1).contains(x) && !graph_app.graph.node_map().contains_key(x)) by {
                    if nodes@.take(i + 1).contains(x) && !graph_app.graph.node_map().contains_key(x) {
                        let j = choose|j: int| 0 <= j < i + 1 && #[trigger] nodes@.take(i + 1)[j] == x;
                        assert(x != k);
                        assert(nodes@.take(i as int)[j] == x);
                    }
                    if stale@.contains(x) {
                        let j = choose|j: int| 0 <= j < i && #[trigger] nodes@.take(i as int)[j] == x;
                        assert(nodes@.take(i + 1)[j] == x);
                    }
                }
            }
        }
        i = i + 1;
    }
    proof {
        assert(nodes@.take(nodes@.len() as int) =~= nodes@);
        assert(stale@.to_set() =~= stale_tile_nodes(*graph_app, panes@)) by {
            assert forall|k: NodeKey| stale@.to_set().contains(k) <==> stale_tile_nodes(*graph_app, panes@).contains(k) by {
                assert(nodes@.to_set().contains(k) <==> nodes@.contains(k));
            }
        }
    }
    stale
}

/// What toggling between the graph and the detail view does.
pub enum TileViewToggle {
    /// Close every webview pane, and the webviews of these nodes.
    CloseWebviewTiles(Vec<NodeKey>),
    /// Open (or focus) the webview pane of this node, creating its webview.
    OpenDetail(NodeKey),
    /// Nothing to open: the graph is empty.
    Nothing,
}

/// Toggle between the graph and the detail view: with webview panes open,
/// close them all (and their nodes' webviews); otherwise open the detail
/// view of the preferred node, if there is one.
pub fn toggle_tile_view(panes: &Vec<TileKind>, graph_app: &GraphBrowserApp) -> (toggle: TileViewToggle)
    requires
        graph_app.wf(),
    ensures
        !webview_tile_nodes(panes@).is_empty() ==> (toggle matches TileViewToggle::CloseWebviewTiles(nodes)
            && nodes@.no_duplicates() && nodes@.to_set() == webview_tile_nodes(panes@)),
        webview_tile_nodes(panes@).is_empty() ==> match toggle {
            TileViewToggle::OpenDetail(k) => is_detail_node(*graph_app, Some(k)),
            TileViewToggle::Nothing => is_detail_node(*graph_app, None),
            TileViewToggle::CloseWebviewTiles(_) => false,
        },
{
    let nodes = all_webview_tile_nodes(panes);
    if nodes.len() > 0 {
        proof {
            assert(nodes@.to_set().contains(nodes@[0]));
        }
        TileViewToggle::CloseWebviewTiles(nodes)
    } else {
        proof {
            assert(nodes@.to_set() =~= Set::<NodeKey>::empty());
        }
        match preferred_detail_node(graph_app) {
            Some(k) => TileViewToggle::OpenDetail(k),
            None => TileViewToggle::Nothing,
        }
    }
}

/// Whether any pane of `panes` shows a webview.
pub fn has_any_webview_tiles_in(panes: &Vec<TileKind>) -> (any: bool)
    ensures
        any == !webview_tile_nodes(panes@).is_empty(),
{
    let mut i: usize = 0;
    while i < panes.len()
        invariant
            i <= panes@.len(),
            forall|j: int| 0 <= j < i ==> panes@[j] is Graph,
        decreases panes@.len() - i,
    {
        match panes[i] {
            TileKind::WebView(k) => {
                proof {
                    assert(panes@[i as int] == TileKind::WebView(k));
                    assert(webview_tile_nodes(panes@).contains(k));
                }
                return true;
            },
            TileKind::Graph => {},
        }
        i = i + 1;
    }
    proof {
        assert forall|k: NodeKey| !webview_tile_nodes(panes@).contains(k) by {
            if panes@.contains(TileKind::WebView(k)) {
                let j = choose|j: int| 0 <= j < panes@.len() && #[trigger] panes@[j] == TileKind::WebView(k);
                assert(panes@[j] is Graph);
            }
        }
        assert(webview_tile_nodes(panes@) =~= Set::<NodeKey>::empty());
    }
    false
}

/// `panes` with a pane for `k`: unchanged if it has one, else with one
/// added at the end.
pub open spec fn with_tile(panes: Seq<TileKind>, k: NodeKey) -> Seq<TileKind> {
    if panes.contains(TileKind::WebView(k)) {
        panes
    } else {
        panes.push(TileKind::WebView(k))
    }
}

/// Make the pane of `node_key` the active one: the existing one if there
/// is one (the panes stay as they are), else a new pane at the end. Returns
/// the index of that pane.
pub fn open_or_focus_webview_tile(panes: &mut Vec<TileKind>, node_key: NodeKey) -> (active: usize)
    requires
        old(panes)@.len() < usize::MAX,
    ensures
        final(panes)@ == with_tile(old(panes)@, node_key),
        active < final(panes)@.len(),
        final(panes)@[active as int] == TileKind::WebView(node_key),
{
    let mut i: usize = 0;
    while i < panes.len()
        invariant
            i <= panes@.len(),
            panes@ == old(panes)@,
            forall|j: int| 0 <= j < i ==> panes@[j] != TileKind::WebView(node_key),
        decreases panes@.len() - i,
    {
        if panes[i] == TileKind::WebView(node_key) {
            proof {
                assert(panes@[i as int] == TileKind::WebView(node_key));
                assert(old(panes)@.contains(TileKind::WebView(node_key)));
            }
            return i;
        }
        i = i + 1;
    }
    let active = panes.len();
    panes.push(TileKind::WebView(node_key));
    active
}

/// Which panes a removal drops.
pub enum PaneRemoval {
    /// The panes of one node.
    OfNode(NodeKey),
    /// Every webview pane.
    AllWebviews,
    /// The webview panes whose node is gone from the graph.
    Stale,
}

/// Whether `removal` drops pane `p`.
pub open spec fn drops(app: GraphBrowserApp, removal: PaneRemoval, p: TileKind) -> bool {
    match removal {
        PaneRemoval::OfNode(k) => p == TileKind::WebView(k),
        PaneRemoval::AllWebviews => p is WebView,
        PaneRemoval::Stale => p matches TileKind::WebView(k) && !app.graph.node_map().contains_key(k),
    }
}

/// The panes of `panes` that `removal` keeps, in order.
pub open spec fn kept_panes(app: GraphBrowserApp, removal: PaneRemoval, panes: Seq<TileKind>) -> Seq<TileKind>
    decreases panes.len(),
{
    if panes.len() == 0 {
        Seq::empty()
    } else {
        let prev = kept_panes(app, removal, panes.drop_last());
        if drops(app, removal, panes.last()) {
            prev
        } else {
            prev.push(panes.last())
        }
    }
}

/// Drop the panes that `removal` names; the others keep their order.
pub fn remove_panes(panes: &mut Vec<TileKind>, graph_app: &GraphBrowserApp, removal: PaneRemoval)
    requires
        graph_app.wf(),
    ensures
        final(panes)@ == kept_panes(*graph_app, removal, old(panes)@),
{
    let mut kept: Vec<TileKind> = Vec::new();
    let mut i: usize = 0;
    while i < panes.len()
        invariant
            i <= panes@.len(),
            graph_app.wf(),
            panes@ == old(panes)@,
            kept@ == kept_panes(*graph_app, removal, panes@.take(i as int)),
        decreases panes@.len() - i,
    {
        let p = panes[i];
        proof {
            assert(panes@.take(i + 1).drop_last() =~= panes@.take(i as int));
            assert(panes@.take(i + 1).last() == p);
        }
        let drop = match removal {
            PaneRemoval::OfNode(k) => p == TileKind::WebView(k),
            PaneRemoval::AllWebviews => match p {
                TileKind::WebView(_) => true,
                TileKind::Graph => false,
            },
            PaneRemoval::Stale => match p {
                TileKind::WebView(k) => !graph_app.graph.contains_node(k),
                TileKind::Graph => false,
            },
        };
        if !drop {
            kept.push(p);
        }
        i = i + 1;
    }
    proof {
        assert(panes@.take(panes@.len() as int) =~= panes@);
    }
    *panes = kept;
}

/// Drop the panes of `node_key`.
pub fn remove_webview_tile_for_node(panes: &mut Vec<TileKind>, graph_app: &GraphBrowserApp, node_key: NodeKey)
    requires
        graph_app.wf(),
    ensures
        final(panes)@ == kept_panes(*graph_app, PaneRemoval::OfNode(node_key), old(panes)@),
{
    remove_panes(panes, graph_app, PaneRemoval::OfNode(node_key));
}

/// Drop every webview pane, leaving the graph pane.
pub fn remove_all_webview_tiles(panes: &mut Vec<TileKind>, graph_app: &GraphBrowserApp)
    requires
        graph_app.wf(),
    ensures
        final(panes)@ == kept_panes(*graph_app, PaneRemoval::AllWebviews, old(panes)@),
{
    remove_panes(panes, graph_app, PaneRemoval::AllWebviews);
}

/// Drop the webview panes whose node is gone from the graph.
pub fn prune_stale_webview_tile_keys_only(panes: &mut Vec<TileKind>, graph_app: &GraphBrowserApp)
    requires
        graph_app.wf(),
    ensures
        final(panes)@ == kept_panes(*graph_app, PaneRemoval::Stale, old(panes)@),
{
    remove_panes(panes, graph_app, PaneRemoval::Stale);
}

/// Opening the pane of a node that already has one changes nothing, so
/// opening it twice is opening it once; and afterwards the node has a pane.
pub proof fn lemma_open_tile_idempotent(panes: Seq<TileKind>, k: NodeKey)
    ensures
        with_tile(with_tile(panes, k), k) == with_tile(panes, k),
        webview_tile_nodes(with_tile(panes, k)).contains(k),
{
    if !panes.contains(TileKind::WebView(k)) {
        let next = panes.push(TileKind::WebView(k));
        assert(next[panes.len() as int] == TileKind::WebView(k));
        assert(next.contains(TileKind::WebView(k)));
    }
}

/// What a removal keeps is exactly the panes of `panes` that it does not
/// drop, in their order.
pub proof fn lemma_kept_panes(app: GraphBrowserApp, removal: PaneRemoval, panes: Seq<TileKind>)
    ensures
        forall|p: TileKind| #[trigger] kept_panes(app, removal, panes).contains(p) <==> panes.contains(p) && !drops(app, removal, p),
    decreases panes.len(),
{
    if panes.len() > 0 {
        let prev = panes.drop_last();
        lemma_kept_panes(app, removal, prev);
        assert forall|p: TileKind| kept_panes(app, removal, panes).contains(p) <==> panes.contains(p) && !drops(app, removal, p) by {
            let kept = kept_panes(app, removal, panes);
            let kept_prev = kept_panes(app, removal, prev);
            if panes.contains(p) && !drops(app, removal, p) {
                let j = choose|j: int| 0 <= j < panes.len() && #[trigger] panes[j] == p;
                if j < panes.len() - 1 {
                    assert(prev[j] == p);
                    assert(prev.contains(p));
                    assert(kept_prev.contains(p));
                    let a = choose|a: int| 0 <= a < kept_prev.len() && #[trigger] kept_prev[a] == p;
                    if !drops(app, removal, panes.last()) {
                        assert(kept[a] == p);
                    }
                } else {
                    assert(kept[kept.len() - 1] == p);
                }
            }
            if kept.contains(p) {
                let a = choose|a: int| 0 <= a < kept.len() && #[trigger] kept[a] == p;
                if drops(app, removal, panes.last()) || a < kept_prev.len() {
                    assert(kept_prev[a] == p);
                    assert(kept_prev.contains(p));
                    let j = choose|j: int| 0 <= j < prev.len() && #[trigger] prev[j] == p;
                    assert(panes[j] == p);
                } else {
                    assert(p == panes.last());
                    assert(panes[panes.len() - 1] == p);
                }
            }
        }
    }
}

/// After every webview pane is removed, no pane shows a webview; after the
/// stale ones are removed, no pane shows a node that is gone; after the
/// panes of a node are removed, none shows it. The graph pane stays.
pub proof fn lemma_removals_leave_no_target(app: GraphBrowserApp, panes: Seq<TileKind>, k: NodeKey)
    ensures
        webview_tile_nodes(kept_panes(app, PaneRemoval::AllWebviews, panes)).is_empty(),
        stale_tile_nodes(app, kept_panes(app, PaneRemoval::Stale, panes)).is_empty(),
        !kept_panes(app, PaneRemoval::OfNode(k), panes).contains(TileKind::WebView(k)),
        panes.contains(TileKind::Graph) ==> kept_panes(app, PaneRemoval::AllWebviews, panes).contains(TileKind::Graph),
{
    lemma_kept_panes(app, PaneRemoval::AllWebviews, panes);
    lemma_kept_panes(app, PaneRemoval::Stale, panes);
    lemma_kept_panes(app, PaneRemoval::OfNode(k), panes);
    let all = kept_panes(app, PaneRemoval::AllWebviews, panes);
    let stale = kept_panes(app, PaneRemoval::Stale, panes);
    assert forall|x: NodeKey| !webview_tile_nodes(all).contains(x) by {
        assert(!all.contains(TileKind::WebView(x)));
    }
    assert(webview_tile_nodes(all) =~= Set::<NodeKey>::empty());
    assert forall|x: NodeKey| !stale_tile_nodes(app, stale).contains(x) by {
        if stale.contains(TileKind::WebView(x)) {
            assert(!drops(app, PaneRemoval::Stale, TileKind::WebView(x)));
        }
    }
    assert(stale_tile_nodes(app, stale) =~= Set::<NodeKey>::empty());
}

/// The graph panes of `panes`, in order: every webview pane dropped.
pub open spec fn graph_panes_of(panes: Seq<TileKind>) -> Seq<TileKind>
    decreases panes.len(),
{
    if panes.len() == 0 {
        Seq::empty()
    } else {
        let prev = graph_panes_of(panes.drop_last());
        if panes.last() is Graph {
            prev.push(panes.last())
        } else {
            prev
        }
    }
}

/// Forget the window's webview state: drop every webview pane, and empty
/// the caches of rendering contexts and tab favicons (by node) and of
/// favicon textures (by webview).
pub fn reset_runtime_webview_state(
    panes: &mut Vec<TileKind>,
    rendering_contexts: &mut Vec<NodeKey>,
    tile_favicons: &mut Vec<NodeKey>,
    favicons: &mut Vec<WebViewId>,
)
    ensures
        final(panes)@ == graph_panes_of(old(panes)@),
        final(rendering_contexts)@ == Seq::<NodeKey>::empty(),
        final(tile_favicons)@ == Seq::<NodeKey>::empty(),
        final(favicons)@ == Seq::<WebViewId>::empty(),
{
    rendering_contexts.clear();
    tile_favicons.clear();
    favicons.clear();
    let mut kept: Vec<TileKind> = Vec::new();
    let mut i: usize = 0;
    while i < panes.len()
        invariant
            i <= panes@.len(),
            panes@ == old(panes)@,
            kept@ == graph_panes_of(panes@.take(i as int)),
        decreases panes@.len() - i,
    {
        let p = panes[i];
        proof {
            assert(panes@.take(i + 1).drop_last() =~= panes@.take(i as int));
            assert(panes@.take(i + 1).last() == p);
        }
        match p {
            TileKind::Graph => kept.push(p),
            TileKind::WebView(_) => {},
        }
        i = i + 1;
    }
    proof {
        assert(panes@.take(panes@.len() as int) =~= panes@);
    }
    *panes = kept;
}

/// After the graph has become empty: forget the nodes saved for webview
/// restoration and reset the window's webview state (see
/// `reset_runtime_webview_state`). Returns whether that happened; with
/// nodes in the graph nothing changes.
pub fn reset_if_graph_empty(
    graph_app: &mut GraphBrowserApp,
    panes: &mut Vec<TileKind>,
    rendering_contexts: &mut Vec<NodeKey>,
    tile_favicons: &mut Vec<NodeKey>,
    favicons: &mut Vec<WebViewId>,
) -> (reset: bool)
    requires
        old(graph_app).wf(),
    ensures
        reset == (old(graph_app).graph.node_map().len() == 0),
        reset ==> {
            &&& *final(graph_app) == (GraphBrowserApp { active_webview_nodes: final(graph_app).active_webview_nodes, ..*old(graph_app) })
            &&& final(graph_app).active_webview_nodes@ == Seq::<NodeKey>::empty()
            &&& final(panes)@ == graph_panes_of(old(panes)@)
            &&& final(rendering_contexts)@ == Seq::<NodeKey>::empty()
            &&& final(tile_favicons)@ == Seq::<NodeKey>::empty()
            &&& final(favicons)@ == Seq::<WebViewId>::empty()
        },
        !reset ==> {
            &&& *final(graph_app) == *old(graph_app)
            &&& final(panes)@ == old(panes)@
            &&& final(rendering_contexts)@ == old(rendering_contexts)@
            &&& final(tile_favicons)@ == old(tile_favicons)@
            &&& final(favicons)@ == old(favicons)@
        },
{
    if graph_app.graph.node_count() != 0 {
        return false;
    }
    graph_app.active_webview_nodes = Vec::new();
    reset_runtime_webview_state(panes, rendering_contexts, tile_favicons, favicons);
    true
}

} // verus!
