//! The graph view's decisions: how nodes are coloured (by lifecycle, then
//! by selection, then by search matches) and which intents the view's
//! interactions become. Drawing is the embedder's part.

use vstd::prelude::*;

use crate::app::{GraphBrowserApp, SelectionState};
use crate::desktop::lists_key;
use crate::util::{truncate_with_ellipsis, truncated};
use crate::app::intent::GraphIntent;
use crate::graph::{Graph, Node, NodeKey, NodeLifecycle, Position};

verus! {

/// An opaque RGB colour.
#[derive(Clone, Copy, Debug, PartialEq, Eq, Structural)]
pub struct NodeColor {
    pub r: u8,
    pub g: u8,
    pub b: u8,
}

/// The colour `(r, g, b)`.
pub open spec fn rgb(r: u8, g: u8, b: u8) -> NodeColor {
    NodeColor { r, g, b }
}

/// Active nodes are sky blue, cold ones grey-violet.
pub open spec fn lifecycle_rgb(lifecycle: NodeLifecycle) -> NodeColor {
    match lifecycle {
        NodeLifecycle::Active => rgb(100, 200, 255),
        NodeLifecycle::Cold => rgb(140, 140, 165),
    }
}

/// The colour of a node in the given lifecycle state.
pub fn lifecycle_color(lifecycle: NodeLifecycle) -> (c: NodeColor)
    ensures
        c == lifecycle_rgb(lifecycle),
{
    match lifecycle {
        NodeLifecycle::Active => NodeColor { r: 100, g: 200, b: 255 },
        NodeLifecycle::Cold => NodeColor { r: 140, g: 140, b: 165 },
    }
}

/// The colour of node `key`: while a query is active, a match is bright
/// green when it is the active match and green otherwise; else a selected
/// node is orange; else the node has its lifecycle colour.
pub open spec fn node_color(
    app: GraphBrowserApp,
    key: NodeKey,
    matches: Seq<NodeKey>,
    active_match: Option<NodeKey>,
    query_active: bool,
) -> NodeColor {
    if query_active && matches.contains(key) {
        if active_match == Some(key) {
            rgb(140, 255, 140)
        } else {
            rgb(95, 220, 130)
        }
    } else if app.selected_nodes.selected().contains(key) {
        rgb(255, 200, 100)
    } else {
        lifecycle_rgb(app.graph.node_map()[key].lifecycle)
    }
}

/// While a query is active, a node among the matches shows a search
/// colour, whatever its selection or lifecycle: bright green for the active
/// match, green for the others. Outside the matches (or with no active
/// query) a selected node is orange.
pub proof fn lemma_search_colour_wins(
    app: GraphBrowserApp,
    key: NodeKey,
    matches: Seq<NodeKey>,
    active_match: Option<NodeKey>,
    query_active: bool,
)
    ensures
        query_active && matches.contains(key) && active_match == Some(key)
            ==> node_color(app, key, matches, active_match, query_active) == (NodeColor { r: 140, g: 255, b: 140 }),
        query_active && matches.contains(key) && active_match != Some(key)
            ==> node_color(app, key, matches, active_match, query_active) == (NodeColor { r: 95, g: 220, b: 130 }),
        !(query_active && matches.contains(key)) && app.selected_nodes.selected().contains(key)
            ==> node_color(app, key, matches, active_match, query_active) == (NodeColor { r: 255, g: 200, b: 100 }),
        !(query_active && matches.contains(key)) && !app.selected_nodes.selected().contains(key)
            && app.graph.node_map()[key].lifecycle == NodeLifecycle::Active
            ==> node_color(app, key, matches, active_match, query_active) == (NodeColor { r: 100, g: 200, b: 255 }),
        !(query_active && matches.contains(key)) && !app.selected_nodes.selected().contains(key)
            && app.graph.node_map()[key].lifecycle == NodeLifecycle::Cold
            ==> node_color(app, key, matches, active_match, query_active) == (NodeColor { r: 140, g: 140, b: 165 }),
{
}

/// The colour of every node of the graph, in increasing key order.
pub fn search_node_colors(
    app: &GraphBrowserApp,
    search_matches: &Vec<NodeKey>,
    active_search_match: Option<NodeKey>,
    search_query_active: bool,
) -> (colors: Vec<(NodeKey, NodeColor)>)
    requires
        app.wf(),
    ensures
        colors@.len() == app.graph.node_map().len(),
        forall|i: int| 0 <= i < colors@.len() ==> {
            &&& app.graph.node_map().contains_key(#[trigger] colors@[i].0)
            &&& colors@[i].1 == node_color(*app, colors@[i].0, search_matches@, active_search_match, search_query_active)
        },
        forall|k: NodeKey| app.graph.node_map().contains_key(k) ==> exists|i: int| 0 <= i < colors@.len() && #[trigger] colors@[i].0 == k,
        forall|i: int, j: int| 0 <= i < j < colors@.len() ==> colors@[i].0.index < colors@[j].0.index,
        forall|i: int| 0 <= i < colors@.len() && search_query_active && search_matches@.contains(#[trigger] colors@[i].0) ==>
            colors@[i].1 == (if active_search_match == Some(colors@[i].0) { NodeColor { r: 140, g: 255, b: 140 } } else { NodeColor { r: 95, g: 220, b: 130 } }),
{
    let nodes = app.graph.nodes();
    let mut colors: Vec<(NodeKey, NodeColor)> = Vec::new();
    let mut i: usize = 0;
    while i < nodes.len()
        invariant
            app.wf(),
            i <= nodes@.len(),
            colors@.len() == i,
            forall|j: int| 0 <= j < nodes@.len() ==> {
                &&& app.graph.node_map().contains_key(#[trigger] nodes@[j].0)
                &&& *nodes@[j].1 == app.graph.node_map()[nodes@[j].0]
            },
            forall|j: int| 0 <= j < i ==> #[trigger] colors@[j]
                == (nodes@[j].0, node_color(*app, nodes@[j].0, search_matches@, active_search_match, search_query_active)),
        decreases nodes@.len() - i,
    {
        let (key, node) = nodes[i];
        let mut color = lifecycle_color(node.lifecycle);
        if app.selected_nodes.contains(&key) {
            color = NodeColor { r: 255, g: 200, b: 100 };
        }
        if search_query_active && lists_key(search_matches, key) {
            color = if active_search_match == Some(key) {
                NodeColor { r: 140, g: 255, b: 140 }
            } else {
                NodeColor { r: 95, g: 220, b: 130 }
            };
        }
        assert(color == node_color(*app, key, search_matches@, active_search_match, search_query_active)) by {
            assert(*nodes@[i as int].1 == app.graph.node_map()[key]);
        }
        let ghost before = colors@;
        colors.push((key, color));
        proof {
            assert forall|j: int| 0 <= j < i + 1 implies #[trigger] colors@[j]
                == (nodes@[j].0, node_color(*app, nodes@[j].0, search_matches@, active_search_match, search_query_active)) by {
                if j < i {
                    assert(colors@[j] == before[j]);
                } else {
                    assert(colors@[j] == (key, color));
                    assert(nodes@[j].0 == key);
                }
            }
        }
        i = i + 1;
    }
    proof {
        assert forall|k: NodeKey| app.graph.node_map().contains_key(k) implies exists|i: int| 0 <= i < colors@.len() && #[trigger] colors@[i].0 == k by {
            let j = choose|j: int| 0 <= j < nodes@.len() && #[trigger] nodes@[j].0 == k;
            assert(colors@[j].0 == k);
        }
    }
    colors
}

/// A graph interaction, resolved from the graph view's events.
#[derive(Clone, Copy, Debug, PartialEq, Eq, Structural)]
pub enum GraphAction {
    FocusNode(NodeKey),
    DragStart,
    DragEnd(NodeKey, Position),
    MoveNode(NodeKey, Position),
    SelectNode(NodeKey),
    /// A new zoom factor, as the bit pattern of an `f32`.
    Zoom(u32),
}

/// What the view asks for: a change of the application state, or a zoom
/// for the camera (the bit pattern of an `f32`), which clamps it.
pub enum ViewIntent {
    Graph(GraphIntent),
    SetZoom { zoom_bits: u32 },
}

/// The intents one action becomes: focusing or selecting a node selects it
/// alone; a drag start marks an interaction; a drag end ends it and moves
/// the node; a move moves the node; a zoom goes to the camera.
pub open spec fn action_view_intents(a: GraphAction) -> Seq<ViewIntent> {
    match a {
        GraphAction::FocusNode(key) => seq![ViewIntent::Graph(GraphIntent::SelectNode { key, multi_select: false })],
        GraphAction::DragStart => seq![ViewIntent::Graph(GraphIntent::SetInteracting { interacting: true })],
        GraphAction::DragEnd(key, position) => seq![
            ViewIntent::Graph(GraphIntent::SetInteracting { interacting: false }),
            ViewIntent::Graph(GraphIntent::SetNodePosition { key, position }),
        ],
        GraphAction::MoveNode(key, position) => seq![ViewIntent::Graph(GraphIntent::SetNodePosition { key, position })],
        GraphAction::SelectNode(key) => seq![ViewIntent::Graph(GraphIntent::SelectNode { key, multi_select: false })],
        GraphAction::Zoom(zoom_bits) => seq![ViewIntent::SetZoom { zoom_bits }],
    }
}

/// The intents of `actions`, action after action.
pub open spec fn actions_view_intents(actions: Seq<GraphAction>) -> Seq<ViewIntent>
    decreases actions.len(),
{
    if actions.len() == 0 {
        Seq::empty()
    } else {
        actions_view_intents(actions.drop_last()) + action_view_intents(actions.last())
    }
}

/// Convert resolved graph actions to intents without applying them.
pub fn intents_from_graph_actions(actions: Vec<GraphAction>) -> (intents: Vec<ViewIntent>)
    ensures
        intents@ == actions_view_intents(actions@),
{
    let mut intents: Vec<ViewIntent> = Vec::new();
    let mut i: usize = 0;
    while i < actions.len()
        invariant
            i <= actions@.len(),
            intents@ == actions_view_intents(actions@.take(i as int)),
        decreases actions@.len() - i,
    {
        let ghost before = intents@;
        let action = actions[i];
        proof {
            assert(actions@.take(i + 1).drop_last() =~= actions@.take(i as int));
            assert(actions@.take(i + 1).last() == action);
        }
        match action {
            GraphAction::FocusNode(key) | GraphAction::SelectNode(key) => {
                intents.push(ViewIntent::Graph(GraphIntent::SelectNode { key, multi_select: false }));
            },
            GraphAction::DragStart => {
                intents.push(ViewIntent::Graph(GraphIntent::SetInteracting { interacting: true }));
            },
            GraphAction::DragEnd(key, position) => {
                intents.push(ViewIntent::Graph(GraphIntent::SetInteracting { interacting: false }));
                intents.push(ViewIntent::Graph(GraphIntent::SetNodePosition { key, position }));
            },
            GraphAction::MoveNode(key, position) => {
                intents.push(ViewIntent::Graph(GraphIntent::SetNodePosition { key, position }));
            },
            GraphAction::Zoom(zoom_bits) => {
                intents.push(ViewIntent::SetZoom { zoom_bits });
            },
        }
        proof {
            assert(intents@ =~= before + action_view_intents(action));
        }
        i = i + 1;
    }
    proof {
        assert(actions@.take(actions@.len() as int) =~= actions@);
    }
    intents
}

/// The nodes after taking the layout's positions: each unpinned node
/// listed in `layout` moves to its listed position (a later listing wins);
/// pinned and unlisted nodes stay where they are.
pub open spec fn synced_nodes(nodes: Map<NodeKey, Node>, layout: Seq<(NodeKey, Position)>) -> Map<NodeKey, Node>
    decreases layout.len(),
{
    if layout.len() == 0 {
        nodes
    } else {
        let prev = synced_nodes(nodes, layout.drop_last());
        let (k, p) = layout.last();
        if prev.contains_key(k) && !prev[k].is_pinned {
            prev.insert(k, Node { position: p, ..prev[k] })
        } else {
            prev
        }
    }
}

/// The pinned nodes listed in `layout`, in order, with the positions they
/// keep.
pub open spec fn pinned_listed(nodes: Map<NodeKey, Node>, layout: Seq<(NodeKey, Position)>) -> Seq<(NodeKey, Position)>
    decreases layout.len(),
{
    if layout.len() == 0 {
        Seq::empty()
    } else {
        let prev = pinned_listed(nodes, layout.drop_last());
        let k = layout.last().0;
        if nodes.contains_key(k) && nodes[k].is_pinned {
            prev.push((k, nodes[k].position))
        } else {
            prev
        }
    }
}

/// Take the node positions that the layout computed (`layout`, a position
/// per node): unpinned nodes move there; pinned nodes keep the positions
/// the application gave them, and are returned with those positions so
/// that the layout can be put back where they are. Nothing else changes.
pub fn sync_graph_positions_from_layout(app: &mut GraphBrowserApp, layout: &Vec<(NodeKey, Position)>) -> (pinned: Vec<(NodeKey, Position)>)
    requires
        old(app).wf(),
    ensures
        final(app).wf(),
        final(app).graph.node_map() == synced_nodes(old(app).graph.node_map(), layout@),
        final(app).graph.edge_map() == old(app).graph.edge_map(),
        final(app).graph.url_index() == old(app).graph.url_index(),
        final(app).graph.id_index() == old(app).graph.id_index(),
        *final(app) == (GraphBrowserApp { graph: final(app).graph, ..*old(app) }),
        pinned@ == pinned_listed(old(app).graph.node_map(), layout@),
{
    let ghost start = old(app).graph.node_map();
    let mut pinned: Vec<(NodeKey, Position)> = Vec::new();
    let mut i: usize = 0;
    while i < layout.len()
        invariant
            i <= layout@.len(),
            app.wf(),
            app.graph.node_map() == synced_nodes(start, layout@.take(i as int)),
            app.graph.edge_map() == old(app).graph.edge_map(),
            app.graph.url_index() == old(app).graph.url_index(),
            app.graph.id_index() == old(app).graph.id_index(),
            *app == (GraphBrowserApp { graph: app.graph, ..*old(app) }),
            start == old(app).graph.node_map(),
            pinned@ == pinned_listed(start, layout@.take(i as int)),
            app.graph.node_map().dom() == start.dom(),
            forall|k: NodeKey| #[trigger] start.contains_key(k) ==> {
                &&& app.graph.node_map()[k].is_pinned == start[k].is_pinned
                &&& app.graph.node_map()[k].url@ == start[k].url@
                &&& app.graph.node_map()[k].id == start[k].id
                &&& start[k].is_pinned ==> app.graph.node_map()[k] == start[k]
            },
        decreases layout@.len() - i,
    {
        let (key, pos) = layout[i];
        let ghost before = app.graph;
        proof {
            assert(layout@.take(i + 1).drop_last() =~= layout@.take(i as int));
            assert(layout@.take(i + 1).last() == (key, pos));
        }
        match app.graph.get_node_mut(key) {
            Some(node) => {
                if node.is_pinned {
                    pinned.push((key, node.position));
                } else {
                    node.position = pos;
                }
            },
            None => {},
        }
        proof {
            if before.node_map().contains_key(key) {
                Graph::lemma_edit_keeps_wf(&before, &app.graph, key);
                assert(app.graph.node_map().dom() =~= start.dom());
            }
        }
        i = i + 1;
    }
    proof {
        assert(layout@.take(layout@.len() as int) =~= layout@);
    }
    pinned
}

/// How the graph view shows a node.
pub struct NodeDisplay {
    pub key: NodeKey,
    pub position: Position,
    /// The title, cut to twenty characters.
    pub label: String,
    pub color: NodeColor,
    pub selected: bool,
    /// Active nodes are drawn larger.
    pub active: bool,
}

/// `d` shows node `key` of `g`: at its position, labelled with its title
/// cut to twenty characters, orange when selected and in its lifecycle
/// colour otherwise.
pub open spec fn shows_node(d: NodeDisplay, g: Graph, selection: SelectionState, key: NodeKey) -> bool {
    let n = g.node_map()[key];
    &&& d.key == key
    &&& d.position == n.position
    &&& d.label@ == truncated(n.title@, 20)
    &&& d.selected == selection.selected().contains(key)
    &&& d.color == (if d.selected { rgb(255, 200, 100) } else { lifecycle_rgb(n.lifecycle) })
    &&& d.active == (n.lifecycle == NodeLifecycle::Active)
}

/// How the graph view shows each node of `graph`, in increasing key order.
pub fn node_displays(graph: &Graph, selected_nodes: &SelectionState) -> (displays: Vec<NodeDisplay>)
    requires
        graph.wf(),
    ensures
        displays@.len() == graph.node_map().len(),
        forall|i: int| 0 <= i < displays@.len() ==> {
            &&& graph.node_map().contains_key(#[trigger] displays@[i].key)
            &&& shows_node(displays@[i], *graph, *selected_nodes, displays@[i].key)
        },
        forall|k: NodeKey| graph.node_map().contains_key(k) ==> exists|i: int| 0 <= i < displays@.len() && #[trigger] displays@[i].key == k,
        forall|i: int, j: int| 0 <= i < j < displays@.len() ==> displays@[i].key.index < displays@[j].key.index,
{
    let nodes = graph.nodes();
    let mut displays: Vec<NodeDisplay> = Vec::new();
    let mut i: usize = 0;
    while i < nodes.len()
        invariant
            graph.wf(),
            i <= nodes@.len(),
            displays@.len() == i,
            forall|j: int| 0 <= j < nodes@.len() ==> {
                &&& graph.node_map().contains_key(#[trigger] nodes@[j].0)
                &&& *nodes@[j].1 == graph.node_map()[nodes@[j].0]
            },
            forall|j: int| 0 <= j < i ==> shows_node(#[trigger] displays@[j], *graph, *selected_nodes, nodes@[j].0),
        decreases nodes@.len() - i,
    {
        let (key, node) = nodes[i];
        let selected = selected_nodes.contains(&key);
        let color = if selected { NodeColor { r: 255, g: 200, b: 100 } } else { lifecycle_color(node.lifecycle) };
        let active = match node.lifecycle {
            NodeLifecycle::Active => true,
            NodeLifecycle::Cold => false,
        };
        let label = truncate_with_ellipsis(node.title.as_str(), 20);
        let d = NodeDisplay { key, position: node.position, label, color, selected, active };
        assert(shows_node(d, *graph, *selected_nodes, key)) by {
            assert(*nodes@[i as int].1 == graph.node_map()[key]);
        }
        let ghost before = displays@;
        displays.push(d);
        proof {
            assert forall|j: int| 0 <= j < i + 1 implies shows_node(#[trigger] displays@[j], *graph, *selected_nodes, nodes@[j].0) by {
                if j < i {
                    assert(displays@[j] == before[j]);
                } else {
                    assert(displays@[j] == d);
                    assert(nodes@[j].0 == key);
                }
            }
        }
        i = i + 1;
    }
    proof {
        assert forall|k: NodeKey| graph.node_map().contains_key(k) implies exists|i: int| 0 <= i < displays@.len() && #[trigger] displays@[i].key == k by {
            let j = choose|j: int| 0 <= j < nodes@.len() && #[trigger] nodes@[j].0 == k;
            assert(shows_node(displays@[j], *graph, *selected_nodes, nodes@[j].0));
            assert(displays@[j].key == k);
        }
        assert forall|i: int| 0 <= i < displays@.len() implies {
            &&& graph.node_map().contains_key(#[trigger] displays@[i].key)
            &&& shows_node(displays@[i], *graph, *selected_nodes, displays@[i].key)
        } by {
            assert(shows_node(displays@[i], *graph, *selected_nodes, nodes@[i].0));
        }
        assert forall|i: int, j: int| 0 <= i < j < displays@.len() implies displays@[i].key.index < displays@[j].key.index by {
            assert(shows_node(displays@[i], *graph, *selected_nodes, nodes@[i].0));
            assert(shows_node(displays@[j], *graph, *selected_nodes, nodes@[j].0));
        }
    }
    displays
}

} // verus!
