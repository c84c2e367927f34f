//! Keyboard shortcuts: which actions were asked for, and the intents they
//! become. Reading the keys themselves is the embedder's part.

use vstd::prelude::*;

use crate::app::intent::GraphIntent;

verus! {

/// Keyboard actions collected from input events.
pub struct KeyboardActions {
    pub toggle_physics: bool,
    pub toggle_view: bool,
    pub fit_to_screen: bool,
    pub toggle_physics_panel: bool,
    pub toggle_help_panel: bool,
    pub create_node: bool,
    pub delete_selected: bool,
    pub clear_graph: bool,
}

impl Default for KeyboardActions {
    fn default() -> (a: Self)
        ensures
            !a.toggle_physics && !a.toggle_view && !a.fit_to_screen && !a.toggle_physics_panel,
            !a.toggle_help_panel && !a.create_node && !a.delete_selected && !a.clear_graph,
    {
        KeyboardActions {
            toggle_physics: false,
            toggle_view: false,
            fit_to_screen: false,
            toggle_physics_panel: false,
            toggle_help_panel: false,
            create_node: false,
            delete_selected: false,
            clear_graph: false,
        }
    }
}

/// The keys pressed in one frame, and the modifiers held with them.
pub struct KeyPresses {
    pub escape: bool,
    pub home: bool,
    pub t: bool,
    pub c: bool,
    pub p: bool,
    pub n: bool,
    pub f1: bool,
    pub question_mark: bool,
    pub delete: bool,
    pub ctrl: bool,
    pub shift: bool,
}

/// The actions that `keys` ask for. While a text field has the focus,
/// Escape only gives the focus up and nothing but Home toggles the view;
/// otherwise Escape and Home toggle the view, T, C, P and N toggle physics,
/// fit the graph, toggle the physics panel and create a node, F1 or `?`
/// toggles the help panel, Delete with Ctrl and Shift clears the graph and
/// Delete with neither removes the selected nodes.
pub open spec fn actions_for_keys(keys: KeyPresses, focused: bool) -> KeyboardActions {
    if focused {
        KeyboardActions {
            toggle_physics: false,
            toggle_view: !keys.escape && keys.home,
            fit_to_screen: false,
            toggle_physics_panel: false,
            toggle_help_panel: false,
            create_node: false,
            delete_selected: false,
            clear_graph: false,
        }
    } else {
        KeyboardActions {
            toggle_physics: keys.t,
            toggle_view: keys.escape || keys.home,
            fit_to_screen: keys.c,
            toggle_physics_panel: keys.p,
            toggle_help_panel: keys.f1 || keys.question_mark,
            create_node: keys.n,
            delete_selected: keys.delete && !keys.ctrl && !keys.shift,
            clear_graph: keys.delete && keys.ctrl && keys.shift,
        }
    }
}

/// F1 or `?` opens and closes the keyboard-shortcut help panel whatever
/// else is pressed, unless a text field has the focus; while one has it,
/// the help panel never toggles.
pub proof fn lemma_help_keys_toggle_help(keys: KeyPresses, focused: bool)
    ensures
        !focused && keys.f1 ==> actions_for_keys(keys, focused).toggle_help_panel,
        !focused && keys.question_mark ==> actions_for_keys(keys, focused).toggle_help_panel,
        !focused && !keys.f1 && !keys.question_mark ==> !actions_for_keys(keys, focused).toggle_help_panel,
        focused ==> !actions_for_keys(keys, focused).toggle_help_panel,
{
}

/// The shortcuts, key by key, when no text field has the focus: T toggles
/// physics, C fits the graph to the screen, P toggles the physics panel, N
/// creates a node, Escape or Home toggles the view, Delete alone removes
/// the selected nodes and Ctrl+Shift+Delete clears the graph. While a text
/// field has the focus, only Home (without Escape) does anything.
pub proof fn lemma_shortcut_keys(keys: KeyPresses, focused: bool)
    ensures
        !focused ==> (actions_for_keys(keys, focused).toggle_physics <==> keys.t),
        !focused ==> (actions_for_keys(keys, focused).fit_to_screen <==> keys.c),
        !focused ==> (actions_for_keys(keys, focused).toggle_physics_panel <==> keys.p),
        !focused ==> (actions_for_keys(keys, focused).create_node <==> keys.n),
        !focused ==> (actions_for_keys(keys, focused).toggle_view <==> (keys.escape || keys.home)),
        !focused ==> (actions_for_keys(keys, focused).delete_selected <==> (keys.delete && !keys.ctrl && !keys.shift)),
        !focused ==> (actions_for_keys(keys, focused).clear_graph <==> (keys.delete && keys.ctrl && keys.shift)),
        !(actions_for_keys(keys, focused).delete_selected && actions_for_keys(keys, focused).clear_graph),
        focused ==> (actions_for_keys(keys, focused).toggle_view <==> (keys.home && !keys.escape)),
        focused ==> !actions_for_keys(keys, focused).toggle_physics && !actions_for_keys(keys, focused).fit_to_screen
            && !actions_for_keys(keys, focused).toggle_physics_panel && !actions_for_keys(keys, focused).create_node
            && !actions_for_keys(keys, focused).delete_selected && !actions_for_keys(keys, focused).clear_graph,
{
}

/// Collect keyboard actions from the keys pressed in one frame.
pub fn collect_actions(keys: &KeyPresses, text_field_focused: bool) -> (actions: KeyboardActions)
    ensures
        actions == actions_for_keys(*keys, text_field_focused),
        (keys.f1 || keys.question_mark) && !text_field_focused ==> actions.toggle_help_panel,
        text_field_focused ==> !actions.toggle_help_panel,
{
    let mut actions = KeyboardActions::default();
    if keys.escape {
        if text_field_focused {
            return actions;
        }
        actions.toggle_view = true;
    }
    if keys.home {
        actions.toggle_view = true;
    }
    if text_field_focused {
        return actions;
    }
    if keys.t {
        actions.toggle_physics = true;
    }
    if keys.c {
        actions.fit_to_screen = true;
    }
    if keys.p {
        actions.toggle_physics_panel = true;
    }
    if keys.n {
        actions.create_node = true;
    }
    if keys.f1 || keys.question_mark {
        actions.toggle_help_panel = true;
    }
    if keys.delete {
        if keys.ctrl && keys.shift {
            actions.clear_graph = true;
        } else if !keys.ctrl && !keys.shift {
            actions.delete_selected = true;
        }
    }
    actions
}

/// `s` with `intent` appended when `asked`.
pub open spec fn push_if(s: Seq<GraphIntent>, asked: bool, intent: GraphIntent) -> Seq<GraphIntent> {
    if asked {
        s.push(intent)
    } else {
        s
    }
}

/// The intents the actions ask for, in this order: toggle physics, fit to
/// screen, toggle the physics panel, toggle the help panel, create a node,
/// remove the selected nodes, clear the graph. Toggling the view belongs
/// to the window layout and gives no intent.
pub open spec fn action_intents(a: KeyboardActions) -> Seq<GraphIntent> {
    let s0 = push_if(Seq::empty(), a.toggle_physics, GraphIntent::TogglePhysics);
    let s1 = push_if(s0, a.fit_to_screen, GraphIntent::RequestFitToScreen);
    let s2 = push_if(s1, a.toggle_physics_panel, GraphIntent::TogglePhysicsPanel);
    let s3 = push_if(s2, a.toggle_help_panel, GraphIntent::ToggleHelpPanel);
    let s4 = push_if(s3, a.create_node, GraphIntent::CreateNodeNearCenter);
    let s5 = push_if(s4, a.delete_selected, GraphIntent::RemoveSelectedNodes);
    push_if(s5, a.clear_graph, GraphIntent::ClearGraph)
}

/// Convert keyboard actions to graph intents without applying them.
pub fn intents_from_actions(actions: &KeyboardActions) -> (intents: Vec<GraphIntent>)
    ensures
        intents@ == action_intents(*actions),
{
    let mut intents: Vec<GraphIntent> = Vec::new();
    if actions.toggle_physics {
        intents.push(GraphIntent::TogglePhysics);
    }
    if actions.fit_to_screen {
        intents.push(GraphIntent::RequestFitToScreen);
    }
    if actions.toggle_physics_panel {
        intents.push(GraphIntent::TogglePhysicsPanel);
    }
    if actions.toggle_help_panel {
        intents.push(GraphIntent::ToggleHelpPanel);
    }
    if actions.create_node {
        intents.push(GraphIntent::CreateNodeNearCenter);
    }
    if actions.delete_selected {
        intents.push(GraphIntent::RemoveSelectedNodes);
    }
    if actions.clear_graph {
        intents.push(GraphIntent::ClearGraph);
    }
    intents
}

} // verus!
