//! The toolbar's state: the location field and what it shows of the
//! focused webview. The embedder reads the webview and hands the readings
//! over; these functions decide what the toolbar shows and whether it has
//! to be redrawn.

use vstd::prelude::*;

use crate::app::GraphBrowserApp;
use crate::desktop::single_selected;
use crate::text::{has_prefix, same_text, strip_prefix};

verus! {

/// How far a webview has got with loading its page.
#[derive(Clone, Copy, Debug, PartialEq, Eq, Structural)]
pub enum LoadStatus {
    Started,
    HeadParsed,
    Complete,
}

/// What the embedder reads of the focused webview.
pub struct FocusedWebview {
    pub url: Option<String>,
    pub load_status: LoadStatus,
    pub status_text: Option<String>,
    pub can_go_back: bool,
    pub can_go_forward: bool,
}

/// The toolbar's state.
pub struct ToolbarState {
    /// The text of the location field.
    pub location: String,
    /// The user has edited the location field without submitting it.
    pub location_dirty: bool,
    pub load_status: LoadStatus,
    pub status_text: Option<String>,
    pub can_go_back: bool,
    pub can_go_forward: bool,
}

/// The view of an optional text.
pub open spec fn opt_text(t: Option<String>) -> Option<Seq<char>> {
    match t {
        Some(s) => Some(s@),
        None => None,
    }
}

/// Whether two optional texts are equal.
fn same_opt_text(a: &Option<String>, b: &Option<String>) -> (r: bool)
    ensures
        r == (opt_text(*a) == opt_text(*b)),
{
    match (a, b) {
        (Some(x), Some(y)) => same_text(x.as_str(), y.as_str()),
        (None, None) => true,
        _ => false,
    }
}

/// The text the location field takes, if any: nothing while the user edits
/// it; in graph view (no webview panes) the URL of the node selected
/// alone; otherwise the focused webview's URL.
pub open spec fn location_source(
    t: ToolbarState,
    app: GraphBrowserApp,
    has_webview_tiles: bool,
    focused_url: Option<String>,
) -> Option<Seq<char>> {
    if t.location_dirty {
        None
    } else if !has_webview_tiles {
        match single_selected(app) {
            Some(key) => if app.graph.node_map().contains_key(key) {
                Some(app.graph.node_map()[key].url@)
            } else {
                None
            },
            None => None,
        }
    } else {
        opt_text(focused_url)
    }
}

impl ToolbarState {
    /// The toolbar at start-up, showing `initial_url`.
    pub fn new(initial_url: &str) -> (t: ToolbarState)
        ensures
            t.location@ == initial_url@,
            !t.location_dirty,
            t.load_status == LoadStatus::Complete,
            t.status_text is None,
            !t.can_go_back,
            !t.can_go_forward,
    {
        ToolbarState {
            location: initial_url.to_string(),
            location_dirty: false,
            load_status: LoadStatus::Complete,
            status_text: None,
            can_go_back: false,
            can_go_forward: false,
        }
    }

    /// Start a graph search from the location field (Ctrl+F): the field
    /// holds an `@` query, keeping one that is already there, and counts as
    /// edited.
    pub fn begin_graph_search(&mut self)
        ensures
            final(self).location@ == (if has_prefix(old(self).location@, "@"@) { old(self).location@ } else { "@"@ }),
            final(self).location_dirty,
            final(self).load_status == old(self).load_status,
            final(self).status_text == old(self).status_text,
            final(self).can_go_back == old(self).can_go_back,
            final(self).can_go_forward == old(self).can_go_forward,
    {
        if strip_prefix(self.location.as_str(), "@").is_none() {
            self.location = "@".to_string();
        }
        self.location_dirty = true;
    }

    /// Update the location field, unless the user is editing it: it takes
    /// the text of `location_source`, if any. Returns whether the field
    /// changed.
    pub fn update_location_in_toolbar(&mut self, graph_app: &GraphBrowserApp, has_webview_tiles: bool, focused_url: Option<String>) -> (changed: bool)
        requires
            graph_app.wf(),
        ensures
            ({
                let source = location_source(*old(self), *graph_app, has_webview_tiles, focused_url);
                &&& changed == (source matches Some(s) && s != old(self).location@)
                &&& final(self).location@ == (if changed { source->0 } else { old(self).location@ })
            }),
            final(self).location_dirty == old(self).location_dirty,
            final(self).load_status == old(self).load_status,
            final(self).status_text == old(self).status_text,
            final(self).can_go_back == old(self).can_go_back,
            final(self).can_go_forward == old(self).can_go_forward,
    {
        if self.location_dirty {
            return false;
        }
        if !has_webview_tiles {
            match graph_app.get_single_selected_node() {
                Some(key) => match graph_app.graph.get_node(key) {
                    Some(node) => {
                        if !same_text(node.url.as_str(), self.location.as_str()) {
                            self.location = node.url.clone();
                            return true;
                        }
                    },
                    None => {},
                },
                None => {},
            }
            return false;
        }
        match focused_url {
            Some(location) => {
                if !same_text(location.as_str(), self.location.as_str()) {
                    self.location = location;
                    true
                } else {
                    false
                }
            },
            None => false,
        }
    }

    /// Take the focused webview's load status (`Complete` with no focused
    /// webview). When it changes, the location field follows the page
    /// again. Returns whether it changed.
    pub fn update_load_status(&mut self, status: Option<LoadStatus>) -> (changed: bool)
        ensures
            ({
                let s = match status { Some(s) => s, None => LoadStatus::Complete };
                &&& final(self).load_status == s
                &&& changed == (s != old(self).load_status)
                &&& final(self).location_dirty == (old(self).location_dirty && !changed)
            }),
            final(self).location == old(self).location,
            final(self).status_text == old(self).status_text,
            final(self).can_go_back == old(self).can_go_back,
            final(self).can_go_forward == old(self).can_go_forward,
    {
        let state_status = match status {
            Some(s) => s,
            None => LoadStatus::Complete,
        };
        let changed = state_status != self.load_status;
        self.load_status = state_status;
        if changed {
            self.location_dirty = false;
        }
        changed
    }

    /// Take the focused webview's status text. Returns whether it changed.
    pub fn update_status_text(&mut self, text: Option<String>) -> (changed: bool)
        ensures
            final(self).status_text == text,
            changed == (opt_text(text) != opt_text(old(self).status_text)),
            final(self).location == old(self).location,
            final(self).location_dirty == old(self).location_dirty,
            final(self).load_status == old(self).load_status,
            final(self).can_go_back == old(self).can_go_back,
            final(self).can_go_forward == old(self).can_go_forward,
    {
        let changed = !same_opt_text(&self.status_text, &text);
        self.status_text = text;
        changed
    }

    /// Take whether the focused webview can go back and forward (neither
    /// with no focused webview). Returns whether either changed.
    pub fn update_can_go_back_and_forward(&mut self, navigation: Option<(bool, bool)>) -> (changed: bool)
        ensures
            ({
                let (back, forward) = match navigation { Some(n) => n, None => (false, false) };
                &&& final(self).can_go_back == back
                &&& final(self).can_go_forward == forward
                &&& changed == (back != old(self).can_go_back || forward != old(self).can_go_forward)
            }),
            final(self).location == old(self).location,
            final(self).location_dirty == old(self).location_dirty,
            final(self).load_status == old(self).load_status,
            final(self).status_text == old(self).status_text,
    {
        let (back, forward) = match navigation {
            Some(n) => n,
            None => (false, false),
        };
        let changed = back != self.can_go_back || forward != self.can_go_forward;
        self.can_go_back = back;
        self.can_go_forward = forward;
        changed
    }

    /// Update everything the toolbar shows of the focused webview, in this
    /// order: load status, location, status text, navigation. Returns
    /// whether anything changed.
    pub fn update_webview_data(&mut self, graph_app: &GraphBrowserApp, has_webview_tiles: bool, focused: Option<FocusedWebview>) -> (changed: bool)
        requires
            graph_app.wf(),
        ensures
            exists|a: ToolbarState, b: ToolbarState, c: ToolbarState, ca: bool, cb: bool, cc: bool, cd: bool| {
                &&& #[trigger] loaded_status(*old(self), a, focused, ca)
                &&& #[trigger] located(a, b, *graph_app, has_webview_tiles, focused, cb)
                &&& #[trigger] texted(b, c, focused, cc)
                &&& #[trigger] navigated(c, *final(self), focused, cd)
                &&& changed == (ca || cb || cc || cd)
            },
    {
        let (url, status, text, navigation) = match focused {
            Some(w) => (w.url, Some(w.load_status), w.status_text, Some((w.can_go_back, w.can_go_forward))),
            None => (None, None, None, None),
        };
        let ghost s0 = *self;
        let ca = self.update_load_status(status);
        let ghost s1 = *self;
        let cb = self.update_location_in_toolbar(graph_app, has_webview_tiles, url);
        let ghost s2 = *self;
        let cc = self.update_status_text(text);
        let ghost s3 = *self;
        let cd = self.update_can_go_back_and_forward(navigation);
        assert(loaded_status(s0, s1, focused, ca));
        assert(located(s1, s2, *graph_app, has_webview_tiles, focused, cb));
        assert(texted(s2, s3, focused, cc));
        assert(navigated(s3, *self, focused, cd));
        ca || cb || cc || cd
    }
}

/// The focused webview's URL, if any.
pub open spec fn focused_url(f: Option<FocusedWebview>) -> Option<String> {
    match f {
        Some(w) => w.url,
        None => None,
    }
}

/// `next` is `t` after taking the focused webview's load status.
pub open spec fn loaded_status(t: ToolbarState, next: ToolbarState, f: Option<FocusedWebview>, changed: bool) -> bool {
    let s = match f { Some(w) => w.load_status, None => LoadStatus::Complete };
    &&& next.load_status == s
    &&& changed == (s != t.load_status)
    &&& next.location_dirty == (t.location_dirty && !changed)
    &&& next.location == t.location
    &&& next.status_text == t.status_text
    &&& next.can_go_back == t.can_go_back
    &&& next.can_go_forward == t.can_go_forward
}

/// `next` is `t` after updating the location field.
pub open spec fn located(
    t: ToolbarState,
    next: ToolbarState,
    app: GraphBrowserApp,
    has_webview_tiles: bool,
    f: Option<FocusedWebview>,
    changed: bool,
) -> bool {
    let source = location_source(t, app, has_webview_tiles, focused_url(f));
    &&& changed == (source matches Some(s) && s != t.location@)
    &&& next.location@ == (if changed { source->0 } else { t.location@ })
    &&& next.location_dirty == t.location_dirty
    &&& next.load_status == t.load_status
    &&& next.status_text == t.status_text
    &&& next.can_go_back == t.can_go_back
    &&& next.can_go_forward == t.can_go_forward
}

/// `next` is `t` after taking the focused webview's status text.
pub open spec fn texted(t: ToolbarState, next: ToolbarState, f: Option<FocusedWebview>, changed: bool) -> bool {
    let text = match f { Some(w) => w.status_text, None => None };
    &&& next.status_text == text
    &&& changed == (opt_text(text) != opt_text(t.status_text))
    &&& next.location == t.location
    &&& next.location_dirty == t.location_dirty
    &&& next.load_status == t.load_status
    &&& next.can_go_back == t.can_go_back
    &&& next.can_go_forward == t.can_go_forward
}

/// `next` is `t` after taking whether the focused webview can go back and
/// forward.
pub open spec fn navigated(t: ToolbarState, next: ToolbarState, f: Option<FocusedWebview>, changed: bool) -> bool {
    let (back, forward) = match f { Some(w) => (w.can_go_back, w.can_go_forward), None => (false, false) };
    &&& next.can_go_back == back
    &&& next.can_go_forward == forward
    &&& changed == (back != t.can_go_back || forward != t.can_go_forward)
    &&& next.location == t.location
    &&& next.location_dirty == t.location_dirty
    &&& next.load_status == t.load_status
    &&& next.status_text == t.status_text
}

} // verus!
