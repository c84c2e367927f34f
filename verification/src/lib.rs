//! Verified core of the graphshell spatial browser: the page graph, node
//! selection, the intent reducer, log replay and snapshot conversion,
//! search ranking, the window layout's panes, and the small text helpers
//! they rely on.

pub mod text;
pub mod util;
pub mod app;
pub mod config;
pub mod desktop;
pub mod graph;
pub mod input;
pub mod keyed;
pub mod persistence;
pub mod pixels;
pub mod render;
pub mod search;
pub mod tiles;
pub mod toolbar;
