use graphshell::graph::{Graph, Position};
use graphshell::search::fuzzy_match_node_keys;

fn pos(x: f32, y: f32) -> Position {
    Position { x: x.to_bits(), y: y.to_bits() }
}

#[test]
fn test_fuzzy_match_node_keys_matches_typo() {
    let mut graph = Graph::new();
    let github = graph.add_node("https://github.com".into(), pos(0.0, 0.0));
    graph.add_node("https://gitlab.com".into(), pos(20.0, 0.0));
    graph.add_node("https://example.com".into(), pos(40.0, 0.0));
    let matches = fuzzy_match_node_keys(&graph, "gthub");
    assert_eq!(matches.first().copied(), Some(github));
}

#[test]
fn test_fuzzy_match_node_keys_matches_titles_and_urls() {
    let mut graph = Graph::new();
    let rust_book = graph.add_node("https://doc.rust-lang.org/book".into(), pos(0.0, 0.0));
    let cargo_ref = graph.add_node("https://doc.rust-lang.org/cargo".into(), pos(20.0, 0.0));
    if let Some(node) = graph.get_node_mut(cargo_ref) {
        node.title = "Cargo Reference".into();
    }
    if let Some(node) = graph.get_node_mut(rust_book) {
        node.title = "The Rust Book".into();
    }
    let title_matches = fuzzy_match_node_keys(&graph, "cargo ref");
    assert_eq!(title_matches.first().copied(), Some(cargo_ref));
    let url_matches = fuzzy_match_node_keys(&graph, "rust-lang book");
    assert_eq!(url_matches.first().copied(), Some(rust_book));
}

#[test]
fn test_fuzzy_match_node_keys_empty_query_returns_no_matches() {
    let graph = Graph::new();
    assert!(fuzzy_match_node_keys(&graph, "").is_empty());
    assert!(fuzzy_match_node_keys(&graph, "   ").is_empty());
}

#[test]
fn test_fuzzy_match_is_case_insensitive_and_skips_non_matches() {
    let mut graph = Graph::new();
    let a = graph.add_node("https://Example.COM".into(), pos(0.0, 0.0));
    graph.add_node("https://zzz.org".into(), pos(0.0, 0.0));
    let matches = fuzzy_match_node_keys(&graph, "  EXAMPLE  ");
    assert_eq!(matches, vec![a]);
}
