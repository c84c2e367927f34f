//! Graph node fuzzy search: nodes are ranked by how well their lower-cased
//! title and URL match a query, best first.

use nucleo::pattern::{CaseMatching, Normalization, Pattern};
use nucleo::{Config, Matcher, Utf32Str};
use vstd::prelude::*;

use crate::graph::snapshot::is_node_key_order;
use crate::graph::{Graph, Node, NodeKey};
use crate::text::{is_blank, lemma_stripped_empty, trim};

verus! {

/// The score that nucleo gives `haystack` for the pattern parsed from
/// `query` (case respected, no normalization), with the matcher configured
/// for paths on the platform the crate is built for; `None` when the
/// pattern does not match.
pub uninterp spec fn fuzzy_score(query: Seq<char>, haystack: Seq<char>) -> Option<u32>;

/// The lower-case form of `text`, as `str::to_lowercase` writes it.
pub uninterp spec fn lowercase(text: Seq<char>) -> Seq<char>;

/// Wraps nucleo's `Pattern::parse(query, CaseMatching::Respect,
/// Normalization::Never)` and `Pattern::score` with a fresh
/// `Matcher::new(Config::DEFAULT.match_paths())`: the score is named by
/// `fuzzy_score`. nucleo's matcher asserts that a haystack has at most
/// `u32::MAX` characters, hence the `requires`.
#[verifier::external_body]
fn score_text(query: &str, haystack: &str) -> (score: Option<u32>)
    requires
        haystack@.len() <= u32::MAX,
    ensures
        score == fuzzy_score(query@, haystack@),
{
    let pattern = Pattern::parse(query, CaseMatching::Respect, Normalization::Never);
    let mut matcher = Matcher::new(Config::DEFAULT.match_paths());
    let mut buf = Vec::new();
    pattern.score(Utf32Str::new(haystack, &mut buf), &mut matcher)
}

/// Wraps `str::to_lowercase`: the lower-case form, named by `lowercase`.
#[verifier::external_body]
fn to_lower(text: &str) -> (lower: String)
    ensures
        lower@ == lowercase(text@),
{
    text.to_lowercase()
}

/// The text a node is searched by: its lower-cased title, a space, and its
/// lower-cased URL.
pub open spec fn candidate_text(n: Node) -> Seq<char> {
    lowercase(n.title@) + seq![' '] + lowercase(n.url@)
}

/// The score of node `n` for the lower-cased query `query`; texts longer
/// than `u32::MAX` characters do not match.
pub open spec fn node_score(query: Seq<char>, n: Node) -> Option<u32> {
    if candidate_text(n).len() <= u32::MAX {
        fuzzy_score(query, candidate_text(n))
    } else {
        None
    }
}

/// The keys in `keys` whose nodes match `query`, each with its score, in
/// the order of `keys`.
pub open spec fn scored_matches(keys: Seq<NodeKey>, nodes: Map<NodeKey, Node>, query: Seq<char>) -> Seq<(NodeKey, u32)>
    decreases keys.len(),
{
    if keys.len() == 0 {
        Seq::empty()
    } else {
        let rest = scored_matches(keys.drop_last(), nodes, query);
        match node_score(query, nodes[keys.last()]) {
            Some(s) => rest.push((keys.last(), s)),
            None => rest,
        }
    }
}

/// `s` with `x` placed after every element whose score is at least `x`'s
/// counted from the back: in a list sorted by descending score, `x` goes
/// after all elements that score as much or more.
pub open spec fn insert_by_score(s: Seq<(NodeKey, u32)>, x: (NodeKey, u32)) -> Seq<(NodeKey, u32)>
    decreases s.len(),
{
    if s.len() == 0 {
        seq![x]
    } else if s.last().1 >= x.1 {
        s.push(x)
    } else {
        insert_by_score(s.drop_last(), x).push(s.last())
    }
}

/// `s` sorted by descending score, elements of equal score keeping their
/// order (a stable sort).
pub open spec fn stable_rank(s: Seq<(NodeKey, u32)>) -> Seq<(NodeKey, u32)>
    decreases s.len(),
{
    if s.len() == 0 {
        Seq::empty()
    } else {
        insert_by_score(stable_rank(s.drop_last()), s.last())
    }
}

/// Inserting before a tail that scores less than `x` inserts into the head.
proof fn lemma_insert_before_lower_tail(s: Seq<(NodeKey, u32)>, x: (NodeKey, u32), p: int)
    requires
        0 <= p <= s.len(),
        forall|j: int| p <= j < s.len() ==> #[trigger] s[j].1 < x.1,
    ensures
        insert_by_score(s, x) == insert_by_score(s.take(p), x) + s.skip(p),
    decreases s.len() - p,
{
    if p == s.len() {
        assert(s.take(p) =~= s);
        assert(s.skip(p) =~= Seq::<(NodeKey, u32)>::empty());
        assert(insert_by_score(s, x) + s.skip(p) =~= insert_by_score(s, x));
    } else {
        lemma_insert_before_lower_tail(s, x, p + 1);
        let head = s.take(p + 1);
        assert(head.drop_last() =~= s.take(p));
        assert(head.last() == s[p]);
        assert(insert_by_score(head, x) == insert_by_score(s.take(p), x).push(s[p]));
        assert(insert_by_score(s.take(p), x).push(s[p]) + s.skip(p + 1) =~= insert_by_score(s.take(p), x) + s.skip(p));
    }
}

/// Insert `x` into `v`, as `insert_by_score` describes.
fn insert_ranked(v: &mut Vec<(NodeKey, u32)>, x: (NodeKey, u32))
    ensures
        final(v)@ == insert_by_score(old(v)@, x),
{
    let mut p = v.len();
    while p > 0 && v[p - 1].1 < x.1
        invariant
            p <= v@.len(),
            v@ == old(v)@,
            forall|j: int| p <= j < v@.len() ==> #[trigger] v@[j].1 < x.1,
        decreases p,
    {
        p = p - 1;
    }
    proof {
        lemma_insert_before_lower_tail(v@, x, p as int);
        if p > 0 {
            assert(v@.take(p as int).last() == v@[p - 1]);
            assert(v@.take(p as int).drop_last() =~= v@.take(p - 1));
        }
    }
    let ghost before = v@;
    v.insert(p, x);
    proof {
        assert(insert_by_score(before.take(p as int), x) =~= before.take(p as int).push(x));
        assert(v@ =~= before.take(p as int).push(x) + before.skip(p as int));
    }
}

/// Sort matches by descending score, stably.
fn rank(matched: &Vec<(NodeKey, u32)>) -> (ranked: Vec<(NodeKey, u32)>)
    ensures
        ranked@ == stable_rank(matched@),
{
    let mut ranked: Vec<(NodeKey, u32)> = Vec::new();
    let mut i: usize = 0;
    while i < matched.len()
        invariant
            i <= matched@.len(),
            ranked@ == stable_rank(matched@.take(i as int)),
        decreases matched@.len() - i,
    {
        proof {
            assert(matched@.take(i + 1).drop_last() =~= matched@.take(i as int));
            assert(matched@.take(i + 1).last() == matched@[i as int]);
        }
        insert_ranked(&mut ranked, matched[i]);
        i = i + 1;
    }
    proof {
        assert(matched@.take(matched@.len() as int) =~= matched@);
    }
    ranked
}

/// The keys of ranked matches, best first.
pub open spec fn ranked_keys(matches: Seq<(NodeKey, u32)>) -> Seq<NodeKey> {
    stable_rank(matches).map_values(|p: (NodeKey, u32)| p.0)
}

/// `keys` is what searching `g` for `query` gives: nothing for a blank
/// query; otherwise the keys of the nodes that match the trimmed,
/// lower-cased query, ranked best first, nodes of equal score in
/// increasing key order.
pub open spec fn is_search_result(g: Graph, query: Seq<char>, keys: Seq<NodeKey>) -> bool {
    &&& is_blank(query) ==> keys.len() == 0
    &&& !is_blank(query) ==> exists|q: Seq<char>, order: Seq<NodeKey>| {
        &&& #[trigger] crate::text::is_stripped(q, query, crate::text::Strip::WhiteSpace)
        &&& #[trigger] is_node_key_order(order, g.node_map())
        &&& keys == ranked_keys(scored_matches(order, g.node_map(), lowercase(q)))
    }
}

/// Return node keys ranked by fuzzy match quality for `query`: the query is
/// trimmed and lower-cased, each node is scored by its lower-cased title and
/// URL, and the matching nodes come best first, nodes of equal score in
/// increasing key order. A blank query matches nothing.
pub fn fuzzy_match_node_keys(graph: &Graph, query: &str) -> (keys: Vec<NodeKey>)
    requires
        graph.wf(),
    ensures
        is_search_result(*graph, query@, keys@),
{
    let trimmed = trim(query);
    proof {
        lemma_stripped_empty(trimmed@, query@);
    }
    if trimmed.unicode_len() == 0 {
        return Vec::new();
    }
    let normalized = to_lower(trimmed);
    let nodes = graph.nodes();
    let ghost order = nodes@.map_values(|p: (NodeKey, &Node)| p.0);
    let mut matched: Vec<(NodeKey, u32)> = Vec::new();
    let mut i: usize = 0;
    while i < nodes.len()
        invariant
            i <= nodes@.len(),
            order == nodes@.map_values(|p: (NodeKey, &Node)| p.0),
            forall|j: int| 0 <= j < nodes@.len() ==> *nodes@[j].1 == graph.node_map()[nodes@[j].0],
            matched@ == scored_matches(order.take(i as int), graph.node_map(), normalized@),
        decreases nodes@.len() - i,
    {
        let node = nodes[i].1;
        let mut text = to_lower(node.title.as_str());
        text.append(" ");
        let url = to_lower(node.url.as_str());
        text.append(url.as_str());
        proof {
            reveal_strlit(" ");
            assert(text@ =~= candidate_text(*node));
            assert(order.take(i + 1).drop_last() =~= order.take(i as int));
            assert(order.take(i + 1).last() == nodes@[i as int].0);
        }
        if text.unicode_len() <= 0xffff_ffff {
            match score_text(normalized.as_str(), text.as_str()) {
                Some(s) => matched.push((nodes[i].0, s)),
                None => {},
            }
        }
        i = i + 1;
    }
    let ranked = rank(&matched);
    let mut keys: Vec<NodeKey> = Vec::new();
    let mut j: usize = 0;
    while j < ranked.len()
        invariant
            j <= ranked@.len(),
            keys@ == ranked@.take(j as int).map_values(|p: (NodeKey, u32)| p.0),
        decreases ranked@.len() - j,
    {
        keys.push(ranked[j].0);
        j = j + 1;
        assert(keys@ =~= ranked@.take(j as int).map_values(|p: (NodeKey, u32)| p.0));
    }
    proof {
        assert(ranked@.take(ranked@.len() as int) =~= ranked@);
        assert(order.take(nodes@.len() as int) =~= order);
        assert forall|k: NodeKey| graph.node_map().contains_key(k) implies order.contains(k) by {
            let m = choose|m: int| 0 <= m < nodes@.len() && #[trigger] nodes@[m].0 == k;
            assert(order[m] == k);
        }
        assert(is_node_key_order(order, graph.node_map()));
    }
    keys
}

} // verus!

verus! {

/// Every element of `s` scores at least `m`.
pub open spec fn scores_at_least(s: Seq<(NodeKey, u32)>, m: u32) -> bool {
    forall|i: int| 0 <= i < s.len() ==> #[trigger] s[i].1 >= m
}

/// `s` is sorted by descending score.
pub open spec fn sorted_by_score(s: Seq<(NodeKey, u32)>) -> bool {
    forall|i: int, j: int| 0 <= i < j < s.len() ==> s[i].1 >= s[j].1
}

proof fn lemma_insert_keeps_floor(s: Seq<(NodeKey, u32)>, x: (NodeKey, u32), m: u32)
    requires
        scores_at_least(s, m),
        x.1 >= m,
    ensures
        scores_at_least(insert_by_score(s, x), m),
    decreases s.len(),
{
    if s.len() > 0 && s.last().1 < x.1 {
        lemma_insert_keeps_floor(s.drop_last(), x, m);
    }
}

proof fn lemma_insert_sorted(s: Seq<(NodeKey, u32)>, x: (NodeKey, u32))
    requires
        sorted_by_score(s),
    ensures
        sorted_by_score(insert_by_score(s, x)),
        insert_by_score(s, x).to_multiset() == s.to_multiset().insert(x),
    decreases s.len(),
{
    broadcast use vstd::seq_lib::to_multiset_build;
    if s.len() == 0 {
        assert(seq![x] =~= Seq::<(NodeKey, u32)>::empty().push(x));
        assert(s =~= Seq::<(NodeKey, u32)>::empty());
    } else if s.last().1 >= x.1 {
        assert(s.push(x).to_multiset() == s.to_multiset().insert(x));
    } else {
        let head = s.drop_last();
        lemma_insert_sorted(head, x);
        assert(scores_at_least(head, s.last().1)) by {
            assert forall|i: int| 0 <= i < head.len() implies #[trigger] head[i].1 >= s.last().1 by {
                assert(s[i].1 >= s[s.len() - 1].1);
            }
        }
        lemma_insert_keeps_floor(head, x, s.last().1);
        let r = insert_by_score(head, x);
        assert(s =~= head.push(s.last()));
        assert(r.push(s.last()).to_multiset() == r.to_multiset().insert(s.last()));
        assert(head.push(s.last()).to_multiset() == head.to_multiset().insert(s.last()));
        assert(r.push(s.last()).to_multiset() =~= s.to_multiset().insert(x));
    }
}

/// Ranking puts matches best first, and keeps every match exactly once.
pub proof fn lemma_stable_rank_sorted(s: Seq<(NodeKey, u32)>)
    ensures
        sorted_by_score(stable_rank(s)),
        stable_rank(s).to_multiset() == s.to_multiset(),
    decreases s.len(),
{
    broadcast use vstd::seq_lib::to_multiset_build;
    if s.len() == 0 {
        assert(stable_rank(s) =~= s);
    } else {
        lemma_stable_rank_sorted(s.drop_last());
        lemma_insert_sorted(stable_rank(s.drop_last()), s.last());
        assert(s =~= s.drop_last().push(s.last()));
    }
}


/// Two nodes read the same to the search: equal titles and equal URLs once
/// both are lower-cased.
pub open spec fn same_lowercase_text(a: Node, b: Node) -> bool {
    &&& lowercase(a.title@) == lowercase(b.title@)
    &&& lowercase(a.url@) == lowercase(b.url@)
}

/// Search ignores letter case in titles and URLs: a node's score depends on
/// nothing but its lower-cased title and lower-cased URL.
pub proof fn lemma_score_ignores_case(query: Seq<char>, a: Node, b: Node)
    requires
        same_lowercase_text(a, b),
    ensures
        node_score(query, a) == node_score(query, b),
{
}

proof fn lemma_scored_matches_ignore_case(keys: Seq<NodeKey>, m1: Map<NodeKey, Node>, m2: Map<NodeKey, Node>, query: Seq<char>)
    requires
        forall|i: int| 0 <= i < keys.len() ==> same_lowercase_text(m1[#[trigger] keys[i]], m2[keys[i]]),
    ensures
        scored_matches(keys, m1, query) == scored_matches(keys, m2, query),
    decreases keys.len(),
{
    if keys.len() > 0 {
        let rest = keys.drop_last();
        assert forall|i: int| 0 <= i < rest.len() implies same_lowercase_text(m1[#[trigger] rest[i]], m2[rest[i]]) by {
            assert(rest[i] == keys[i]);
        }
        lemma_scored_matches_ignore_case(rest, m1, m2, query);
        assert(same_lowercase_text(m1[keys[keys.len() - 1]], m2[keys[keys.len() - 1]]));
        lemma_score_ignores_case(query, m1[keys.last()], m2[keys.last()]);
    }
}

/// Search is case-insensitive in titles and URLs: two graphs with the same
/// node keys whose nodes differ at most in the letter case of their titles
/// and URLs give the same results for every query.
pub proof fn lemma_search_ignores_case(g1: Graph, g2: Graph, query: Seq<char>, keys: Seq<NodeKey>)
    requires
        g1.node_map().dom() == g2.node_map().dom(),
        forall|k: NodeKey| #[trigger] g1.node_map().contains_key(k) ==> same_lowercase_text(g1.node_map()[k], g2.node_map()[k]),
        is_search_result(g1, query, keys),
    ensures
        is_search_result(g2, query, keys),
{
    if !is_blank(query) {
        let (q, order) = choose|q: Seq<char>, order: Seq<NodeKey>| {
            &&& #[trigger] crate::text::is_stripped(q, query, crate::text::Strip::WhiteSpace)
            &&& #[trigger] is_node_key_order(order, g1.node_map())
            &&& keys == ranked_keys(scored_matches(order, g1.node_map(), lowercase(q)))
        };
        assert(is_node_key_order(order, g2.node_map())) by {
            assert forall|i: int| 0 <= i < order.len() implies g2.node_map().contains_key(#[trigger] order[i]) by {
                assert(g1.node_map().contains_key(order[i]));
            }
            assert forall|k: NodeKey| g2.node_map().contains_key(k) implies order.contains(k) by {
                assert(g1.node_map().contains_key(k));
            }
        }
        assert forall|i: int| 0 <= i < order.len() implies same_lowercase_text(g1.node_map()[#[trigger] order[i]], g2.node_map()[order[i]]) by {
            assert(g1.node_map().contains_key(order[i]));
        }
        lemma_scored_matches_ignore_case(order, g1.node_map(), g2.node_map(), lowercase(q));
    }
}

} // verus!
