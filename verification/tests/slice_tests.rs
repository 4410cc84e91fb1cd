use arbor::edge::{Edge, EdgeKind};
use arbor::graph::ArborGraph;
use arbor::node::{CodeNode, NodeId, NodeKind};
use arbor::slice::TruncationReason;

fn node(name: &str, kind: NodeKind, lines: u32) -> CodeNode {
    CodeNode::new(name, name, kind, "ctx.rs").with_lines(1, 1 + lines)
}

fn star() -> (ArborGraph, Vec<NodeId>) {
    let mut graph = ArborGraph::new();
    let mut ids = Vec::new();
    ids.push(graph.add_node(node("target", NodeKind::Function, 10)).unwrap());
    ids.push(graph.add_node(node("caller", NodeKind::Function, 20)).unwrap());
    ids.push(graph.add_node(node("callee", NodeKind::Method, 30)).unwrap());
    ids.push(graph.add_node(node("model", NodeKind::Struct, 100)).unwrap());
    ids.push(graph.add_node(node("far", NodeKind::Function, 5)).unwrap());
    ids.push(graph.add_node(node("farther", NodeKind::Function, 5)).unwrap());
    graph.add_edge(ids[1], ids[0], Edge::new(EdgeKind::Calls)).unwrap();
    graph.add_edge(ids[0], ids[2], Edge::new(EdgeKind::Calls)).unwrap();
    graph.add_edge(ids[0], ids[3], Edge::new(EdgeKind::UsesType)).unwrap();
    graph.add_edge(ids[4], ids[2], Edge::new(EdgeKind::Calls)).unwrap();
    graph.add_edge(ids[5], ids[4], Edge::new(EdgeKind::Calls)).unwrap();
    graph.set_centrality(&vec![(ids[1], 5), (ids[2], 50), (ids[3], 20), (ids[4], 1)]);
    (graph, ids)
}

fn names(graph: &ArborGraph, target: NodeId, max_tokens: u64, depth: usize, pinned: &Vec<NodeKind>) -> (Vec<String>, u64, TruncationReason) {
    let slice = graph.slice_context(target, max_tokens, depth, pinned);
    (slice.nodes.iter().map(|n| n.node_info.name.clone()).collect(), slice.total_tokens, slice.truncation_reason)
}

#[test]
fn a_slice_starts_with_the_target_and_orders_by_depth_then_centrality() {
    let (graph, ids) = star();
    let slice = graph.slice_context(ids[0], 100_000, 2, &Vec::new());
    let got: Vec<(&str, usize, u64, bool)> = slice
        .nodes
        .iter()
        .map(|n| (n.node_info.name.as_str(), n.depth, n.token_estimate, n.pinned))
        .collect();
    assert_eq!(
        got,
        vec![
            ("target", 0, 100, false),
            ("callee", 1, 300, false),
            ("model", 1, 1000, false),
            ("caller", 1, 200, false),
            ("far", 2, 50, false),
        ]
    );
    assert_eq!(slice.total_tokens, 1650);
    assert_eq!(slice.max_tokens, 100_000);
    assert_eq!(slice.truncation_reason, TruncationReason::DepthReached);
    assert_eq!(slice.target.name, "target");
    assert_eq!(slice.nodes[1].node_info.centrality, 50);
    assert_eq!(slice.nodes[1].node_id, ids[2]);
    assert_eq!(slice.summary(), "Context: 5 nodes, 1650 of 100000 tokens (depth_reached)");
}

#[test]
fn a_slice_is_exhausted_when_nothing_lies_beyond() {
    let (graph, ids) = star();
    let (got, total, reason) = names(&graph, ids[0], 100_000, 3, &Vec::new());
    assert_eq!(got, vec!["target", "callee", "model", "caller", "far", "farther"]);
    assert_eq!(total, 1700);
    assert_eq!(reason, TruncationReason::Exhausted);
    let (got, _, reason) = names(&graph, ids[0], 100_000, 0, &Vec::new());
    assert_eq!(got.len(), 6);
    assert_eq!(reason, TruncationReason::Exhausted);
    let (got, total, reason) = names(&graph, ids[0], 100_000, 1, &Vec::new());
    assert_eq!(got, vec!["target", "callee", "model", "caller"]);
    assert_eq!(total, 1600);
    assert_eq!(reason, TruncationReason::DepthReached);
}

#[test]
fn the_budget_stops_unpinned_nodes_but_not_pinned_ones() {
    let (graph, ids) = star();
    let (got, total, reason) = names(&graph, ids[0], 400, 3, &Vec::new());
    assert_eq!(got, vec!["target", "callee"]);
    assert_eq!(total, 400);
    assert_eq!(reason, TruncationReason::Budget);

    let (got, total, reason) = names(&graph, ids[0], 399, 3, &Vec::new());
    assert_eq!(got, vec!["target"]);
    assert_eq!(total, 100);
    assert_eq!(reason, TruncationReason::Budget);

    let (got, total, reason) = names(&graph, ids[0], 0, 3, &Vec::new());
    assert_eq!(got, vec!["target"]);
    assert_eq!(total, 100);
    assert_eq!(reason, TruncationReason::Budget);

    let pinned = vec![NodeKind::Struct];
    let slice = graph.slice_context(ids[0], 400, 3, &pinned);
    let got: Vec<(&str, bool)> = slice.nodes.iter().map(|n| (n.node_info.name.as_str(), n.pinned)).collect();
    assert_eq!(got, vec![("target", false), ("callee", false), ("model", true)]);
    assert_eq!(slice.total_tokens, 1400);
    assert_eq!(slice.truncation_reason, TruncationReason::Budget);

    let pinned = vec![NodeKind::Function];
    let (got, total, _) = names(&graph, ids[0], 0, 3, &pinned);
    assert_eq!(got, vec!["target", "caller", "far", "farther"]);
    assert_eq!(total, 100 + 200 + 50 + 50);
}

#[test]
fn a_slice_of_a_missing_or_lonely_node() {
    let (mut graph, _) = star();
    let slice = graph.slice_context(NodeId::new(99), 1000, 2, &Vec::new());
    assert!(slice.nodes.is_empty());
    assert_eq!(slice.total_tokens, 0);
    assert_eq!(slice.truncation_reason, TruncationReason::Exhausted);
    assert_eq!(slice.target.name, "");
    let lonely = graph.add_node(node("lonely", NodeKind::Function, 3)).unwrap();
    let slice = graph.slice_context(lonely, 1000, 2, &Vec::new());
    assert_eq!(slice.nodes.len(), 1);
    assert_eq!(slice.total_tokens, 30);
    assert_eq!(slice.truncation_reason, TruncationReason::Exhausted);
    assert_eq!(TruncationReason::Budget.as_str(), "budget");
    assert_eq!(TruncationReason::Exhausted.as_str(), "exhausted");
}

#[test]
fn a_cycle_is_walked_once() {
    let mut graph = ArborGraph::new();
    let a = graph.add_node(node("a", NodeKind::Function, 1)).unwrap();
    let b = graph.add_node(node("b", NodeKind::Function, 1)).unwrap();
    let c = graph.add_node(node("c", NodeKind::Function, 1)).unwrap();
    graph.add_edge(a, b, Edge::new(EdgeKind::Calls)).unwrap();
    graph.add_edge(b, c, Edge::new(EdgeKind::Calls)).unwrap();
    graph.add_edge(c, a, Edge::new(EdgeKind::Calls)).unwrap();
    graph.add_edge(a, a, Edge::new(EdgeKind::Calls)).unwrap();
    let slice = graph.slice_context(a, 1000, 0, &Vec::new());
    let got: Vec<(&str, usize)> = slice.nodes.iter().map(|n| (n.node_info.name.as_str(), n.depth)).collect();
    assert_eq!(got, vec![("a", 0), ("b", 1), ("c", 1)]);
}
