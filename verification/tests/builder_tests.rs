use arbor::builder::GraphBuilder;
use arbor::edge::EdgeKind;
use arbor::node::{CodeNode, NodeKind};

#[test]
fn test_builder_adds_nodes() {
    let mut builder = GraphBuilder::new();

    let node1 = CodeNode::new("foo", "foo", NodeKind::Function, "test.rs");
    let node2 = CodeNode::new("bar", "bar", NodeKind::Function, "test.rs");

    builder.add_nodes(vec![node1, node2]);
    let graph = builder.build();

    assert_eq!(graph.node_count(), 2);
}

#[test]
fn test_builder_resolves_edges() {
    let mut builder = GraphBuilder::new();

    let caller = CodeNode::new("caller", "caller", NodeKind::Function, "test.rs")
        .with_references(vec!["callee".to_string()]);
    let callee = CodeNode::new("callee", "callee", NodeKind::Function, "test.rs");

    builder.add_nodes(vec![caller, callee]);
    let graph = builder.build();

    assert_eq!(graph.node_count(), 2);
    assert_eq!(graph.edge_count(), 1);
}

#[test]
fn test_cross_file_resolution() {
    let mut builder = GraphBuilder::new();

    let caller = CodeNode::new("main", "main", NodeKind::Function, "main.rs")
        .with_references(vec!["pkg.Utils.helper".to_string()]);

    let mut callee = CodeNode::new("helper", "helper", NodeKind::Method, "utils.rs");
    callee.qualified_name = "pkg.Utils.helper".to_string();

    builder.add_nodes(vec![caller]);
    builder.add_nodes(vec![callee]);

    let graph = builder.build();

    assert_eq!(graph.node_count(), 2);
    assert_eq!(graph.edge_count(), 1, "Should resolve cross-file edge via FQN");
}

#[test]
fn resolved_edges_are_calls_from_the_referrer() {
    let mut builder = GraphBuilder::new();
    let caller = CodeNode::new("main", "main", NodeKind::Function, "main.rs").with_references(vec![
        "pkg.Utils.helper".to_string(),
        "main".to_string(),
        "nowhere".to_string(),
        "late".to_string(),
    ]);
    let helper = CodeNode::new("helper", "pkg.Utils.helper", NodeKind::Method, "utils.rs");
    let late = CodeNode::new("late", "late", NodeKind::Function, "late.rs");
    builder.add_nodes(vec![caller, helper]);
    builder.add_nodes(vec![late]);
    assert!(builder.resolve_edges());
    let graph = builder.build_without_resolve();
    let exported = graph.export_edges();
    let got: Vec<(&str, &str, EdgeKind)> =
        exported.iter().map(|e| (e.source.as_str(), e.target.as_str(), e.kind)).collect();
    assert_eq!(
        got,
        vec![
            ("main.rs:main", "utils.rs:pkg.Utils.helper", EdgeKind::Calls),
            ("main.rs:main", "late.rs:late", EdgeKind::Calls),
        ]
    );
}

#[test]
fn build_without_resolve_adds_no_edge() {
    let mut builder = GraphBuilder::new();
    let caller = CodeNode::new("caller", "caller", NodeKind::Function, "test.rs")
        .with_references(vec!["callee".to_string()]);
    let callee = CodeNode::new("callee", "callee", NodeKind::Function, "test.rs");
    builder.add_nodes(vec![caller, callee]);
    let graph = builder.build_without_resolve();
    assert_eq!(graph.node_count(), 2);
    assert_eq!(graph.edge_count(), 0);
}

#[test]
fn builder_skips_a_node_whose_id_is_taken() {
    let mut builder = GraphBuilder::new();
    let first = CodeNode::new("foo", "foo", NodeKind::Function, "test.rs").with_lines(1, 2);
    let second = CodeNode::new("foo", "foo", NodeKind::Function, "test.rs").with_lines(5, 9);
    builder.add_nodes(vec![first, second]);
    let graph = builder.build();
    assert_eq!(graph.node_count(), 1);
    assert_eq!(graph.get_by_id("test.rs:foo").unwrap().line_start, 1);
}

#[test]
fn a_new_builder_takes_any_node_and_a_built_graph_has_no_scores() {
    let mut builder = GraphBuilder::new();
    let a = builder.add_node(CodeNode::new("a", "a", NodeKind::Function, "a.rs").with_references(vec!["b".to_string()]));
    let b = builder.add_node(CodeNode::new("b", "b", NodeKind::Function, "b.rs"));
    assert!(a.is_ok());
    assert!(b.is_ok());
    let graph = builder.build();
    assert_eq!(graph.edge_count(), 1);
    assert_eq!(graph.centrality(a.unwrap()), 0);
    assert_eq!(graph.centrality(b.unwrap()), 0);

    let mut builder = GraphBuilder::new();
    let c = builder.add_node(CodeNode::new("c", "c", NodeKind::Function, "c.rs")).unwrap();
    let graph = builder.build_without_resolve();
    assert_eq!(graph.centrality(c), 0);
}
