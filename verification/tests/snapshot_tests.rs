use arbor::config::{
    bind_host, is_ignored, RepositoryConfig, ServerConfig, SyncServerConfig, BRIDGE_BROADCAST_PORT,
    BRIDGE_QUERY_PORT, BROADCAST_CAPACITY, BROADCAST_PORT, QUERY_PORT,
};
use arbor::edge::{Edge, EdgeKind};
use arbor::graph::ArborGraph;
use arbor::node::{CodeNode, NodeKind, Visibility};
use arbor::snapshot::{Snapshot, SnapshotEdge};

#[test]
fn test_save_load_graph() {
    let graph = ArborGraph::new();
    let loaded = ArborGraph::restore(graph.snapshot());
    assert_eq!(loaded.node_count(), 0);
}

fn sample() -> ArborGraph {
    let mut graph = ArborGraph::new();
    let a = graph
        .add_node(
            CodeNode::new("a", "pkg.a", NodeKind::Function, "a.rs")
                .with_lines(1, 9)
                .with_bytes(0, 90)
                .with_column(3)
                .with_signature("fn a()".to_string())
                .with_visibility(Visibility::Public)
                .with_references(vec!["b".to_string()]),
        )
        .unwrap();
    let gone = graph.add_node(CodeNode::new("gone", "gone", NodeKind::Class, "gone.rs")).unwrap();
    let b = graph.add_node(CodeNode::new("b", "b", NodeKind::Method, "b.rs")).unwrap();
    let c = graph.add_node(CodeNode::new("c", "c", NodeKind::Struct, "b.rs")).unwrap();
    graph.add_edge(a, gone, Edge::new(EdgeKind::Calls)).unwrap();
    graph.add_edge(a, b, Edge::new(EdgeKind::Calls)).unwrap();
    graph.add_edge(a, b, Edge::new(EdgeKind::Calls)).unwrap();
    graph.add_edge(a, b, Edge::with_location(EdgeKind::Imports, "a.rs", 4)).unwrap();
    graph.add_edge(c, c, Edge::new(EdgeKind::Contains)).unwrap();
    graph.remove_file("gone.rs");
    graph
}

#[test]
fn a_rebuilt_graph_has_the_same_nodes_edges_and_counts() {
    let graph = sample();
    let snapshot = graph.snapshot();
    assert_eq!(snapshot.nodes.len(), 3);
    assert_eq!(snapshot.edges.len(), 4);
    let rebuilt = ArborGraph::restore(snapshot);

    assert_eq!(rebuilt.node_count(), graph.node_count());
    assert_eq!(rebuilt.edge_count(), graph.edge_count());
    assert_eq!(rebuilt.stats(), graph.stats());
    for node in graph.nodes_list() {
        let twin = rebuilt.get_by_id(&node.id).unwrap();
        assert_eq!(twin.name, node.name);
        assert_eq!(twin.qualified_name, node.qualified_name);
        assert_eq!(twin.kind, node.kind);
        assert_eq!(twin.file, node.file);
        assert_eq!((twin.line_start, twin.line_end, twin.column), (node.line_start, node.line_end, node.column));
        assert_eq!((twin.byte_start, twin.byte_end), (node.byte_start, node.byte_end));
        assert_eq!(twin.visibility, node.visibility);
        assert_eq!(twin.signature, node.signature);
        assert_eq!(twin.references, node.references);
    }
    let key = |g: &ArborGraph| {
        let mut keys: Vec<(String, String, &'static str)> =
            g.export_edges().into_iter().map(|e| (e.source, e.target, e.kind.as_str())).collect();
        keys.sort();
        keys
    };
    assert_eq!(key(&rebuilt), key(&graph));
    assert_eq!(
        key(&rebuilt),
        vec![
            ("a.rs:pkg.a".to_string(), "b.rs:b".to_string(), "calls"),
            ("a.rs:pkg.a".to_string(), "b.rs:b".to_string(), "calls"),
            ("a.rs:pkg.a".to_string(), "b.rs:b".to_string(), "imports"),
            ("b.rs:c".to_string(), "b.rs:c".to_string(), "contains"),
        ]
    );
    let located: Vec<_> = rebuilt.edges_list().into_iter().filter(|e| e.file.is_some()).collect();
    assert_eq!(located.len(), 1);
    assert_eq!(located[0].line, Some(4));
    assert_eq!(rebuilt.find_by_name("a").len(), 1);
    assert_eq!(rebuilt.find_by_file("b.rs").len(), 2);
    assert!(rebuilt.resolve("pkg.a").is_some());
    assert_eq!(rebuilt.search("a").len(), 1);
}

#[test]
fn a_snapshot_edge_without_its_endpoints_is_left_out() {
    let snapshot = Snapshot {
        nodes: vec![
            CodeNode::new("a", "a", NodeKind::Function, "a.rs"),
            CodeNode::new("a", "a", NodeKind::Function, "a.rs"),
            CodeNode::new("b", "b", NodeKind::Function, "a.rs"),
        ],
        edges: vec![
            SnapshotEdge { source: "a.rs:a".to_string(), target: "a.rs:zzz".to_string(), edge: Edge::new(EdgeKind::Calls) },
            SnapshotEdge { source: "a.rs:a".to_string(), target: "a.rs:b".to_string(), edge: Edge::new(EdgeKind::Extends) },
        ],
    };
    let graph = ArborGraph::restore(snapshot);
    assert_eq!(graph.node_count(), 2);
    assert_eq!(graph.edge_count(), 1);
    assert_eq!(graph.export_edges()[0].kind, EdgeKind::Extends);
}

#[test]
fn settings_have_their_defaults() {
    assert_eq!((QUERY_PORT, BRIDGE_QUERY_PORT), (7432, 7433));
    assert_eq!((BROADCAST_PORT, BRIDGE_BROADCAST_PORT), (8080, 8081));
    assert_eq!(BROADCAST_CAPACITY, 256);
    assert_eq!(bind_host(false), "127.0.0.1");
    assert_eq!(bind_host(true), "0.0.0.0");
    let server = ServerConfig::default_config();
    assert_eq!((server.host.as_str(), server.port), ("127.0.0.1", 7432));
    let sync = SyncServerConfig::default_config();
    assert_eq!((sync.host.as_str(), sync.port), ("127.0.0.1", 8080));
    assert_eq!(sync.watch_path, ".");
    assert_eq!(sync.debounce_ms, 150);
    assert_eq!(sync.extensions, vec!["ts", "tsx", "js", "jsx", "rs", "py"]);
    let repo = RepositoryConfig::default_config();
    assert_eq!(repo.version, "1.0");
    assert_eq!(repo.languages, vec!["typescript", "rust", "python"]);
    assert_eq!(repo.ignore, vec!["node_modules", "target", "dist", "__pycache__"]);
}

#[test]
fn ignored_names_are_whole_path_segments() {
    let ignore = vec!["node_modules".to_string(), "target".to_string()];
    assert!(is_ignored("node_modules/x/index.js", &ignore));
    assert!(is_ignored("web/node_modules/x.js", &ignore));
    assert!(is_ignored("a/b/target", &ignore));
    assert!(is_ignored("/abs/target/debug/main.rs", &ignore));
    assert!(!is_ignored("src/targets/main.rs", &ignore));
    assert!(!is_ignored("src/my_target/main.rs", &ignore));
    assert!(!is_ignored("src/main.rs", &ignore));
    assert!(!is_ignored("", &ignore));
    assert!(!is_ignored("target", &Vec::new()));
    assert!(is_ignored("a//b", &vec!["".to_string()]));
}
