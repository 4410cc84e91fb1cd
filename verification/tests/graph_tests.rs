use arbor::edge::{Edge, EdgeKind};
use arbor::graph::{ArborGraph, GraphError};
use arbor::node::{CodeNode, NodeId, NodeKind, Visibility};
use arbor::symbol_table::SymbolTable;

fn node(name: &str, file: &str) -> CodeNode {
    CodeNode::new(name, name, NodeKind::Function, file)
}

#[test]
fn test_insert_resolve() {
    let mut table = SymbolTable::new();
    let path = "main.rs";
    let id = NodeId::new(1);

    table.insert("main::foo".to_string(), id, path);

    assert_eq!(table.resolve("main::foo"), Some(id));
    assert_eq!(table.resolve("main::bar"), None);

    let exports = table.get_file_exports(path).unwrap();
    assert_eq!(exports.len(), 1);
    assert_eq!(exports[0], "main::foo");
}

#[test]
fn symbol_table_forgets_and_clears() {
    let mut table = SymbolTable::new();
    table.insert("a::b".to_string(), NodeId::new(3), "a.rs");
    table.insert("a::c".to_string(), NodeId::new(4), "a.rs");
    table.forget("a::b", NodeId::new(9));
    assert_eq!(table.resolve("a::b"), Some(NodeId::new(3)));
    table.forget("a::b", NodeId::new(3));
    assert_eq!(table.resolve("a::b"), None);
    assert_eq!(table.get_file_exports("a.rs").unwrap().len(), 2);
    table.forget_file("a.rs");
    assert!(table.get_file_exports("a.rs").is_none());
    table.clear();
    assert_eq!(table.resolve("a::c"), None);
}

#[test]
fn node_ids_are_file_and_qualified_name() {
    let n = CodeNode::new("validate", "UserService.validate", NodeKind::Method, "user.rs")
        .with_lines(3, 9)
        .with_bytes(10, 200)
        .with_column(4)
        .with_signature("fn validate()".to_string())
        .with_visibility(Visibility::Public)
        .with_references(vec!["check".to_string()]);
    assert_eq!(n.id, "user.rs:UserService.validate");
    assert_eq!(n.name, "validate");
    assert_eq!(n.qualified_name, "UserService.validate");
    assert_eq!(n.file, "user.rs");
    assert_eq!((n.line_start, n.line_end), (3, 9));
    assert_eq!((n.byte_start, n.byte_end), (10, 200));
    assert_eq!(n.column, 4);
    assert_eq!(n.signature.as_deref(), Some("fn validate()"));
    assert_eq!(n.visibility, Visibility::Public);
    assert_eq!(n.references, vec!["check".to_string()]);
    assert_eq!(NodeKind::TypeAlias.as_str(), "type_alias");
    assert_eq!(EdgeKind::DataDependency.as_str(), "data_dependency");
    let copy = n.clone();
    assert_eq!(copy.id, n.id);
    assert_eq!(copy.references, n.references);
}

#[test]
fn edges_carry_kind_and_location() {
    let plain = Edge::new(EdgeKind::Imports);
    assert_eq!(plain.kind, EdgeKind::Imports);
    assert!(plain.file.is_none());
    assert!(plain.line.is_none());
    let placed = Edge::with_location(EdgeKind::Calls, "a.rs", 12);
    assert_eq!(placed.kind, EdgeKind::Calls);
    assert_eq!(placed.file.as_deref(), Some("a.rs"));
    assert_eq!(placed.line, Some(12));
}

#[test]
fn every_index_points_to_every_node() {
    let mut graph = ArborGraph::new();
    let names = [("foo", "a.rs"), ("bar", "a.rs"), ("foo", "b.rs"), ("baz", "c.rs")];
    let mut handles = Vec::new();
    for (name, file) in names {
        handles.push(graph.add_node(node(name, file)).unwrap());
    }
    assert_eq!(graph.node_count(), 4);
    for (i, (name, file)) in names.iter().enumerate() {
        let h = handles[i];
        let n = graph.get(h).unwrap();
        assert_eq!(graph.get_index(&n.id), Some(h));
        assert_eq!(graph.get_by_id(&n.id).unwrap().id, n.id);
        assert!(graph.find_by_name(name).iter().any(|m| m.id == n.id));
        assert!(graph.find_by_file(file).iter().any(|m| m.id == n.id));
        assert_eq!(graph.resolve(&n.qualified_name).is_some(), true);
        assert!(graph.search(name).contains(&h));
    }
    assert_eq!(graph.find_by_name("foo").len(), 2);
    assert_eq!(graph.find_by_file("a.rs").len(), 2);
    assert_eq!(graph.find_by_name("nope").len(), 0);
    assert_eq!(graph.stats().files, 3);
    assert_eq!(graph.node_indexes(), handles);
    assert_eq!(graph.nodes_list().len(), 4);
}

#[test]
fn duplicate_ids_are_refused() {
    let mut graph = ArborGraph::new();
    graph.add_node(node("foo", "a.rs")).unwrap();
    assert_eq!(graph.add_node(node("foo", "a.rs")), Err(GraphError::DuplicateId));
    assert_eq!(graph.node_count(), 1);
    assert_eq!(graph.find_by_name("foo").len(), 1);
}

#[test]
fn edges_need_live_endpoints() {
    let mut graph = ArborGraph::new();
    let a = graph.add_node(node("a", "a.rs")).unwrap();
    assert_eq!(
        graph.add_edge(a, NodeId::new(17), Edge::new(EdgeKind::Calls)),
        Err(GraphError::MissingNode)
    );
    assert_eq!(
        graph.add_edge(NodeId::new(usize::MAX), a, Edge::new(EdgeKind::Calls)),
        Err(GraphError::MissingNode)
    );
    assert_eq!(graph.edge_count(), 0);
    assert_eq!(graph.add_edge(a, a, Edge::new(EdgeKind::Calls)), Ok(()));
    assert_eq!(graph.add_edge(a, a, Edge::new(EdgeKind::Calls)), Ok(()));
    assert_eq!(graph.edge_count(), 2);
}

#[test]
fn remove_file_leaves_no_node_and_no_dangling_edge() {
    let mut graph = ArborGraph::new();
    let a = graph.add_node(node("a", "one.rs")).unwrap();
    let b = graph.add_node(node("b", "one.rs")).unwrap();
    let c = graph.add_node(node("c", "two.rs")).unwrap();
    let d = graph.add_node(node("d", "two.rs")).unwrap();
    graph.add_edge(a, b, Edge::new(EdgeKind::Calls)).unwrap();
    graph.add_edge(a, c, Edge::new(EdgeKind::Calls)).unwrap();
    graph.add_edge(c, b, Edge::new(EdgeKind::Imports)).unwrap();
    graph.add_edge(c, d, Edge::new(EdgeKind::Calls)).unwrap();
    graph.set_centrality(&vec![(a, 7), (c, 9)]);

    graph.remove_file("one.rs");

    assert_eq!(graph.node_count(), 2);
    assert_eq!(graph.edge_count(), 1);
    assert!(graph.get(a).is_none());
    assert!(graph.get(b).is_none());
    assert_eq!(graph.get(c).unwrap().name, "c");
    assert_eq!(graph.get(d).unwrap().name, "d");
    assert!(graph.find_by_file("one.rs").is_empty());
    assert!(graph.find_by_name("a").is_empty());
    assert!(graph.get_by_id("one.rs:a").is_none());
    assert!(graph.resolve("a").is_none());
    assert!(graph.search("a").is_empty());
    assert_eq!(graph.centrality(a), 0);
    assert_eq!(graph.centrality(c), 9);
    assert_eq!(graph.stats().files, 1);
    let exported = graph.export_edges();
    assert_eq!(exported.len(), 1);
    assert_eq!(exported[0].source, "two.rs:c");
    assert_eq!(exported[0].target, "two.rs:d");
    assert_eq!(exported[0].kind, EdgeKind::Calls);
    for e in &exported {
        assert!(graph.get_by_id(&e.source).is_some());
        assert!(graph.get_by_id(&e.target).is_some());
    }
    assert_eq!(graph.get_callees(c).len(), 1);
    assert!(graph.get_callers(c).is_empty());

    graph.remove_file("missing.rs");
    assert_eq!(graph.node_count(), 2);

    let e = graph.add_node(node("e", "one.rs")).unwrap();
    assert_eq!(graph.get(e).unwrap().name, "e");
    assert_eq!(graph.get(c).unwrap().name, "c");
    assert_eq!(graph.node_count(), 3);
}

#[test]
fn callers_and_callees_follow_calls_edges_only() {
    let mut graph = ArborGraph::new();
    let a = graph.add_node(node("a", "a.rs")).unwrap();
    let b = graph.add_node(node("b", "a.rs")).unwrap();
    let c = graph.add_node(node("c", "a.rs")).unwrap();
    graph.add_edge(a, b, Edge::new(EdgeKind::Calls)).unwrap();
    graph.add_edge(a, b, Edge::new(EdgeKind::Calls)).unwrap();
    graph.add_edge(a, b, Edge::new(EdgeKind::Imports)).unwrap();
    graph.add_edge(c, b, Edge::new(EdgeKind::Imports)).unwrap();
    graph.add_edge(b, c, Edge::new(EdgeKind::Calls)).unwrap();
    let callers: Vec<&str> = graph.get_callers(b).iter().map(|n| n.name.as_str()).collect();
    assert_eq!(callers, vec!["a"]);
    let callees: Vec<&str> = graph.get_callees(b).iter().map(|n| n.name.as_str()).collect();
    assert_eq!(callees, vec!["c"]);
    assert!(graph.get_callers(a).is_empty());
    assert_eq!(graph.edges_list().len(), 5);
}

#[test]
fn find_path_is_a_shortest_path() {
    let mut graph = ArborGraph::new();
    let a = graph.add_node(node("a", "a.rs")).unwrap();
    let b = graph.add_node(node("b", "a.rs")).unwrap();
    let c = graph.add_node(node("c", "a.rs")).unwrap();
    let d = graph.add_node(node("d", "a.rs")).unwrap();
    let e = graph.add_node(node("e", "a.rs")).unwrap();
    graph.add_edge(a, b, Edge::new(EdgeKind::Calls)).unwrap();
    graph.add_edge(b, c, Edge::new(EdgeKind::Calls)).unwrap();
    graph.add_edge(c, d, Edge::new(EdgeKind::Calls)).unwrap();
    graph.add_edge(a, d, Edge::new(EdgeKind::Imports)).unwrap();
    let path: Vec<&str> = graph.find_path(a, d).unwrap().iter().map(|n| n.name.as_str()).collect();
    assert_eq!(path, vec!["a", "d"]);
    let path: Vec<&str> = graph.find_path(a, c).unwrap().iter().map(|n| n.name.as_str()).collect();
    assert_eq!(path, vec!["a", "b", "c"]);
    let path: Vec<&str> = graph.find_path(a, a).unwrap().iter().map(|n| n.name.as_str()).collect();
    assert_eq!(path, vec!["a"]);
    assert!(graph.find_path(d, a).is_none());
    assert!(graph.find_path(a, e).is_none());
    assert!(graph.find_path(NodeId::new(99), NodeId::new(99)).is_none());
}

#[test]
fn centrality_defaults_to_zero_and_is_replaced_whole() {
    let mut graph = ArborGraph::new();
    let a = graph.add_node(node("a", "a.rs")).unwrap();
    let b = graph.add_node(node("b", "a.rs")).unwrap();
    assert_eq!(graph.centrality(a), 0);
    graph.set_centrality(&vec![(a, 5), (b, 6), (a, 8), (NodeId::new(44), 3)]);
    assert_eq!(graph.centrality(a), 8);
    assert_eq!(graph.centrality(b), 6);
    assert_eq!(graph.centrality(NodeId::new(44)), 0);
    graph.set_centrality(&vec![(b, 1)]);
    assert_eq!(graph.centrality(a), 0);
    assert_eq!(graph.centrality(b), 1);
}

#[test]
fn nodes_and_edges_are_listed_in_the_order_of_their_handles() {
    let mut graph = ArborGraph::new();
    let a = graph.add_node(CodeNode::new("a", "a", NodeKind::Function, "a.rs")).unwrap();
    let b = graph.add_node(CodeNode::new("b", "b", NodeKind::Function, "b.rs")).unwrap();
    let c = graph.add_node(CodeNode::new("c", "c", NodeKind::Function, "c.rs")).unwrap();
    graph.add_edge(c, a, Edge::new(EdgeKind::Calls)).unwrap();
    graph.add_edge(a, b, Edge::new(EdgeKind::Imports)).unwrap();
    graph.add_edge(a, b, Edge::with_location(EdgeKind::Imports, "a.rs", 3)).unwrap();
    graph.add_edge(b, c, Edge::new(EdgeKind::Extends)).unwrap();

    let names: Vec<&str> = graph.nodes_list().iter().map(|n| n.name.as_str()).collect();
    assert_eq!(names, vec!["a", "b", "c"]);
    let handles: Vec<usize> = graph.node_indexes().iter().map(|h| h.index()).collect();
    assert_eq!(handles, vec![a.index(), b.index(), c.index()]);
    let exported: Vec<(String, String, &str)> =
        graph.export_edges().into_iter().map(|e| (e.source, e.target, e.kind.as_str())).collect();
    assert_eq!(
        exported,
        vec![
            ("c.rs:c".to_string(), "a.rs:a".to_string(), "calls"),
            ("a.rs:a".to_string(), "b.rs:b".to_string(), "imports"),
            ("a.rs:a".to_string(), "b.rs:b".to_string(), "imports"),
            ("b.rs:b".to_string(), "c.rs:c".to_string(), "extends"),
        ]
    );
    let lines: Vec<Option<u32>> = graph.edges_list().iter().map(|e| e.line).collect();
    assert_eq!(lines, vec![None, None, Some(3), None]);
    let indexes: Vec<usize> = graph.edge_hits().iter().map(|h| h.edge).collect();
    assert_eq!(indexes, vec![0, 1, 2, 3]);

    graph.remove_file("b.rs");
    let names: Vec<&str> = graph.nodes_list().iter().map(|n| n.name.as_str()).collect();
    assert_eq!(names, vec!["a", "c"]);
    assert_eq!(graph.export_edges().len(), 1);
    assert_eq!(graph.get(a).map(|n| n.name.as_str()), Some("a"));
    assert_eq!(graph.get(c).map(|n| n.name.as_str()), Some("c"));
    assert!(graph.get(b).is_none());
}
