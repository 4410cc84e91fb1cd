use arbor::builder::GraphBuilder;
use arbor::edge::EdgeKind;
use arbor::extract::{RelationType, SymbolRelation};
use arbor::graph::ArborGraph;
use arbor::indexer::{known_symbols, link_relations, links_of_relations};
use arbor::languages::{extract, extract_named, parses};
use arbor::node::{CodeNode, NodeKind};
use arbor::parser::{ArborParser, ParseError, ParseFailure};

#[test]
fn the_extensions_of_every_language_are_parsed() {
    for ext in ["ts", "tsx", "js", "jsx", "rs", "py", "go", "java", "c", "h", "cpp", "hpp", "cc", "hh", "cxx", "cs", "dart"] {
        assert!(parses(ext), "{}", ext);
    }
    for ext in ["", "md", "txt", "Dart", "rb", "ts "] {
        assert!(!parses(ext), "{}", ext);
    }
}

#[test]
fn a_dart_file_yields_the_symbols_of_its_tree_and_no_relations() {
    let mut parser = ArborParser::new().unwrap();
    let source = "class Greeter {\n  void hello() {\n    print('Hello');\n  }\n}\n";
    let result = extract(&mut parser, source, "lib/greeter.dart", "dart").unwrap();
    assert_eq!(result.file_path, "lib/greeter.dart");
    assert!(result.relations.is_empty());
    assert!(result.symbols.iter().any(|n| n.name == "Greeter" && n.kind == NodeKind::Class));
    assert!(result.symbols.iter().all(|n| n.file == "lib/greeter.dart"));
    assert_eq!(parser.parsed, 0);
}

#[test]
fn any_other_file_yields_what_its_queries_find() {
    let mut parser = ArborParser::new().unwrap();
    let source = "fn helper() {}\n\nfn main() {\n    helper();\n}\n";
    let result = extract(&mut parser, source, "src/main.rs", "rs").unwrap();
    let again = parser.parse_source(source, "src/main.rs", "rs").unwrap();
    assert_eq!(parser.parsed, 2);
    let names: Vec<&str> = result.symbols.iter().map(|s| s.name.as_str()).collect();
    assert_eq!(names, vec!["helper", "main"]);
    assert_eq!(names, again.symbols.iter().map(|s| s.name.as_str()).collect::<Vec<_>>());
    assert_eq!(result.relations, again.relations);
    assert!(result.relations.iter().any(|r| r.kind == RelationType::Calls && r.to_name == "helper"));
}

#[test]
fn an_empty_source_and_an_unknown_extension_are_errors() {
    let mut parser = ArborParser::new().unwrap();
    for ext in ["rs", "dart", "md"] {
        match extract(&mut parser, "", "a/empty.x", ext) {
            Err(ParseError::EmptyFile(path)) => assert_eq!(path, "a/empty.x"),
            other => panic!("{:?}", other),
        }
    }
    let error = extract(&mut parser, "hello", "notes.md", "md").unwrap_err();
    assert_eq!(error.failure(), ParseFailure::UnsupportedLanguage);
    assert_eq!(error.message(), "Unsupported language: notes.md");
}

fn two_files() -> (ArborGraph, Vec<CodeNode>, Vec<CodeNode>) {
    let first = vec![
        CodeNode::new("main", "main", NodeKind::Function, "main.rs"),
        CodeNode::new("helper", "main.helper", NodeKind::Function, "main.rs"),
        CodeNode::new("absent", "absent", NodeKind::Function, "main.rs"),
    ];
    let second = vec![
        CodeNode::new("helper", "utils.helper", NodeKind::Function, "utils.rs"),
        CodeNode::new("format", "utils.format", NodeKind::Function, "utils.rs"),
    ];
    let mut builder = GraphBuilder::new();
    builder.add_nodes(first[..2].to_vec());
    builder.add_nodes(second.clone());
    (builder.build(), first, second)
}

fn relation(from_id: &str, to_name: &str, kind: RelationType) -> SymbolRelation {
    SymbolRelation { from_id: from_id.to_string(), to_name: to_name.to_string(), kind, line: 1 }
}

#[test]
fn known_symbols_are_those_the_graph_holds() {
    let (graph, first, _) = two_files();
    let known = known_symbols(&graph, &first);
    assert_eq!(known.len(), 2);
    assert_eq!((known[0].name.as_str(), known[0].id.as_str()), ("main", "main.rs:main"));
    assert_eq!((known[1].name.as_str(), known[1].id.as_str()), ("helper", "main.rs:main.helper"));
    assert_eq!(Some(known[0].handle), graph.get_index("main.rs:main").map(|h| h.index()));
    assert_eq!(Some(known[1].handle), graph.get_index("main.rs:main.helper").map(|h| h.index()));
}

#[test]
fn relations_resolve_by_symbol_table_then_among_the_symbols_of_the_file() {
    let (mut graph, first, _) = two_files();
    let main = graph.get_index("main.rs:main").unwrap();
    let own_helper = graph.get_index("main.rs:main.helper").unwrap();
    let format = graph.get_index("utils.rs:utils.format").unwrap();
    let relations = vec![
        relation("main.rs:main", "utils.format", RelationType::Imports),
        relation("main.rs:main", "helper", RelationType::Calls),
        relation("main.rs:main", "format", RelationType::Calls),
        relation("main.rs:main", "main", RelationType::Calls),
        relation("main.rs:absent", "helper", RelationType::Calls),
        relation("utils.rs:utils.helper", "utils.format", RelationType::Calls),
        relation("main.rs:main.helper", "self.main", RelationType::Extends),
    ];

    let known = known_symbols(&graph, &first);
    let links = links_of_relations(&graph, &known, &relations);
    assert_eq!(
        links,
        vec![(main, format, EdgeKind::Imports), (main, own_helper, EdgeKind::Calls), (own_helper, main, EdgeKind::Extends)]
    );

    let before = graph.edge_count();
    assert_eq!(link_relations(&mut graph, &first, &relations), 3);
    assert_eq!(graph.edge_count(), before + 3);
    assert_eq!(graph.node_count(), 4);
    let callees: Vec<&str> = graph.get_callees(main).iter().map(|n| n.id.as_str()).collect();
    assert_eq!(callees, vec!["main.rs:main.helper"]);
    let mut edges: Vec<(String, String, &str)> =
        graph.export_edges().into_iter().map(|e| (e.source, e.target, e.kind.as_str())).collect();
    edges.sort();
    assert_eq!(
        edges,
        vec![
            ("main.rs:main".to_string(), "main.rs:main.helper".to_string(), "calls"),
            ("main.rs:main".to_string(), "utils.rs:utils.format".to_string(), "imports"),
            ("main.rs:main.helper".to_string(), "main.rs:main".to_string(), "extends"),
        ]
    );
}

#[test]
fn extraction_under_a_given_name_qualifies_by_it_and_counts_query_parses_only() {
    let mut parser = ArborParser::new().unwrap();
    let rust = extract_named(&mut parser, "fn f() {}\n", "src/lib.rs", "given", "rs").unwrap();
    assert_eq!(rust.symbols[0].qualified_name, "given:f");
    assert_eq!(parser.parsed, 1);
    let dart = extract_named(&mut parser, "class Greeter {}\n", "lib/greeter.dart", "given", "dart").unwrap();
    let again = extract(&mut parser, "class Greeter {}\n", "lib/greeter.dart", "dart").unwrap();
    assert_eq!(parser.parsed, 1);
    assert!(dart.relations.is_empty());
    let names = |r: &arbor::extract::ParseResult| {
        r.symbols.iter().map(|s| (s.id.clone(), s.qualified_name.clone())).collect::<Vec<_>>()
    };
    assert_eq!(names(&dart), names(&again));
    match extract_named(&mut parser, "", "lib/greeter.dart", "given", "dart") {
        Err(ParseError::EmptyFile(path)) => assert_eq!(path, "lib/greeter.dart"),
        other => panic!("{:?}", other),
    }
    assert_eq!(parser.parsed, 2);
}
