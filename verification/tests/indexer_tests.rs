use arbor::debounce::{extension_listed, promote, should_process_file, Debouncer, WatcherEvent};
use arbor::edge::EdgeKind;
use arbor::extract::{ParseResult, RelationType, SymbolRelation};
use arbor::fanout::{
    BroadcastMessage, ClientFrame, GraphUpdatePayload, Received, ServerMessage, Step, Subscriber,
};
use arbor::graph::ArborGraph;
use arbor::indexer::{reindex, FileChange};
use arbor::node::{CodeNode, NodeKind};

#[test]
fn test_should_process_file() {
    let extensions = vec!["ts".to_string(), "rs".to_string()];

    assert!(should_process_file("foo.ts", &extensions));
    assert!(should_process_file("bar.rs", &extensions));
    assert!(!should_process_file("baz.py", &extensions));
    assert!(!should_process_file("README.md", &extensions));
}

#[test]
fn test_broadcast_message_serialization() {
    let msg = BroadcastMessage::GraphUpdate(GraphUpdatePayload {
        is_delta: true,
        node_count: 42,
        edge_count: 100,
        file_count: 5,
        changed_files: vec!["foo.ts".to_string()],
        timestamp: 1234567890,
        nodes: None,
        edges: None,
    });

    let mut payload = serde_json::Map::new();
    if let BroadcastMessage::GraphUpdate(p) = &msg {
        payload.insert("isDelta".to_string(), serde_json::Value::from(p.is_delta));
        payload.insert("nodeCount".to_string(), serde_json::Value::from(p.node_count));
        payload.insert("edgeCount".to_string(), serde_json::Value::from(p.edge_count));
        payload.insert("fileCount".to_string(), serde_json::Value::from(p.file_count));
        payload.insert("changedFiles".to_string(), serde_json::Value::from(p.changed_files.clone()));
        payload.insert("timestamp".to_string(), serde_json::Value::from(p.timestamp));
    }
    let mut whole = serde_json::Map::new();
    whole.insert("type".to_string(), serde_json::Value::from(msg.kind_name()));
    whole.insert("payload".to_string(), serde_json::Value::Object(payload));
    let json = serde_json::to_string(&serde_json::Value::Object(whole)).unwrap();
    assert!(json.contains("GraphUpdate"));
    assert!(json.contains("42"));
}

#[test]
fn a_file_is_read_when_the_extension_of_its_final_component_is_listed() {
    let extensions = vec!["py".to_string()];
    assert!(should_process_file("/abs/path/x.py", &extensions));
    assert!(should_process_file("src/a.b/main.test.py", &extensions));
    assert!(should_process_file("dir/.hidden.py", &extensions));
    assert!(should_process_file("foo.py/", &extensions));
    assert!(should_process_file("dir/foo.py/.", &extensions));
    assert!(should_process_file("dir//foo.py//", &extensions));
    assert!(!should_process_file("foo.py/..", &extensions));
    assert!(!should_process_file("/abs/path.py/x", &extensions));
    assert!(!should_process_file("src/a.py/Makefile", &extensions));
    assert!(!should_process_file(".py", &extensions));
    assert!(!should_process_file("x.PY", &extensions));
    assert!(!should_process_file("x.pyc", &extensions));
    assert!(!should_process_file("xpy", &extensions));
    assert!(!should_process_file("", &extensions));
    assert!(!should_process_file("x.py", &Vec::new()));
    assert!(should_process_file("trailing.", &vec!["".to_string()]));
    assert!(!should_process_file("trailing", &vec!["".to_string()]));
}

#[test]
fn an_extension_is_listed_letter_for_letter() {
    let extensions = vec!["ts".to_string(), "rs".to_string()];
    assert!(extension_listed(Some("ts"), &extensions));
    assert!(extension_listed(Some("rs"), &extensions));
    assert!(!extension_listed(Some("RS"), &extensions));
    assert!(!extension_listed(Some("r"), &extensions));
    assert!(!extension_listed(Some(""), &extensions));
    assert!(!extension_listed(None, &extensions));
    assert!(!extension_listed(Some("rs"), &Vec::new()));
}

#[test]
fn debouncer_promotes_only_settled_paths() {
    let mut d = Debouncer::new(150);
    assert!(d.is_idle());
    d.record("a.rs", 1000);
    d.record("b.rs", 1100);
    d.record("a.rs", 1120);
    assert!(!d.is_idle());
    assert!(d.drain_ready(1249).is_empty());
    assert_eq!(d.drain_ready(1250), vec!["b.rs".to_string()]);
    assert!(d.drain_ready(1269).is_empty());
    assert_eq!(d.drain_ready(1270), vec!["a.rs".to_string()]);
    assert!(d.is_idle());
    assert!(d.drain_ready(9999).is_empty());
    d.record("c.rs", 50);
    assert!(d.drain_ready(10).is_empty());
    let mut eager = Debouncer::new(0);
    eager.record("c.rs", 50);
    assert_eq!(eager.drain_ready(10), vec!["c.rs".to_string()]);
}

#[test]
fn a_settled_path_is_a_change_or_a_deletion() {
    assert!(matches!(promote("a.rs".to_string(), true), WatcherEvent::Changed(p) if p == "a.rs"));
    assert!(matches!(promote("a.rs".to_string(), false), WatcherEvent::Deleted(p) if p == "a.rs"));
}

fn parsed(path: &str, names: &[&str], relations: Vec<SymbolRelation>) -> FileChange {
    FileChange::Parsed(ParseResult {
        symbols: names.iter().map(|n| CodeNode::new(n, n, NodeKind::Function, path)).collect(),
        relations,
        file_path: path.to_string(),
    })
}

#[test]
fn incremental_update_replaces_the_symbols_of_a_file() {
    let mut graph = ArborGraph::new();
    let first = reindex(&mut graph, parsed("src/lib.rs", &["foo"], Vec::new()), 10);
    assert!(matches!(&first, BroadcastMessage::GraphUpdate(p) if p.is_delta && p.node_count == 1));
    assert_eq!(graph.find_by_name("foo").len(), 1);

    let second = reindex(&mut graph, parsed("src/lib.rs", &["bar"], Vec::new()), 11);
    assert!(graph.find_by_name("foo").is_empty());
    assert_eq!(graph.find_by_name("bar").len(), 1);
    match second {
        BroadcastMessage::GraphUpdate(p) => {
            assert!(p.is_delta);
            assert_eq!(p.changed_files, vec!["src/lib.rs".to_string()]);
            assert_eq!(p.timestamp, 11);
            assert_eq!(p.node_count, 1);
            assert_eq!(p.edge_count, 0);
            assert_eq!(p.file_count, 1);
            assert_eq!(p.nodes.unwrap().len(), 1);
            assert_eq!(p.edges.unwrap().len(), 0);
        }
        _ => panic!("a re-index broadcasts a graph update"),
    }
}

#[test]
fn reindex_links_by_symbol_table_then_by_new_names() {
    let mut graph = ArborGraph::new();
    let helper = CodeNode::new("helper", "pkg.Utils.helper", NodeKind::Method, "utils.rs");
    let other = CodeNode::new("local", "other.local", NodeKind::Function, "other.rs");
    graph.add_node(helper).unwrap();
    graph.add_node(other).unwrap();

    let main = CodeNode::new("main", "main", NodeKind::Function, "main.rs").with_references(vec![
        "pkg.Utils.helper".to_string(),
        "self.run".to_string(),
        "local".to_string(),
        "main".to_string(),
    ]);
    let run = CodeNode::new("run", "run", NodeKind::Function, "main.rs");
    let relations = vec![
        SymbolRelation {
            from_id: "main.rs:run".to_string(),
            to_name: "Base::main".to_string(),
            kind: RelationType::Extends,
            line: 3,
        },
        SymbolRelation {
            from_id: "main.rs:__file__".to_string(),
            to_name: "run".to_string(),
            kind: RelationType::Imports,
            line: 1,
        },
    ];
    let change = FileChange::Parsed(ParseResult {
        symbols: vec![main, run],
        relations,
        file_path: "main.rs".to_string(),
    });
    reindex(&mut graph, change, 0);

    let exported = graph.export_edges();
    let got: Vec<(&str, &str, EdgeKind)> =
        exported.iter().map(|e| (e.source.as_str(), e.target.as_str(), e.kind)).collect();
    assert_eq!(
        got,
        vec![
            ("main.rs:main", "utils.rs:pkg.Utils.helper", EdgeKind::Calls),
            ("main.rs:main", "main.rs:run", EdgeKind::Calls),
            ("main.rs:run", "main.rs:main", EdgeKind::Extends),
        ]
    );
}

#[test]
fn a_file_that_fails_to_parse_or_is_deleted_has_no_symbols() {
    let mut graph = ArborGraph::new();
    reindex(&mut graph, parsed("a.rs", &["foo", "bar"], Vec::new()), 1);
    reindex(&mut graph, parsed("b.rs", &["baz"], Vec::new()), 2);
    let msg = reindex(&mut graph, FileChange::Failed("a.rs".to_string()), 3);
    assert_eq!(graph.node_count(), 1);
    assert!(graph.find_by_file("a.rs").is_empty());
    assert!(matches!(&msg, BroadcastMessage::GraphUpdate(p) if p.is_delta && p.changed_files == vec!["a.rs".to_string()]));
    let msg = reindex(&mut graph, FileChange::Deleted("b.rs".to_string()), 4);
    assert_eq!(graph.node_count(), 0);
    assert!(matches!(&msg, BroadcastMessage::GraphUpdate(p) if p.is_delta && p.node_count == 0));
}

#[test]
fn a_subscriber_sees_the_snapshot_first_and_then_only_deltas() {
    let mut graph = ArborGraph::new();
    reindex(&mut graph, parsed("a.rs", &["foo"], Vec::new()), 1);
    let (mut sub, first) = Subscriber::open(&graph, 5);
    match &first {
        BroadcastMessage::GraphUpdate(p) => {
            assert!(!p.is_delta);
            assert_eq!(p.node_count, 1);
            assert_eq!(p.timestamp, 5);
            assert!(p.changed_files.is_empty());
            assert_eq!(p.nodes.as_ref().unwrap()[0].name, "foo");
        }
        _ => panic!("the first message is a graph update"),
    }
    assert_eq!(first.message_kind(), ServerMessage::GraphUpdate);
    assert_eq!(first.kind_name(), "GraphUpdate");

    let delta = reindex(&mut graph, parsed("a.rs", &["bar"], Vec::new()), 6);
    assert!(matches!(sub.on_channel(Received::Message(delta)), Step::Send(BroadcastMessage::GraphUpdate(p)) if p.is_delta));
    let stray = BroadcastMessage::snapshot(&graph, 7);
    assert!(matches!(sub.on_channel(Received::Message(stray)), Step::Skip));
    let focus = BroadcastMessage::focus("a.rs:bar", "a.rs", 3);
    assert_eq!(focus.kind_name(), "FocusNode");
    assert!(matches!(sub.on_channel(Received::Message(focus)), Step::Send(BroadcastMessage::FocusNode(p)) if p.line == 3));
    let status = BroadcastMessage::status("indexing", 1, 2, Some("a.rs"));
    assert_eq!(status.kind_name(), "IndexerStatus");
    assert!(matches!(sub.on_channel(Received::Message(status)), Step::Send(BroadcastMessage::IndexerStatus(p)) if p.files_total == 2));
    assert!(matches!(sub.on_channel(Received::Lagged(4)), Step::ReportLag(4)));
    assert!(matches!(sub.on_channel(Received::Closed), Step::Stop));
    assert_eq!(sub.sent, 4);

    assert!(matches!(sub.on_client(ClientFrame::Ping(vec![1, 2])), Step::Pong(d) if d == vec![1, 2]));
    assert!(matches!(sub.on_client(ClientFrame::Text("hi".to_string())), Step::Skip));
    assert!(matches!(sub.on_client(ClientFrame::Other), Step::Skip));
    assert!(matches!(sub.on_client(ClientFrame::Close), Step::Stop));
    assert!(matches!(sub.on_client(ClientFrame::Failed), Step::Stop));
    assert!(matches!(sub.on_client(ClientFrame::Ended), Step::Stop));
}
