use arbor::bridge::{
    agent_method, brief_for, impact_answer, not_found_text, protocol_version, render_brief,
    resolve_target, server_name, spotlight_for, tool_catalogue, tool_named, AgentMethod, Tool,
};
use arbor::fanout::BroadcastMessage;
use arbor::edge::{Edge, EdgeKind};
use arbor::graph::ArborGraph;
use arbor::handlers::{
    estimate_tokens, handle_context, handle_discover, handle_impact, handle_info, handle_node_get,
    handle_search, rpc_method, RpcError, RpcMethod,
};
use arbor::node::{CodeNode, NodeId, NodeKind};

fn sample() -> (ArborGraph, Vec<NodeId>) {
    let mut graph = ArborGraph::new();
    let specs = [
        ("validate_user", NodeKind::Function, 1u32, 11u32),
        ("validate_email", NodeKind::Method, 20, 25),
        ("send_email", NodeKind::Function, 30, 130),
        ("Validator", NodeKind::Class, 1, 200),
    ];
    let mut ids = Vec::new();
    for (name, kind, start, end) in specs {
        let node = CodeNode::new(name, name, kind, "mail.rs").with_lines(start, end);
        ids.push(graph.add_node(node).unwrap());
    }
    graph.add_edge(ids[0], ids[1], Edge::new(EdgeKind::Calls)).unwrap();
    graph.add_edge(ids[1], ids[2], Edge::new(EdgeKind::Calls)).unwrap();
    graph.add_edge(ids[3], ids[0], Edge::new(EdgeKind::Contains)).unwrap();
    graph.set_centrality(&vec![(ids[0], 10), (ids[1], 30), (ids[2], 20), (ids[3], 30)]);
    (graph, ids)
}

#[test]
fn methods_are_dispatched_by_name() {
    assert_eq!(rpc_method("graph.info").unwrap(), RpcMethod::Info);
    assert_eq!(rpc_method("discover").unwrap(), RpcMethod::Discover);
    assert_eq!(rpc_method("impact").unwrap(), RpcMethod::Impact);
    assert_eq!(rpc_method("context").unwrap(), RpcMethod::Context);
    assert_eq!(rpc_method("search").unwrap(), RpcMethod::Search);
    assert_eq!(rpc_method("node.get").unwrap(), RpcMethod::NodeGet);
    let err = rpc_method("graph.drop").unwrap_err();
    assert_eq!(err.code, -32601);
    assert_eq!(err.message, "Method not found: graph.drop");
    assert_eq!(RpcError::parse_error().code, -32700);
    assert_eq!(RpcError::invalid_params("missing field `query`").code, -32602);
    assert_eq!(RpcError::invalid_params("x").message, "Invalid params: x");
    assert_eq!(RpcError::node_not_found("a").code, -32001);
}

#[test]
fn info_reports_counts() {
    let (graph, _) = sample();
    let info = handle_info(&graph, "1.2.3");
    assert_eq!(info.node_count, 4);
    assert_eq!(info.edge_count, 3);
    assert_eq!(info.languages, vec!["typescript", "rust", "python"]);
    assert_eq!(info.version, "1.2.3");
}

#[test]
fn discover_ranks_by_centrality_and_truncates() {
    let (graph, _) = sample();
    let names: Vec<String> = handle_discover(&graph, "valid", 10).into_iter().map(|n| n.name).collect();
    assert_eq!(names, vec!["validate_email", "Validator", "validate_user"]);
    let top: Vec<(String, u64)> =
        handle_discover(&graph, "valid", 2).into_iter().map(|n| (n.name, n.centrality)).collect();
    assert_eq!(top, vec![("validate_email".to_string(), 30), ("Validator".to_string(), 30)]);
    assert!(handle_discover(&graph, "valid", 0).is_empty());
    assert!(handle_discover(&graph, "zzz", 5).is_empty());
}

#[test]
fn token_estimates_are_ten_per_line() {
    assert_eq!(estimate_tokens(1, 11), 100);
    assert_eq!(estimate_tokens(5, 5), 0);
    assert_eq!(estimate_tokens(9, 3), 0);
    assert_eq!(estimate_tokens(0, u32::MAX), 42_949_672_950);
}

#[test]
fn context_stops_at_the_first_node_over_budget() {
    let (graph, _) = sample();
    let reply = handle_context(&graph, "valid", 2100);
    let names: Vec<&str> = reply.nodes.iter().map(|n| n.name.as_str()).collect();
    assert_eq!(names, vec!["validate_email", "Validator"]);
    assert_eq!(reply.total_tokens, 50 + 1990);
    let reply = handle_context(&graph, "valid", 2039);
    assert_eq!(reply.nodes.len(), 1);
    assert_eq!(reply.total_tokens, 50);
    let reply = handle_context(&graph, "valid", 49);
    assert!(reply.nodes.is_empty());
    assert_eq!(reply.total_tokens, 0);
    let reply = handle_context(&graph, "valid", u64::MAX);
    assert_eq!(reply.nodes.len(), 3);
    assert_eq!(reply.total_tokens, 50 + 1990 + 100);
}

#[test]
fn search_filters_by_kind_without_ranking() {
    let (graph, _) = sample();
    let reply = handle_search(&graph, "email", None, 10);
    let names: Vec<&str> = reply.nodes.iter().map(|n| n.name.as_str()).collect();
    assert_eq!(names, vec!["validate_email", "send_email"]);
    assert_eq!(reply.total, 2);
    let reply = handle_search(&graph, "email", Some("function"), 10);
    let names: Vec<&str> = reply.nodes.iter().map(|n| n.name.as_str()).collect();
    assert_eq!(names, vec!["send_email"]);
    assert_eq!(reply.total, 1);
    let reply = handle_search(&graph, "valid", None, 1);
    assert_eq!(reply.nodes.len(), 1);
    assert_eq!(reply.nodes[0].name, "validate_user");
    assert_eq!(reply.total, 3);
    let reply = handle_search(&graph, "valid", Some("struct"), 5);
    assert!(reply.nodes.is_empty());
    assert_eq!(reply.total, 0);
}

#[test]
fn impact_reports_dependents_with_depth() {
    let (graph, ids) = sample();
    let reply = handle_impact(&graph, "mail.rs:send_email", 0).unwrap();
    assert_eq!(reply.target.name, "send_email");
    let got: Vec<(&str, usize, &str)> = reply
        .dependents
        .iter()
        .map(|d| (d.node.name.as_str(), d.depth, d.relationship.as_str()))
        .collect();
    assert_eq!(
        got,
        vec![("validate_email", 1, "calls"), ("validate_user", 2, "calls"), ("Validator", 3, "calls")]
    );
    assert_eq!(reply.dependents[0].node_id, ids[1]);
    assert_eq!(reply.total_affected, 3);
    let reply = handle_impact(&graph, "mail.rs:send_email", 1).unwrap();
    assert_eq!(reply.total_affected, 1);
    let err = handle_impact(&graph, "nope", 3).unwrap_err();
    assert_eq!(err.code, -32001);
    assert_eq!(err.message, "Node not found: nope");
}

#[test]
fn node_get_lists_callers_and_callees() {
    let (graph, _) = sample();
    let detail = handle_node_get(&graph, "mail.rs:validate_email").unwrap();
    assert_eq!(detail.node.name, "validate_email");
    assert_eq!(detail.node.kind, "method");
    assert_eq!((detail.node.line_start, detail.node.line_end), (20, 25));
    assert_eq!(detail.called_by, vec!["mail.rs:validate_user"]);
    assert_eq!(detail.calls, vec!["mail.rs:send_email"]);
    let detail = handle_node_get(&graph, "mail.rs:validate_user").unwrap();
    assert!(detail.called_by.is_empty());
    let err = handle_node_get(&graph, "validate_email").unwrap_err();
    assert_eq!(err.code, -32001);
    assert_eq!(err.message, "Node not found: validate_email");
}

#[test]
fn agent_methods_and_tools_are_dispatched_by_name() {
    assert_eq!(agent_method("initialize").unwrap(), AgentMethod::Initialize);
    assert_eq!(agent_method("notifications/initialized").unwrap(), AgentMethod::Initialized);
    assert_eq!(agent_method("tools/list").unwrap(), AgentMethod::ToolsList);
    assert_eq!(agent_method("tools/call").unwrap(), AgentMethod::ToolsCall);
    let err = agent_method("resources/list").unwrap_err();
    assert_eq!((err.code, err.message.as_str()), (-32601, "Method not found: resources/list"));
    assert_eq!(tool_named(Some("get_logic_path")).unwrap(), Tool::GetLogicPath);
    assert_eq!(tool_named(Some("analyze_impact")).unwrap(), Tool::AnalyzeImpact);
    let err = tool_named(Some("rm")).unwrap_err();
    assert_eq!((err.code, err.message.as_str()), (-32601, "Tool not found: rm"));
    let err = tool_named(None).unwrap_err();
    assert_eq!((err.code, err.message.as_str()), (-32602, "Missing 'name' parameter"));
    assert_eq!(tool_catalogue(), vec![Tool::GetLogicPath, Tool::AnalyzeImpact]);
    assert_eq!(Tool::GetLogicPath.name(), "get_logic_path");
    assert_eq!(Tool::GetLogicPath.argument(), "start_node");
    assert_eq!(Tool::AnalyzeImpact.argument(), "node_id");
    assert!(Tool::AnalyzeImpact.description().contains("blast radius"));
    assert!(Tool::GetLogicPath.argument_description().contains("trace"));
    assert_eq!(protocol_version(), "0.1.0");
    assert_eq!(server_name(), "arbor-mcp");
}

#[test]
fn targets_resolve_by_id_then_by_name() {
    let (graph, ids) = sample();
    assert_eq!(resolve_target(&graph, "mail.rs:send_email"), Some(ids[2]));
    assert_eq!(resolve_target(&graph, "send_email"), Some(ids[2]));
    assert_eq!(resolve_target(&graph, "missing"), None);
    match spotlight_for(&graph, "Validator") {
        Some(BroadcastMessage::FocusNode(p)) => {
            assert_eq!(p.node_id, "mail.rs:Validator");
            assert_eq!(p.file, "mail.rs");
            assert_eq!(p.line, 1);
        }
        _ => panic!("a known symbol is put in the spotlight"),
    }
    assert!(spotlight_for(&graph, "missing").is_none());
}

#[test]
fn a_brief_renders_as_markdown() {
    let (mut graph, ids) = sample();
    graph.remove_file("other.rs");
    let mut brief = brief_for(&graph, "validate_email").unwrap();
    assert_eq!(brief.centrality, 30);
    assert_eq!(brief.callees.len(), 1);
    assert_eq!(brief.callees[0].impact, 20);
    assert_eq!(brief.callers[0].impact, 10);
    brief.centrality_text = "0.30".to_string();
    brief.callees[0].impact_text = "0.20".to_string();
    brief.callers[0].impact_text = "0.10".to_string();
    let expected = "# Architectural Brief: `validate_email`\n\n\
| Property | Value |\n\
|----------|-------|\n\
| **Type** | method |\n\
| **File** | `mail.rs` |\n\
| **Impact Level** | 0.30 |\n\
\n## Dependencies (Callees)\n\n\
| Symbol | Type | Impact | File |\n\
|--------|------|--------|------|\n\
| `send_email` | function | 0.20 | `mail.rs` |\n\
\n## Usage (Callers)\n\n\
| Symbol | Type | Impact | File |\n\
|--------|------|--------|------|\n\
| `validate_user` | function | 0.10 | `mail.rs` |\n";
    assert_eq!(render_brief(&brief), expected);

    let signed = CodeNode::new("lonely", "lonely", NodeKind::Function, "l.rs")
        .with_signature("fn lonely()".to_string());
    graph.add_node(signed).unwrap();
    let mut brief = brief_for(&graph, "l.rs:lonely").unwrap();
    brief.centrality_text = "0.00".to_string();
    let expected = "# Architectural Brief: `lonely`\n\n\
| Property | Value |\n\
|----------|-------|\n\
| **Type** | function |\n\
| **File** | `l.rs` |\n\
| **Impact Level** | 0.00 |\n\
| **Signature** | `fn lonely()` |\n\
\n## Dependencies (Callees)\n\n\
*None - This is a leaf node.*\n\
\n## Usage (Callers)\n\n\
*None - Potential entry point or dead code.*\n";
    assert_eq!(render_brief(&brief), expected);
    assert!(brief_for(&graph, "missing").is_none());
    assert_eq!(
        not_found_text("missing"),
        "Node 'missing' not found in the graph. Check the name or ID."
    );
    assert_eq!(impact_answer("x", "body"), "Impact analysis for x:\n\nbody");
    assert_eq!(ids.len(), 4);
}
