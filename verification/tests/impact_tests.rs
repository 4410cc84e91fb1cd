use arbor::edge::{Edge, EdgeKind};
use arbor::graph::ArborGraph;
use arbor::impact::{sort_by_key, AffectedNode, ImpactAnalysis, ImpactDirection, ImpactSeverity};
use arbor::node::{CodeNode, NodeId, NodeKind};
use arbor::query::NodeInfo;

fn make_node(name: &str) -> CodeNode {
    CodeNode::new(name, name, NodeKind::Function, "test.rs")
}

fn calls() -> Edge {
    Edge::new(EdgeKind::Calls)
}

#[test]
fn test_severity_from_hops() {
    assert_eq!(ImpactSeverity::from_hops(0), ImpactSeverity::Direct);
    assert_eq!(ImpactSeverity::from_hops(1), ImpactSeverity::Direct);
    assert_eq!(ImpactSeverity::from_hops(2), ImpactSeverity::Transitive);
    assert_eq!(ImpactSeverity::from_hops(3), ImpactSeverity::Transitive);
    assert_eq!(ImpactSeverity::from_hops(4), ImpactSeverity::Distant);
    assert_eq!(ImpactSeverity::from_hops(100), ImpactSeverity::Distant);
}

#[test]
fn test_empty_graph() {
    let graph = ArborGraph::new();
    let result = graph.analyze_impact(NodeId::new(0), 5);
    assert_eq!(result.total_affected, 0);
    assert!(result.upstream.is_empty());
    assert!(result.downstream.is_empty());
}

#[test]
fn test_single_node() {
    let mut graph = ArborGraph::new();
    let id = graph.add_node(make_node("lonely")).unwrap();
    let result = graph.analyze_impact(id, 5);
    assert_eq!(result.total_affected, 0);
    assert_eq!(result.target.name, "lonely");
}

#[test]
fn test_linear_chain() {
    let mut graph = ArborGraph::new();
    let a = graph.add_node(make_node("a")).unwrap();
    let b = graph.add_node(make_node("b")).unwrap();
    let c = graph.add_node(make_node("c")).unwrap();

    graph.add_edge(a, b, calls()).unwrap();
    graph.add_edge(b, c, calls()).unwrap();

    let result = graph.analyze_impact(b, 5);

    assert_eq!(result.upstream.len(), 1);
    assert_eq!(result.upstream[0].node_info.name, "a");
    assert_eq!(result.upstream[0].hop_distance, 1);
    assert_eq!(result.upstream[0].severity, ImpactSeverity::Direct);

    assert_eq!(result.downstream.len(), 1);
    assert_eq!(result.downstream[0].node_info.name, "c");
    assert_eq!(result.downstream[0].hop_distance, 1);
}

#[test]
fn test_diamond_pattern() {
    let mut graph = ArborGraph::new();
    let a = graph.add_node(make_node("a")).unwrap();
    let b = graph.add_node(make_node("b")).unwrap();
    let c = graph.add_node(make_node("c")).unwrap();
    let d = graph.add_node(make_node("d")).unwrap();

    graph.add_edge(a, b, calls()).unwrap();
    graph.add_edge(a, c, calls()).unwrap();
    graph.add_edge(b, d, calls()).unwrap();
    graph.add_edge(c, d, calls()).unwrap();

    let result = graph.analyze_impact(a, 5);

    assert_eq!(result.downstream.len(), 3);

    let names: Vec<&str> = result.downstream.iter().map(|n| n.node_info.name.as_str()).collect();
    assert!(names.contains(&"b"));
    assert!(names.contains(&"c"));
    assert!(names.contains(&"d"));

    let d_node = result.downstream.iter().find(|n| n.node_info.name == "d").unwrap();
    assert_eq!(d_node.hop_distance, 2);
    assert_eq!(d_node.severity, ImpactSeverity::Transitive);
}

#[test]
fn test_cycle_no_infinite_loop() {
    let mut graph = ArborGraph::new();
    let a = graph.add_node(make_node("a")).unwrap();
    let b = graph.add_node(make_node("b")).unwrap();
    let c = graph.add_node(make_node("c")).unwrap();

    graph.add_edge(a, b, calls()).unwrap();
    graph.add_edge(b, c, calls()).unwrap();
    graph.add_edge(c, a, calls()).unwrap();

    let result = graph.analyze_impact(a, 10);

    assert_eq!(result.downstream.len(), 2);

    assert_eq!(result.upstream.len(), 2);
    let upstream_names: Vec<&str> = result.upstream.iter().map(|n| n.node_info.name.as_str()).collect();
    assert!(upstream_names.contains(&"c"));
    assert!(upstream_names.contains(&"b"));
}

#[test]
fn test_max_depth_limit() {
    let mut graph = ArborGraph::new();
    let a = graph.add_node(make_node("a")).unwrap();
    let b = graph.add_node(make_node("b")).unwrap();
    let c = graph.add_node(make_node("c")).unwrap();
    let d = graph.add_node(make_node("d")).unwrap();
    let e = graph.add_node(make_node("e")).unwrap();

    graph.add_edge(a, b, calls()).unwrap();
    graph.add_edge(b, c, calls()).unwrap();
    graph.add_edge(c, d, calls()).unwrap();
    graph.add_edge(d, e, calls()).unwrap();

    let result = graph.analyze_impact(a, 2);

    assert_eq!(result.downstream.len(), 2);

    let names: Vec<&str> = result.downstream.iter().map(|n| n.node_info.name.as_str()).collect();
    assert!(names.contains(&"b"));
    assert!(names.contains(&"c"));
    assert!(!names.contains(&"d"));
    assert!(!names.contains(&"e"));
}

#[test]
fn test_stable_ordering() {
    let mut graph = ArborGraph::new();
    let target = graph.add_node(make_node("target")).unwrap();
    let z = graph.add_node(make_node("z_caller")).unwrap();
    let a = graph.add_node(make_node("a_caller")).unwrap();
    let m = graph.add_node(make_node("m_caller")).unwrap();

    graph.add_edge(z, target, calls()).unwrap();
    graph.add_edge(a, target, calls()).unwrap();
    graph.add_edge(m, target, calls()).unwrap();

    let result = graph.analyze_impact(target, 5);

    let names: Vec<&str> = result.upstream.iter().map(|n| n.node_info.name.as_str()).collect();
    assert_eq!(names.len(), 3);
    assert!(names.contains(&"a_caller"));
    assert!(names.contains(&"m_caller"));
    assert!(names.contains(&"z_caller"));
}

#[test]
fn upstream_results_are_sorted_by_id() {
    let mut graph = ArborGraph::new();
    let target = graph.add_node(make_node("target")).unwrap();
    let z = graph.add_node(make_node("z_caller")).unwrap();
    let a = graph.add_node(make_node("a_caller")).unwrap();
    let m = graph.add_node(make_node("m_caller")).unwrap();
    graph.add_edge(z, target, calls()).unwrap();
    graph.add_edge(a, target, calls()).unwrap();
    graph.add_edge(m, target, calls()).unwrap();

    let result = graph.analyze_impact(target, 5);
    let names: Vec<&str> = result.upstream.iter().map(|n| n.node_info.name.as_str()).collect();
    assert_eq!(names, vec!["a_caller", "m_caller", "z_caller"]);
    for n in &result.upstream {
        assert_eq!(n.direction, ImpactDirection::Upstream);
        assert_eq!(n.entry_edge, EdgeKind::Calls);
    }
}

#[test]
fn diamond_impact_is_ordered_by_severity_hops_and_id() {
    let mut graph = ArborGraph::new();
    let a = graph.add_node(make_node("A")).unwrap();
    let b = graph.add_node(make_node("B")).unwrap();
    let c = graph.add_node(make_node("C")).unwrap();
    let d = graph.add_node(make_node("D")).unwrap();
    graph.add_edge(a, b, calls()).unwrap();
    graph.add_edge(a, c, calls()).unwrap();
    graph.add_edge(b, d, calls()).unwrap();
    graph.add_edge(c, d, calls()).unwrap();

    let result = graph.analyze_impact(a, 5);
    assert!(result.upstream.is_empty());
    let got: Vec<(ImpactSeverity, usize, &str)> = result
        .downstream
        .iter()
        .map(|n| (n.severity, n.hop_distance, n.node_info.name.as_str()))
        .collect();
    assert_eq!(
        got,
        vec![
            (ImpactSeverity::Direct, 1, "B"),
            (ImpactSeverity::Direct, 1, "C"),
            (ImpactSeverity::Transitive, 2, "D"),
        ]
    );
    assert_eq!(result.total_affected, 3);
    assert_eq!(result.max_depth, 5);
}

#[test]
fn every_affected_node_is_at_least_one_hop_away_with_derived_severity() {
    let mut graph = ArborGraph::new();
    let mut ids = Vec::new();
    for name in ["n0", "n1", "n2", "n3", "n4", "n5"] {
        ids.push(graph.add_node(make_node(name)).unwrap());
    }
    for i in 0..5 {
        graph.add_edge(ids[i], ids[i + 1], calls()).unwrap();
    }
    graph.add_edge(ids[5], ids[0], calls()).unwrap();
    let result = graph.analyze_impact(ids[0], 0);
    assert_eq!(result.downstream.len(), 5);
    assert_eq!(result.upstream.len(), 5);
    for n in result.upstream.iter().chain(result.downstream.iter()) {
        assert!(n.hop_distance >= 1);
        assert_eq!(n.severity, ImpactSeverity::from_hops(n.hop_distance));
    }
    let hops: Vec<usize> = result.downstream.iter().map(|n| n.hop_distance).collect();
    assert_eq!(hops, vec![1, 2, 3, 4, 5]);
    let last = result.downstream.last().unwrap();
    assert_eq!(last.severity, ImpactSeverity::Distant);
}

#[test]
fn entry_edge_is_the_kind_of_the_discovering_edge() {
    let mut graph = ArborGraph::new();
    let a = graph.add_node(make_node("a")).unwrap();
    let b = graph.add_node(make_node("b")).unwrap();
    let c = graph.add_node(make_node("c")).unwrap();
    graph.add_edge(a, b, Edge::new(EdgeKind::Imports)).unwrap();
    graph.add_edge(b, c, Edge::new(EdgeKind::Extends)).unwrap();
    let result = graph.analyze_impact(a, 5);
    assert_eq!(result.downstream.len(), 2);
    assert_eq!(result.downstream[0].entry_edge, EdgeKind::Imports);
    assert_eq!(result.downstream[1].entry_edge, EdgeKind::Extends);
}

#[test]
fn summary_counts_each_severity() {
    let mut graph = ArborGraph::new();
    let a = graph.add_node(make_node("a")).unwrap();
    let b = graph.add_node(make_node("b")).unwrap();
    let c = graph.add_node(make_node("c")).unwrap();
    graph.add_edge(a, b, calls()).unwrap();
    graph.add_edge(b, c, calls()).unwrap();
    let result = graph.analyze_impact(a, 5);
    assert_eq!(
        result.summary(),
        "Blast Radius: 2 nodes (direct: 1, transitive: 1, distant: 0)"
    );
    let all = result.all_affected();
    assert_eq!(all.len(), 2);
    assert_eq!(all[0].node_info.name, "b");
    let direct = result.direct_only();
    assert_eq!(direct.len(), 1);
    assert_eq!(direct[0].node_info.name, "b");
    assert_eq!(ImpactSeverity::Direct.as_str(), "direct");
    assert_eq!(ImpactSeverity::Transitive.as_str(), "transitive");
    assert_eq!(ImpactSeverity::Distant.as_str(), "distant");
}

#[test]
fn dependents_use_the_raw_depth() {
    let mut graph = ArborGraph::new();
    let a = graph.add_node(make_node("a")).unwrap();
    let b = graph.add_node(make_node("b")).unwrap();
    let c = graph.add_node(make_node("c")).unwrap();
    graph.add_edge(a, b, calls()).unwrap();
    graph.add_edge(b, c, calls()).unwrap();
    assert!(graph.get_dependents(c, 0).is_empty());
    assert_eq!(graph.get_dependents(c, 1), vec![(b, 1)]);
    assert_eq!(graph.get_dependents(c, 2), vec![(b, 1), (a, 2)]);
}

fn record(id: &str, hops: usize, direction: ImpactDirection) -> AffectedNode {
    let mut info = NodeInfo::blank();
    info.id = id.to_string();
    info.name = id.to_string();
    AffectedNode {
        node_id: NodeId::new(hops),
        node_info: info,
        severity: ImpactSeverity::from_hops(hops),
        hop_distance: hops,
        entry_edge: EdgeKind::Calls,
        direction,
    }
}

#[test]
fn all_affected_rearranges_the_two_lists_and_keeps_equal_records() {
    let analysis = ImpactAnalysis {
        target: NodeInfo::blank(),
        upstream: vec![
            record("m", 2, ImpactDirection::Upstream),
            record("a", 1, ImpactDirection::Upstream),
            record("a", 1, ImpactDirection::Upstream),
        ],
        downstream: vec![
            record("z", 5, ImpactDirection::Downstream),
            record("a", 1, ImpactDirection::Upstream),
            record("b", 1, ImpactDirection::Downstream),
            record("m", 2, ImpactDirection::Upstream),
        ],
        total_affected: 7,
        max_depth: 5,
        query_time_ms: 0,
    };
    let keys = |list: Vec<&AffectedNode>| -> Vec<(String, usize)> {
        list.iter().map(|n| (n.node_info.id.clone(), n.hop_distance)).collect()
    };
    let id = |s: &str, h: usize| (s.to_string(), h);
    assert_eq!(
        keys(analysis.all_affected()),
        vec![id("a", 1), id("a", 1), id("a", 1), id("b", 1), id("m", 2), id("m", 2), id("z", 5)]
    );
    assert_eq!(keys(analysis.direct_only()), vec![id("a", 1), id("a", 1), id("a", 1), id("b", 1)]);
    assert_eq!(
        keys(sort_by_key(analysis.all_refs())),
        vec![id("a", 1), id("a", 1), id("a", 1), id("b", 1), id("m", 2), id("m", 2), id("z", 5)]
    );
    assert_eq!(analysis.upstream.len(), 3);
    assert_eq!(analysis.downstream.len(), 4);
}
