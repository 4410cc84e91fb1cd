use arbor::graph::ArborGraph;
use arbor::node::{CodeNode, NodeId, NodeKind};
use arbor::search_index::SearchIndex;

fn node_id(n: u32) -> NodeId {
    NodeId::new(n as usize)
}

#[test]
fn test_insert_and_search_exact() {
    let mut index = SearchIndex::new();
    index.insert("validate_user", node_id(0));
    index.insert("validate_email", node_id(1));
    index.insert("send_email", node_id(2));

    let results = index.search("validate_user");
    assert_eq!(results, vec![node_id(0)]);
}

#[test]
fn test_search_substring() {
    let mut index = SearchIndex::new();
    index.insert("validate_user", node_id(0));
    index.insert("validate_email", node_id(1));
    index.insert("send_email", node_id(2));

    let results = index.search("validate");
    assert!(results.contains(&node_id(0)));
    assert!(results.contains(&node_id(1)));
    assert!(!results.contains(&node_id(2)));
}

#[test]
fn test_search_case_insensitive() {
    let mut index = SearchIndex::new();
    index.insert("ValidateUser", node_id(0));

    let results = index.search("validateuser");
    assert_eq!(results, vec![node_id(0)]);

    let results = index.search("VALIDATEUSER");
    assert_eq!(results, vec![node_id(0)]);
}

#[test]
fn test_search_middle_substring() {
    let mut index = SearchIndex::new();
    index.insert("get_user_profile", node_id(0));

    let results = index.search("user");
    assert_eq!(results, vec![node_id(0)]);

    let results = index.search("_user_");
    assert_eq!(results, vec![node_id(0)]);
}

#[test]
fn test_remove_from_index() {
    let mut index = SearchIndex::new();
    index.insert("foo", node_id(0));
    index.insert("foobar", node_id(1));

    index.remove("foo", node_id(0));

    let results = index.search("foo");
    assert!(!results.contains(&node_id(0)));
    assert!(results.contains(&node_id(1)));
}

#[test]
fn test_search_no_match() {
    let mut index = SearchIndex::new();
    index.insert("hello", node_id(0));

    let results = index.search("world");
    assert!(results.is_empty());
}

#[test]
fn test_short_query() {
    let mut index = SearchIndex::new();
    index.insert("ab", node_id(0));
    index.insert("abc", node_id(1));
    index.insert("xyz", node_id(2));

    let results = index.search("a");
    assert!(results.contains(&node_id(0)));
    assert!(results.contains(&node_id(1)));
    assert!(!results.contains(&node_id(2)));
}

#[test]
fn substring_search_scenario() {
    let mut index = SearchIndex::new();
    index.insert("validate_user", node_id(0));
    index.insert("validate_email", node_id(1));
    index.insert("send_email", node_id(2));

    assert_eq!(index.search("validate"), vec![node_id(0), node_id(1)]);
    assert_eq!(index.search("_USER"), vec![node_id(0)]);
    assert!(index.search("_USER_").is_empty());
    assert!(index.search("a").is_empty());
    assert_eq!(index.search("va"), vec![node_id(0), node_id(1)]);
    assert_eq!(index.search("email"), vec![node_id(1), node_id(2)]);
    assert_eq!(index.search(""), vec![node_id(0), node_id(1), node_id(2)]);
    assert_eq!(index.search("s"), vec![node_id(2)]);
}

#[test]
fn index_counts_distinct_names() {
    let mut index = SearchIndex::new();
    assert!(index.is_empty());
    assert_eq!(index.len(), 0);
    index.insert("Foo", node_id(0));
    index.insert("foo", node_id(1));
    index.insert("bar", node_id(2));
    assert_eq!(index.len(), 2);
    assert!(!index.is_empty());
    index.remove("FOO", node_id(0));
    assert_eq!(index.len(), 2);
    index.remove("foo", node_id(1));
    assert_eq!(index.len(), 1);
    assert_eq!(index.search("fo"), Vec::<NodeId>::new());
}

#[test]
fn a_handle_has_one_name() {
    let mut index = SearchIndex::new();
    index.insert("alpha", node_id(7));
    index.insert("beta", node_id(7));
    assert!(index.search("alpha").is_empty());
    assert_eq!(index.search("beta"), vec![node_id(7)]);
    index.remove("alpha", node_id(7));
    assert_eq!(index.search("beta"), vec![node_id(7)]);
    assert_eq!(index.name_of(node_id(7)).map(|s| s.as_str()), Some("beta"));
}

#[test]
fn results_contain_the_query_ignoring_case() {
    let mut graph = ArborGraph::new();
    for name in ["parseFile", "ParseSource", "render", "re_parse", "sparse"] {
        graph.add_node(CodeNode::new(name, name, NodeKind::Function, "a.rs")).unwrap();
    }
    for query in ["PARSE", "parse", "r", "", "zz", "se"] {
        let found = graph.search(query);
        for id in &found {
            let name = graph.get(*id).unwrap().name.to_lowercase();
            assert!(name.contains(&query.to_lowercase()));
        }
        let mut sorted = found.clone();
        sorted.sort();
        sorted.dedup();
        assert_eq!(sorted, found);
    }
    assert_eq!(graph.search("parse").len(), 4);
    assert_eq!(graph.search("r").len(), 2);
}
