//! The query protocol: what each method answers from the graph.
//!
//! The functions here take the parameters of a request as plain values and
//! return the result as plain values. Reading requests from a socket and
//! writing answers to it is left to the caller.

use vstd::prelude::*;
use vstd::string::*;
use crate::edge::EdgeKind;
use crate::graph::{ArborGraph, linked, linked_node, lists};
use crate::impact::effective_depth;
use crate::node::{CodeNode, NodeId};
use crate::order::{Scored, distinct_handles, ranked, ranks_before, sort_by_score};
use crate::query::NodeInfo;
use crate::search_index::query_matches;
use crate::text::{lists_text, lowercase, str_eq};
use crate::topology::ImpactDirection;
use crate::traverse::at_distance;

verus! {

/// The code for a request that is not valid JSON.
pub const PARSE_ERROR: i32 = -32700;

/// The code for a method that does not exist.
pub const METHOD_NOT_FOUND: i32 = -32601;

/// The code for parameters that do not fit the method.
pub const INVALID_PARAMS: i32 = -32602;

/// The code for an error of the application, such as a node that is not in
/// the graph.
pub const APPLICATION_ERROR: i32 = -32001;

/// An error as the protocol reports it.
#[derive(Debug)]
pub struct RpcError {
    pub code: i32,
    pub message: String,
}

impl RpcError {
    /// The error for a request that is not valid JSON.
    pub fn parse_error() -> (out: RpcError)
        ensures
            out.code == PARSE_ERROR,
            out.message@ == "Parse error"@,
    {
        RpcError { code: PARSE_ERROR, message: String::from_str("Parse error") }
    }

    /// The error for the unknown method `method`.
    pub fn method_not_found(method: &str) -> (out: RpcError)
        ensures
            out.code == METHOD_NOT_FOUND,
            out.message@ == "Method not found: "@ + method@,
    {
        let mut message = String::from_str("Method not found: ");
        message.append(method);
        RpcError { code: METHOD_NOT_FOUND, message }
    }

    /// The error for parameters that do not fit, with the reason `detail`.
    pub fn invalid_params(detail: &str) -> (out: RpcError)
        ensures
            out.code == INVALID_PARAMS,
            out.message@ == "Invalid params: "@ + detail@,
    {
        let mut message = String::from_str("Invalid params: ");
        message.append(detail);
        RpcError { code: INVALID_PARAMS, message }
    }

    /// The error for the id `id` that no node bears.
    pub fn node_not_found(id: &str) -> (out: RpcError)
        ensures
            out.code == APPLICATION_ERROR,
            out.message@ == "Node not found: "@ + id@,
    {
        let mut message = String::from_str("Node not found: ");
        message.append(id);
        RpcError { code: APPLICATION_ERROR, message }
    }
}

/// The methods of the query protocol.
#[derive(Clone, Copy, Debug, PartialEq, Eq, Hash, Structural)]
pub enum RpcMethod {
    Info,
    Discover,
    Impact,
    Context,
    Search,
    NodeGet,
}

/// The method that a request names.
pub open spec fn method_of(name: Seq<char>) -> Option<RpcMethod> {
    if name == "graph.info"@ {
        Some(RpcMethod::Info)
    } else if name == "discover"@ {
        Some(RpcMethod::Discover)
    } else if name == "impact"@ {
        Some(RpcMethod::Impact)
    } else if name == "context"@ {
        Some(RpcMethod::Context)
    } else if name == "search"@ {
        Some(RpcMethod::Search)
    } else if name == "node.get"@ {
        Some(RpcMethod::NodeGet)
    } else {
        None
    }
}

/// The method that a request names, or the error for a name that is none.
pub fn rpc_method(name: &str) -> (out: Result<RpcMethod, RpcError>)
    ensures
        match out {
            Ok(m) => method_of(name@) == Some(m),
            Err(e) => method_of(name@).is_none() && e.code == METHOD_NOT_FOUND && e.message@
                == "Method not found: "@ + name@,
        },
{
    if str_eq(name, "graph.info") {
        Ok(RpcMethod::Info)
    } else if str_eq(name, "discover") {
        Ok(RpcMethod::Discover)
    } else if str_eq(name, "impact") {
        Ok(RpcMethod::Impact)
    } else if str_eq(name, "context") {
        Ok(RpcMethod::Context)
    } else if str_eq(name, "search") {
        Ok(RpcMethod::Search)
    } else if str_eq(name, "node.get") {
        Ok(RpcMethod::NodeGet)
    } else {
        Err(RpcError::method_not_found(name))
    }
}

/// What `graph.info` answers.
#[derive(Debug)]
pub struct InfoResult {
    pub node_count: usize,
    pub edge_count: usize,
    pub languages: Vec<String>,
    pub version: String,
}

/// Answers `graph.info`: the counts of the graph, the languages the server
/// names, and the server's version.
pub fn handle_info(graph: &ArborGraph, version: &str) -> (out: InfoResult)
    ensures
        out.node_count == graph.nodes().len(),
        out.edge_count == graph.edges().len(),
        out.version@ == version@,
        out.languages@.len() == 3,
        out.languages@[0]@ == "typescript"@,
        out.languages@[1]@ == "rust"@,
        out.languages@[2]@ == "python"@,
{
    let mut languages: Vec<String> = Vec::new();
    languages.push(String::from_str("typescript"));
    languages.push(String::from_str("rust"));
    languages.push(String::from_str("python"));
    InfoResult {
        node_count: graph.node_count(),
        edge_count: graph.edge_count(),
        languages,
        version: String::from_str(version),
    }
}

/// `handles` is what a search for `query` finds: the handles of exactly the
/// nodes whose names match, in ascending order.
pub open spec fn is_search_result(graph: &ArborGraph, query: Seq<char>, handles: Seq<NodeId>) -> bool {
    &&& forall|i: int, j: int| 0 <= i < j < handles.len() ==> handles[i].raw < handles[j].raw
    &&& forall|i: int|
        0 <= i < handles.len() ==> graph.nodes().contains_key((#[trigger] handles[i]).raw as int)
            && query_matches(lowercase(query), lowercase(graph.nodes()[handles[i].raw as int].name@))
    &&& forall|h: int|
        graph.nodes().contains_key(h) && query_matches(lowercase(query), lowercase(graph.nodes()[h].name@))
            ==> exists|i: int| 0 <= i < handles.len() && (#[trigger] handles[i]).raw == h
}

/// `ranking` lists the nodes whose names match `query`, each once with its
/// score, by rank: highest score first, and of equal scores the smaller
/// handle first.
pub open spec fn is_ranking(graph: &ArborGraph, query: Seq<char>, ranking: Seq<Scored>) -> bool {
    &&& ranked(ranking)
    &&& forall|x: Scored| #[trigger]
        ranking.contains(x) <==> graph.nodes().contains_key(x.1 as int) && query_matches(
            lowercase(query),
            lowercase(graph.nodes()[x.1 as int].name@),
        ) && x.0 == graph.score_of(x.1)
}

/// The nodes whose names match `query`, each with its score, by rank.
pub fn ranked_matches(graph: &ArborGraph, query: &str) -> (out: Vec<Scored>)
    requires
        graph.wf(),
    ensures
        is_ranking(graph, query@, out@),
{
    let handles = graph.search(query);
    let mut pairs: Vec<Scored> = Vec::new();
    let mut i: usize = 0;
    while i < handles.len()
        invariant
            i <= handles.len(),
            pairs@.len() == i,
            forall|k: int|
                0 <= k < i ==> (#[trigger] pairs@[k]).1 == handles@[k].raw && pairs@[k].0 == graph.score_of(
                    handles@[k].raw,
                ),
        decreases handles.len() - i,
    {
        pairs.push((graph.centrality(handles[i]), handles[i].raw));
        i = i + 1;
    }
    proof {
        assert(distinct_handles(pairs@)) by {
            assert forall|a: int, b: int| 0 <= a < b < pairs@.len() implies pairs@[a].1 != pairs@[b].1 by {
                assert(handles@[a].raw < handles@[b].raw);
            }
        }
    }
    let out = sort_by_score(&pairs);
    proof {
        assert forall|x: Scored| #[trigger]
            out@.contains(x) <==> graph.nodes().contains_key(x.1 as int) && query_matches(
                lowercase(query@),
                lowercase(graph.nodes()[x.1 as int].name@),
            ) && x.0 == graph.score_of(x.1) by {
            assert(out@.contains(x) <==> pairs@.contains(x));
            if pairs@.contains(x) {
                let k = choose|k: int| 0 <= k < pairs@.len() && pairs@[k] == x;
                assert(graph.nodes().contains_key(handles@[k].raw as int));
            }
            if graph.nodes().contains_key(x.1 as int) && query_matches(
                lowercase(query@),
                lowercase(graph.nodes()[x.1 as int].name@),
            ) && x.0 == graph.score_of(x.1) {
                let k = choose|k: int| 0 <= k < handles@.len() && (#[trigger] handles@[k]).raw == x.1 as int;
                assert(pairs@[k] == x);
            }
        }
    }
    out
}

/// The smaller of two numbers.
pub open spec fn least(a: int, b: int) -> int {
    if a <= b {
        a
    } else {
        b
    }
}

/// Answers `discover`: the nodes whose names match `query`, highest score
/// first, and at most `limit` of them.
pub fn handle_discover(graph: &ArborGraph, query: &str, limit: usize) -> (out: Vec<NodeInfo>)
    requires
        graph.wf(),
    ensures
        exists|ranking: Seq<Scored>| #[trigger]
            is_ranking(graph, query@, ranking) && out@.len() == least(limit as int, ranking.len() as int)
                && forall|i: int|
                0 <= i < out@.len() ==> (#[trigger] out@[i]).describes(
                    graph.nodes()[ranking[i].1 as int],
                    ranking[i].0,
                ),
{
    let ranking = ranked_matches(graph, query);
    let mut out: Vec<NodeInfo> = Vec::new();
    let mut i: usize = 0;
    while i < ranking.len() && i < limit
        invariant
            graph.wf(),
            i <= ranking.len(),
            i <= limit,
            out@.len() == i,
            is_ranking(graph, query@, ranking@),
            forall|k: int|
                0 <= k < i ==> (#[trigger] out@[k]).describes(graph.nodes()[ranking@[k].1 as int], ranking@[k].0),
        decreases ranking.len() - i,
    {
        let pair = ranking[i];
        proof {
            assert(ranking@.contains(pair));
        }
        let node = graph.get(NodeId::new(pair.1)).unwrap();
        out.push(NodeInfo::with_score(node, pair.0));
        i = i + 1;
    }
    proof {
        assert(is_ranking(graph, query@, ranking@));
    }
    out
}

/// The tokens that showing a node is estimated to take: forty characters a
/// line, four characters a token.
pub open spec fn token_estimate(line_start: u32, line_end: u32) -> nat {
    if line_end >= line_start {
        ((line_end - line_start) * 40 / 4) as nat
    } else {
        0
    }
}

/// The tokens that showing a node that spans the given lines is estimated to
/// take.
pub fn estimate_tokens(line_start: u32, line_end: u32) -> (out: u64)
    ensures
        out == token_estimate(line_start, line_end),
{
    if line_end >= line_start {
        let lines: u64 = (line_end - line_start) as u64;
        lines * 40 / 4
    } else {
        0
    }
}

/// The tokens that the first `k` nodes of `ranking` are estimated to take
/// together.
pub open spec fn cost_of_first(nodes: Map<int, CodeNode>, ranking: Seq<Scored>, k: int) -> nat
    decreases k,
{
    if k <= 0 || k > ranking.len() {
        0
    } else {
        let node = nodes[ranking[k - 1].1 as int];
        cost_of_first(nodes, ranking, k - 1) + token_estimate(node.line_start, node.line_end)
    }
}

/// What `context` answers.
#[derive(Debug)]
pub struct ContextReply {
    pub nodes: Vec<NodeInfo>,
    /// The tokens the nodes are estimated to take together.
    pub total_tokens: u64,
}

/// Answers `context`: the nodes whose names match `task`, highest score
/// first, for as long as the tokens they are estimated to take stay within
/// `max_tokens`. The first node that would exceed the budget ends the
/// answer.
pub fn handle_context(graph: &ArborGraph, task: &str, max_tokens: u64) -> (out: ContextReply)
    requires
        graph.wf(),
    ensures
        exists|ranking: Seq<Scored>| #[trigger]
            is_ranking(graph, task@, ranking) && out.nodes@.len() <= ranking.len() && out.total_tokens
                == cost_of_first(graph.nodes(), ranking, out.nodes@.len() as int) && out.total_tokens
                <= max_tokens && (out.nodes@.len() == ranking.len() || cost_of_first(
                graph.nodes(),
                ranking,
                out.nodes@.len() as int + 1,
            ) > max_tokens) && forall|i: int|
                0 <= i < out.nodes@.len() ==> (#[trigger] out.nodes@[i]).describes(
                    graph.nodes()[ranking[i].1 as int],
                    ranking[i].0,
                ),
{
    let ranking = ranked_matches(graph, task);
    let mut nodes: Vec<NodeInfo> = Vec::new();
    let mut total: u64 = 0;
    let mut i: usize = 0;
    let mut open = true;
    while i < ranking.len() && open
        invariant
            graph.wf(),
            i <= ranking.len(),
            nodes@.len() == i,
            is_ranking(graph, task@, ranking@),
            total == cost_of_first(graph.nodes(), ranking@, i as int),
            total <= max_tokens,
            !open ==> i < ranking.len() && cost_of_first(graph.nodes(), ranking@, i + 1) > max_tokens,
            forall|k: int|
                0 <= k < i ==> (#[trigger] nodes@[k]).describes(graph.nodes()[ranking@[k].1 as int], ranking@[k].0),
        decreases ranking.len() - i + if open { 1int } else { 0int },
    {
        let pair = ranking[i];
        proof {
            assert(ranking@.contains(pair));
        }
        let node = graph.get(NodeId::new(pair.1)).unwrap();
        let estimate = estimate_tokens(node.line_start, node.line_end);
        if estimate > max_tokens - total {
            open = false;
        } else {
            total = total + estimate;
            nodes.push(NodeInfo::with_score(node, pair.0));
            i = i + 1;
        }
    }
    proof {
        assert(is_ranking(graph, task@, ranking@));
    }
    ContextReply { nodes, total_tokens: total }
}

/// Whether a node of kind label `label` passes a filter for `kind`: every
/// node passes when no kind is asked for.
pub open spec fn passes(kind: Option<Seq<char>>, label: Seq<char>) -> bool {
    match kind {
        Some(k) => k == label,
        None => true,
    }
}

/// The handles of `handles` whose nodes pass the filter for `kind`, in the
/// same order.
pub open spec fn filtered(nodes: Map<int, CodeNode>, handles: Seq<NodeId>, kind: Option<Seq<char>>) -> Seq<
    NodeId,
>
    decreases handles.len(),
{
    if handles.len() == 0 {
        Seq::empty()
    } else {
        let before = filtered(nodes, handles.drop_last(), kind);
        if passes(kind, nodes[handles.last().raw as int].kind.label()) {
            before.push(handles.last())
        } else {
            before
        }
    }
}

/// What `search` answers.
#[derive(Debug)]
pub struct SearchReply {
    pub nodes: Vec<NodeInfo>,
    /// How many nodes matched, before the limit was applied.
    pub total: usize,
}

/// Answers `search`: the nodes whose names match `query` and whose kind is
/// `kind`, if one is given, in ascending order of handle, and at most
/// `limit` of them; and how many there are in all.
pub fn handle_search(graph: &ArborGraph, query: &str, kind: Option<&str>, limit: usize) -> (out: SearchReply)
    requires
        graph.wf(),
    ensures
        exists|handles: Seq<NodeId>| #[trigger]
            is_search_result(graph, query@, handles) && found_in(
                graph,
                handles,
                match kind {
                    Some(k) => Some(k@),
                    None => None,
                },
                limit,
                out,
            ),
{
    let handles = graph.search(query);
    let ghost want = match kind {
        Some(k) => Some(k@),
        None => None,
    };
    let mut nodes: Vec<NodeInfo> = Vec::new();
    let mut total: usize = 0;
    let mut i: usize = 0;
    proof {
        assert(handles@.subrange(0, 0) =~= Seq::<NodeId>::empty());
    }
    while i < handles.len()
        invariant
            graph.wf(),
            i <= handles.len(),
            want == (match kind {
                Some(k) => Some(k@),
                None => None,
            }),
            forall|k: int| 0 <= k < handles@.len() ==> graph.nodes().contains_key((#[trigger] handles@[k]).raw as int),
            total == filtered(graph.nodes(), handles@.subrange(0, i as int), want).len(),
            total <= i,
            nodes@.len() == least(limit as int, total as int),
            forall|k: int|
                0 <= k < nodes@.len() ==> (#[trigger] nodes@[k]).describes(
                    graph.nodes()[filtered(graph.nodes(), handles@.subrange(0, i as int), want)[k].raw as int],
                    0,
                ),
        decreases handles.len() - i,
    {
        let node = graph.get(handles[i]).unwrap();
        let pass = match kind {
            Some(k) => str_eq(k, node.kind.as_str()),
            None => true,
        };
        proof {
            let upto = handles@.subrange(0, i + 1);
            assert(upto.drop_last() =~= handles@.subrange(0, i as int));
            assert(upto.last() == handles@[i as int]);
        }
        if pass {
            if total < limit {
                nodes.push(NodeInfo::from_node(node));
            }
            total = total + 1;
        }
        i = i + 1;
    }
    proof {
        assert(handles@.subrange(0, handles@.len() as int) =~= handles@);
        assert(is_search_result(graph, query@, handles@));
    }
    SearchReply { nodes, total }
}

/// `reply` is the answer for the search result `handles`, the filter `kind`
/// and the limit `limit`.
pub open spec fn found_in(
    graph: &ArborGraph,
    handles: Seq<NodeId>,
    kind: Option<Seq<char>>,
    limit: usize,
    reply: SearchReply,
) -> bool {
    let kept = filtered(graph.nodes(), handles, kind);
    &&& reply.total == kept.len()
    &&& reply.nodes@.len() == least(limit as int, kept.len() as int)
    &&& forall|k: int|
        0 <= k < reply.nodes@.len() ==> (#[trigger] reply.nodes@[k]).describes(graph.nodes()[kept[k].raw as int], 0)
}

/// A node that depends on the target of an `impact` request.
#[derive(Debug)]
pub struct Dependent {
    pub node_id: NodeId,
    pub node: NodeInfo,
    /// How the node relates to the target.
    pub relationship: String,
    /// The length of the shortest walk from the node to the target.
    pub depth: usize,
}

/// What `impact` answers.
#[derive(Debug)]
pub struct ImpactReply {
    pub target: NodeInfo,
    pub dependents: Vec<Dependent>,
    pub total_affected: usize,
}

/// `list` reports node `v` as a dependent.
pub open spec fn lists_dependent(list: Seq<Dependent>, v: int) -> bool {
    exists|i: int| 0 <= i < list.len() && (#[trigger] list[i]).node_id.raw == v
}

/// Answers `impact`: the nodes that depend on the node whose id is `node`,
/// within `depth` hops, where a depth of zero sets no limit; nearest first,
/// each once, with its distance. An id that no node bears is an error.
pub fn handle_impact(graph: &ArborGraph, node: &str, depth: usize) -> (out: Result<ImpactReply, RpcError>)
    requires
        graph.wf(),
    ensures
        out.is_ok() <==> graph.ids().contains_key(node@),
        match out {
            Ok(reply) => {
                let target = graph.ids()[node@] as int;
                &&& reply.target.describes(graph.nodes()[target], 0)
                &&& reply.total_affected == reply.dependents@.len()
                &&& forall|i: int|
                    0 <= i < reply.dependents@.len() ==> {
                        let d = #[trigger] reply.dependents@[i];
                        &&& graph.nodes().contains_key(d.node_id.raw as int)
                        &&& d.node.describes(graph.nodes()[d.node_id.raw as int], 0)
                        &&& d.relationship@ == "calls"@
                        &&& 1 <= d.depth <= effective_depth(depth)
                        &&& at_distance(
                            graph.edges(),
                            ImpactDirection::Upstream,
                            target,
                            d.node_id.raw as int,
                            d.depth as nat,
                        )
                    }
                &&& forall|i: int, j: int|
                    0 <= i < j < reply.dependents@.len() ==> reply.dependents@[i].node_id.raw
                        != reply.dependents@[j].node_id.raw && reply.dependents@[i].depth <= reply.dependents@[j].depth
                &&& forall|v: int, d: nat|
                    1 <= d <= effective_depth(depth) && #[trigger] at_distance(
                        graph.edges(),
                        ImpactDirection::Upstream,
                        target,
                        v,
                        d,
                    ) ==> lists_dependent(reply.dependents@, v)
            },
            Err(e) => e.code == APPLICATION_ERROR && e.message@ == "Node not found: "@ + node@,
        },
{
    let index = match graph.get_index(node) {
        Some(index) => index,
        None => {
            return Err(RpcError::node_not_found(node));
        },
    };
    let target = NodeInfo::from_node(graph.get(index).unwrap());
    let limit = if depth == 0 {
        usize::MAX
    } else {
        depth
    };
    let found = graph.get_dependents(index, limit);
    let mut dependents: Vec<Dependent> = Vec::new();
    let mut i: usize = 0;
    while i < found.len()
        invariant
            graph.wf(),
            i <= found.len(),
            dependents@.len() == i,
            forall|k: int| 0 <= k < found@.len() ==> graph.nodes().contains_key((#[trigger] found@[k]).0.raw as int),
            forall|k: int|
                0 <= k < i ==> {
                    let d = #[trigger] dependents@[k];
                    &&& d.node_id == found@[k].0
                    &&& d.depth == found@[k].1
                    &&& d.node.describes(graph.nodes()[d.node_id.raw as int], 0)
                    &&& d.relationship@ == "calls"@
                },
        decreases found.len() - i,
    {
        let (id, hops) = found[i];
        let info = NodeInfo::from_node(graph.get(id).unwrap());
        dependents.push(Dependent { node_id: id, node: info, relationship: String::from_str("calls"), depth: hops });
        i = i + 1;
    }
    proof {
        let t = graph.ids()[node@] as int;
        assert forall|v: int, d: nat|
            1 <= d <= effective_depth(depth) && #[trigger] at_distance(
                graph.edges(),
                ImpactDirection::Upstream,
                t,
                v,
                d,
            ) implies lists_dependent(dependents@, v) by {
            let k = choose|k: int| 0 <= k < found@.len() && (#[trigger] found@[k]).0.raw == v;
            assert(dependents@[k].node_id.raw == v);
        }
        assert forall|a: int, b: int| 0 <= a < b < dependents@.len() implies dependents@[a].node_id.raw
            != dependents@[b].node_id.raw && dependents@[a].depth <= dependents@[b].depth by {
            assert(found@[a].0.raw != found@[b].0.raw);
        }
    }
    let total = dependents.len();
    Ok(ImpactReply { target, dependents, total_affected: total })
}

/// What `node.get` answers.
#[derive(Debug)]
pub struct NodeDetail {
    pub node: NodeInfo,
    /// The ids of the nodes that call the node.
    pub called_by: Vec<String>,
    /// The ids of the nodes that the node calls.
    pub calls: Vec<String>,
}

/// The ids of `nodes`, in the same order.
pub fn ids_of(nodes: &Vec<&CodeNode>) -> (out: Vec<String>)
    ensures
        out@.len() == nodes@.len(),
        forall|i: int| 0 <= i < out@.len() ==> (#[trigger] out@[i])@ == nodes@[i].id@,
{
    let mut out: Vec<String> = Vec::new();
    let mut i: usize = 0;
    while i < nodes.len()
        invariant
            i <= nodes.len(),
            out@.len() == i,
            forall|k: int| 0 <= k < i ==> (#[trigger] out@[k])@ == nodes@[k].id@,
        decreases nodes.len() - i,
    {
        out.push(nodes[i].id.clone());
        i = i + 1;
    }
    out
}

/// `id` is the id of a node that a `Calls` edge joins to `target` in
/// direction `dir`.
pub open spec fn id_of_linked(graph: &ArborGraph, dir: ImpactDirection, target: int, id: Seq<char>) -> bool {
    exists|h: int| #[trigger] linked(graph.edges(), dir, EdgeKind::Calls, target, h) && graph.nodes()[h].id@ == id
}

/// `ids` lists the ids of exactly the nodes that a `Calls` edge joins to
/// `target` in direction `dir`, each once.
pub open spec fn lists_linked(graph: &ArborGraph, dir: ImpactDirection, target: int, ids: Seq<String>) -> bool {
    &&& forall|i: int| 0 <= i < ids.len() ==> id_of_linked(graph, dir, target, (#[trigger] ids[i])@)
    &&& forall|h: int| #[trigger]
        linked(graph.edges(), dir, EdgeKind::Calls, target, h) ==> lists_text(ids, graph.nodes()[h].id@)
    &&& forall|i: int, j: int| 0 <= i < j < ids.len() ==> ids[i]@ != ids[j]@
}

/// Answers `node.get`: the node whose id is `id`, with the ids of its
/// callers and of its callees. An id that no node bears is an error.
pub fn handle_node_get(graph: &ArborGraph, id: &str) -> (out: Result<NodeDetail, RpcError>)
    requires
        graph.wf(),
    ensures
        out.is_ok() <==> graph.ids().contains_key(id@),
        match out {
            Ok(detail) => {
                let target = graph.ids()[id@] as int;
                &&& detail.node.describes(graph.nodes()[target], 0)
                &&& lists_linked(graph, ImpactDirection::Upstream, target, detail.called_by@)
                &&& lists_linked(graph, ImpactDirection::Downstream, target, detail.calls@)
            },
            Err(e) => e.code == APPLICATION_ERROR && e.message@ == "Node not found: "@ + id@,
        },
{
    let index = match graph.get_index(id) {
        Some(index) => index,
        None => {
            return Err(RpcError::node_not_found(id));
        },
    };
    let node = graph.get(index).unwrap();
    let callers = graph.get_callers(index);
    let callees = graph.get_callees(index);
    let called_by = ids_of(&callers);
    let calls = ids_of(&callees);
    proof {
        let t = index.raw as int;
        lemma_lists_linked(graph, ImpactDirection::Upstream, t, callers@, called_by@);
        lemma_lists_linked(graph, ImpactDirection::Downstream, t, callees@, calls@);
    }
    Ok(NodeDetail { node: NodeInfo::from_node(node), called_by, calls })
}

/// The ids of the nodes that `get_callers` or `get_callees` returns list the
/// linked nodes.
pub proof fn lemma_lists_linked(
    graph: &ArborGraph,
    dir: ImpactDirection,
    target: int,
    found: Seq<&CodeNode>,
    ids: Seq<String>,
)
    requires
        ids.len() == found.len(),
        forall|i: int| 0 <= i < ids.len() ==> (#[trigger] ids[i])@ == found[i].id@,
        forall|i: int|
            0 <= i < found.len() ==> linked_node(
                graph.edges(),
                graph.nodes(),
                dir,
                EdgeKind::Calls,
                target,
                *#[trigger] found[i],
            ),
        forall|h: int| #[trigger]
            linked(graph.edges(), dir, EdgeKind::Calls, target, h) ==> lists(found, graph.nodes()[h]),
        forall|i: int, j: int| 0 <= i < j < found.len() ==> found[i].id@ != found[j].id@,
    ensures
        lists_linked(graph, dir, target, ids),
{
    assert forall|i: int| 0 <= i < ids.len() implies id_of_linked(graph, dir, target, (#[trigger] ids[i])@) by {
        assert(linked_node(graph.edges(), graph.nodes(), dir, EdgeKind::Calls, target, *found[i]));
        let h = choose|h: int| #[trigger]
            linked(graph.edges(), dir, EdgeKind::Calls, target, h) && graph.nodes()[h] == *found[i];
        assert(linked(graph.edges(), dir, EdgeKind::Calls, target, h) && graph.nodes()[h].id@ == ids[i]@);
    }
    assert forall|h: int| #[trigger] linked(graph.edges(), dir, EdgeKind::Calls, target, h) implies lists_text(
        ids,
        graph.nodes()[h].id@,
    ) by {
        assert(lists(found, graph.nodes()[h]));
        let i = choose|i: int| 0 <= i < found.len() && *(#[trigger] found[i]) == graph.nodes()[h];
        assert(ids[i]@ == graph.nodes()[h].id@);
    }
    assert forall|i: int, j: int| 0 <= i < j < ids.len() implies ids[i]@ != ids[j]@ by {
        assert(found[i].id@ != found[j].id@);
    }
}

} // verus!
