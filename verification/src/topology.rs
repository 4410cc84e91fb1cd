//! The graph's storage: a `petgraph` stable graph, and what this crate
//! takes on trust about it.
//!
//! Verus does not read `petgraph`. Each function below makes one call into it
//! and states, without proof, what that call does to the nodes and edges the
//! graph holds. Everything else in the crate is proved from these statements.

use vstd::prelude::*;
use crate::edge::{Edge, EdgeKind};
use crate::node::CodeNode;
use crate::traverse::{at_distance, reach_in, step};

verus! {

#[verifier::external_type_specification]
#[verifier::external_body]
#[verifier::reject_recursive_types(N)]
#[verifier::reject_recursive_types(E)]
#[verifier::reject_recursive_types(Ty)]
#[verifier::reject_recursive_types(Ix)]
pub struct ExStableGraph<N, E, Ty, Ix>(petgraph::stable_graph::StableGraph<N, E, Ty, Ix>);

#[verifier::external_type_specification]
#[verifier::external_body]
pub struct ExDirected(petgraph::Directed);

/// A directed multigraph of symbols whose handles survive removals.
pub type Topology = petgraph::stable_graph::StableGraph<CodeNode, Edge, petgraph::Directed, u32>;

/// The nodes a stable graph holds, by handle.
pub uninterp spec fn live_nodes(g: Topology) -> Map<int, CodeNode>;

/// The edges a stable graph holds, by edge index: source, target and weight.
pub uninterp spec fn live_edges(g: Topology) -> Map<int, (int, int, Edge)>;

/// The bound of the handles a graph gives out: every handle is below it.
pub const MAX_HANDLE: usize = 0xffff_ffff;

/// Which of a node's edges a traversal follows.
#[derive(Clone, Copy, Debug, PartialEq, Eq, Hash, Structural)]
pub enum ImpactDirection {
    /// Along incoming edges: towards the nodes that depend on the start.
    Upstream,
    /// Along outgoing edges: towards the nodes the start depends on.
    Downstream,
}

/// One edge as a traversal sees it.
#[derive(Clone, Copy, Debug)]
pub struct EdgeHit {
    pub edge: usize,
    pub source: usize,
    pub target: usize,
    pub kind: EdgeKind,
}

impl EdgeHit {
    /// This hit reports an edge that `edges` holds.
    pub open spec fn is_in(self, edges: Map<int, (int, int, Edge)>) -> bool {
        &&& edges.contains_key(self.edge as int)
        &&& edges[self.edge as int].0 == self.source
        &&& edges[self.edge as int].1 == self.target
        &&& edges[self.edge as int].2.kind == self.kind
    }

    /// The end of the edge from which a traversal in direction `dir` leaves.
    pub open spec fn near(self, dir: ImpactDirection) -> int {
        match dir {
            ImpactDirection::Upstream => self.target as int,
            ImpactDirection::Downstream => self.source as int,
        }
    }

    /// The end of the edge at which a traversal in direction `dir` arrives.
    pub open spec fn far(self, dir: ImpactDirection) -> int {
        match dir {
            ImpactDirection::Upstream => self.source as int,
            ImpactDirection::Downstream => self.target as int,
        }
    }
}

/// The end of an edge from which a traversal in direction `dir` leaves.
pub open spec fn near_end(e: (int, int, Edge), dir: ImpactDirection) -> int {
    match dir {
        ImpactDirection::Upstream => e.1,
        ImpactDirection::Downstream => e.0,
    }
}

/// The end of an edge at which a traversal in direction `dir` arrives.
pub open spec fn far_end(e: (int, int, Edge), dir: ImpactDirection) -> int {
    match dir {
        ImpactDirection::Upstream => e.0,
        ImpactDirection::Downstream => e.1,
    }
}

/// The edges of `edges` that do not touch node `a`.
pub open spec fn edges_avoiding(edges: Map<int, (int, int, Edge)>, a: int) -> Map<
    int,
    (int, int, Edge),
> {
    Map::new(
        |e: int| edges.contains_key(e) && edges[e].0 != a && edges[e].1 != a,
        |e: int| edges[e],
    )
}

/// `StableGraph::new`: a graph that holds no node and no edge.
#[verifier::external_body]
pub(crate) fn topo_new() -> (g: Topology)
    ensures
        live_nodes(g) == (Map::<int, CodeNode>::empty()),
        live_edges(g) == (Map::<int, (int, int, Edge)>::empty()),
{
    petgraph::stable_graph::StableGraph::new()
}

/// `StableGraph::node_count`: how many nodes the graph holds.
#[verifier::external_body]
pub(crate) fn topo_node_count(g: &Topology) -> (n: usize)
    ensures
        n == live_nodes(*g).len(),
{
    g.node_count()
}

/// `StableGraph::edge_count`: how many edges the graph holds.
#[verifier::external_body]
pub(crate) fn topo_edge_count(g: &Topology) -> (n: usize)
    ensures
        n == live_edges(*g).len(),
{
    g.edge_count()
}

/// `StableGraph::add_node`: the weight is stored under a handle that was not
/// in use, and nothing else changes. The largest index is never given out: it
/// marks the end of the graph's lists. The call panics only in a graph whose
/// every slot below it is occupied, which `requires` rules out.
#[verifier::external_body]
pub(crate) fn topo_add_node(g: &mut Topology, weight: CodeNode) -> (a: usize)
    requires
        live_nodes(*old(g)).dom().finite(),
        live_nodes(*old(g)).len() < MAX_HANDLE,
    ensures
        a < MAX_HANDLE,
        !live_nodes(*old(g)).contains_key(a as int),
        live_nodes(*final(g)) == live_nodes(*old(g)).insert(a as int, weight),
        live_edges(*final(g)) == live_edges(*old(g)),
{
    g.add_node(weight).index()
}

/// `StableGraph::add_edge`: the edge from `a` to `b` is stored under an edge
/// index that was not in use, and nothing else changes. The call panics if an
/// endpoint is missing or every edge slot is occupied, which `requires` rules out.
#[verifier::external_body]
pub(crate) fn topo_add_edge(g: &mut Topology, a: usize, b: usize, weight: Edge) -> (e: usize)
    requires
        live_nodes(*old(g)).contains_key(a as int),
        live_nodes(*old(g)).contains_key(b as int),
        a <= MAX_HANDLE,
        b <= MAX_HANDLE,
        live_edges(*old(g)).dom().finite(),
        live_edges(*old(g)).len() < MAX_HANDLE,
    ensures
        e < MAX_HANDLE,
        !live_edges(*old(g)).contains_key(e as int),
        live_edges(*final(g)) == live_edges(*old(g)).insert(e as int, (a as int, b as int, weight)),
        live_nodes(*final(g)) == live_nodes(*old(g)),
{
    g.add_edge(petgraph::stable_graph::NodeIndex::new(a), petgraph::stable_graph::NodeIndex::new(b), weight).index()
}

/// `StableGraph::node_weight`: the node stored under `a`, if there is one.
#[verifier::external_body]
pub(crate) fn topo_node_weight(g: &Topology, a: usize) -> (w: Option<&CodeNode>)
    requires
        a <= MAX_HANDLE,
    ensures
        w.is_some() == live_nodes(*g).contains_key(a as int),
        w.is_some() ==> *w.unwrap() == live_nodes(*g)[a as int],
{
    g.node_weight(petgraph::stable_graph::NodeIndex::new(a))
}

/// `StableGraph::edge_weight`: the weight of the edge stored under `e`, if
/// there is one.
#[verifier::external_body]
pub(crate) fn topo_edge_weight(g: &Topology, e: usize) -> (w: Option<&Edge>)
    requires
        e <= MAX_HANDLE,
    ensures
        w.is_some() == live_edges(*g).contains_key(e as int),
        w.is_some() ==> *w.unwrap() == live_edges(*g)[e as int].2,
{
    g.edge_weight(petgraph::stable_graph::EdgeIndex::new(e))
}

/// `StableGraph::remove_node`: the node under `a` leaves the graph together
/// with every edge that starts or ends at it, and is returned; all other
/// nodes and edges keep their handles. Without such a node nothing changes.
#[verifier::external_body]
pub(crate) fn topo_remove_node(g: &mut Topology, a: usize) -> (w: Option<CodeNode>)
    requires
        a <= MAX_HANDLE,
    ensures
        w.is_some() == live_nodes(*old(g)).contains_key(a as int),
        w.is_some() ==> w.unwrap() == live_nodes(*old(g))[a as int],
        live_nodes(*final(g)) == live_nodes(*old(g)).remove(a as int),
        live_edges(*final(g)) == edges_avoiding(live_edges(*old(g)), a as int),
{
    g.remove_node(petgraph::stable_graph::NodeIndex::new(a))
}

/// `StableGraph::node_indices`: the handles in use, in ascending order.
#[verifier::external_body]
pub(crate) fn topo_node_indices(g: &Topology) -> (out: Vec<usize>)
    ensures
        forall|i: int| 0 <= i < out@.len() ==> live_nodes(*g).contains_key(#[trigger] out@[i] as int),
        forall|i: int, j: int| 0 <= i < j < out@.len() ==> out@[i] < out@[j],
        forall|a: int| live_nodes(*g).contains_key(a) ==> exists|i: int| 0 <= i < out@.len() && #[trigger] out@[i] == a,
{
    g.node_indices().map(|a| a.index()).collect()
}

/// `StableGraph::edge_references`: every edge of the graph once, in ascending
/// order of edge index.
#[verifier::external_body]
pub(crate) fn topo_edge_references(g: &Topology) -> (out: Vec<EdgeHit>)
    ensures
        forall|i: int| 0 <= i < out@.len() ==> (#[trigger] out@[i]).is_in(live_edges(*g)),
        forall|i: int, j: int| 0 <= i < j < out@.len() ==> out@[i].edge < out@[j].edge,
        forall|e: int| live_edges(*g).contains_key(e) ==> exists|i: int| 0 <= i < out@.len() && #[trigger] out@[i].edge == e,
{
    petgraph::visit::IntoEdgeReferences::edge_references(g).map(|r| EdgeHit {
        edge: petgraph::visit::EdgeRef::id(&r).index(),
        source: petgraph::visit::EdgeRef::source(&r).index(),
        target: petgraph::visit::EdgeRef::target(&r).index(),
        kind: r.weight().kind,
    }).collect()
}

/// `StableGraph::edges_directed`: every edge that ends at `a` (`Upstream`) or
/// starts at `a` (`Downstream`), each once, in the order the graph keeps them.
#[verifier::external_body]
pub(crate) fn topo_edges_directed(g: &Topology, a: usize, dir: ImpactDirection) -> (out: Vec<EdgeHit>)
    requires
        a <= MAX_HANDLE,
    ensures
        forall|i: int| 0 <= i < out@.len() ==> (#[trigger] out@[i]).is_in(live_edges(*g)) && out@[i].near(dir) == a,
        forall|i: int, j: int| 0 <= i < j < out@.len() ==> out@[i].edge != out@[j].edge,
        forall|e: int| live_edges(*g).contains_key(e) && near_end(live_edges(*g)[e], dir) == a ==> exists|i: int| 0 <= i < out@.len() && #[trigger] out@[i].edge == e,
{
    let d = match dir {
        ImpactDirection::Upstream => petgraph::Direction::Incoming,
        ImpactDirection::Downstream => petgraph::Direction::Outgoing,
    };
    g.edges_directed(petgraph::stable_graph::NodeIndex::new(a), d).map(|r| EdgeHit {
        edge: petgraph::visit::EdgeRef::id(&r).index(),
        source: petgraph::visit::EdgeRef::source(&r).index(),
        target: petgraph::visit::EdgeRef::target(&r).index(),
        kind: r.weight().kind,
    }).collect()
}

/// Whether two handles are the same.
pub fn same_handle(a: usize, b: usize) -> (same: bool)
    ensures
        same == (a == b),
{
    a == b
}

/// What following one edge costs a path search.
pub fn unit_cost() -> (cost: usize)
    ensures
        cost == 1,
{
    1
}

/// What a path search assumes of the way still to go.
pub fn no_estimate() -> (cost: usize)
    ensures
        cost == 0,
{
    0
}

/// `path` walks along edges of `edges`, each from its source to its target.
pub open spec fn is_walk(edges: Map<int, (int, int, Edge)>, path: Seq<usize>) -> bool {
    forall|i: int|
        0 <= i < path.len() - 1 ==> step(
            edges,
            ImpactDirection::Downstream,
            #[trigger] path[i] as int,
            path[i + 1] as int,
        )
}

/// `petgraph::algo::astar` with every edge costing one and no estimate: a
/// shortest path from `from` to `to` along outgoing edges, as the handles it
/// passes, or `None` when no walk leads from `from` to `to`.
#[verifier::external_body]
pub(crate) fn topo_shortest_path(g: &Topology, from: usize, to: usize) -> (out: Option<Vec<usize>>)
    requires
        from <= MAX_HANDLE,
        to <= MAX_HANDLE,
        live_nodes(*g).contains_key(from as int),
    ensures
        match out {
            Some(path) => {
                &&& path@.len() >= 1
                &&& path@[0] == from
                &&& path@[path@.len() - 1] == to
                &&& is_walk(live_edges(*g), path@)
                &&& at_distance(
                    live_edges(*g),
                    ImpactDirection::Downstream,
                    from as int,
                    to as int,
                    (path@.len() - 1) as nat,
                )
            },
            None => forall|k: nat|
                !#[trigger] reach_in(live_edges(*g), ImpactDirection::Downstream, from as int, to as int, k),
        },
{
    petgraph::algo::astar(
        g,
        petgraph::stable_graph::NodeIndex::new(from),
        |n| same_handle(n.index(), to),
        |_| unit_cost(),
        |_| no_estimate(),
    ).map(|found| found.1.into_iter().map(|n| n.index()).collect())
}

} // verus!
