//! Context slicing: the neighbourhood of a node that fits a token budget.
//!
//! The slice starts at the target and widens hop by hop along edges in
//! either direction. Within one hop distance the nodes with the higher
//! centrality come first. Every node costs an estimated number of tokens;
//! once a node would exceed the budget, no further node is taken, except
//! those whose kind is pinned.

use vstd::prelude::*;
use vstd::string::*;
use crate::edge::Edge;
use crate::graph::ArborGraph;
use crate::handlers::{estimate_tokens, token_estimate};
use crate::impact::effective_depth;
use crate::node::{CodeNode, NodeId, NodeKind};
use crate::order::{Placed, comes_before, distinct_places, sort_by_place};
use crate::query::NodeInfo;
use crate::text::{decimal, decimal_text};
use crate::topology::{ImpactDirection, far_end, near_end};
use crate::traverse::{Arrival, Neighborhood, Reached, arrives, at_distance, lists_arrival, reach, reach_in, reports};

verus! {

/// The edges of `edges` and, for each, the same edge the other way round:
/// the edge under index `e` is kept under `e`, and its reverse is filed
/// under `-e - 1`.
pub open spec fn both_ways(edges: Map<int, (int, int, Edge)>) -> Map<int, (int, int, Edge)> {
    Map::new(
        |k: int| (k >= 0 && edges.contains_key(k)) || (k < 0 && edges.contains_key(-k - 1)),
        |k: int|
            if k >= 0 {
                edges[k]
            } else {
                (edges[-k - 1].1, edges[-k - 1].0, edges[-k - 1].2)
            },
    )
}

/// A graph walked without regard to the direction of its edges.
pub struct Around<'a> {
    pub graph: &'a ArborGraph,
}

impl<'a> Neighborhood for Around<'a> {
    open spec fn links(&self) -> Map<int, (int, int, Edge)> {
        both_ways(self.graph.edges())
    }

    open spec fn ok(&self) -> bool {
        self.graph.wf()
    }

    fn arrivals(&self, u: usize, dir: ImpactDirection) -> (out: Vec<Arrival>) {
        let down = self.graph.incident(NodeId::new(u), ImpactDirection::Downstream);
        let up = self.graph.incident(NodeId::new(u), ImpactDirection::Upstream);
        let ghost edges = self.graph.edges();
        let ghost sym = both_ways(edges);
        let mut out: Vec<Arrival> = Vec::new();
        let mut i: usize = 0;
        while i < down.len()
            invariant
                i <= down.len(),
                out@.len() == i,
                forall|k: int|
                    0 <= k < down@.len() ==> (#[trigger] down@[k]).is_in(edges) && down@[k].source == u,
                forall|k: int| 0 <= k < i ==> (#[trigger] out@[k]).node == down@[k].target && out@[k].kind == down@[k].kind,
            decreases down.len() - i,
        {
            out.push(Arrival { node: down[i].target, kind: down[i].kind });
            i = i + 1;
        }
        let mut j: usize = 0;
        while j < up.len()
            invariant
                j <= up.len(),
                out@.len() == down@.len() + j,
                forall|k: int|
                    0 <= k < up@.len() ==> (#[trigger] up@[k]).is_in(edges) && up@[k].target == u,
                forall|k: int|
                    0 <= k < down@.len() ==> (#[trigger] out@[k]).node == down@[k].target && out@[k].kind
                        == down@[k].kind,
                forall|k: int|
                    0 <= k < j ==> (#[trigger] out@[down@.len() + k]).node == up@[k].source && out@[down@.len()
                        + k].kind == up@[k].kind,
            decreases up.len() - j,
        {
            out.push(Arrival { node: up[j].source, kind: up[j].kind });
            j = j + 1;
        }
        proof {
            assert forall|k: int| 0 <= k < out@.len() implies arrives(sym, dir, u as int, #[trigger] out@[k]) by {
                if k < down@.len() {
                    let e = down@[k].edge as int;
                    assert(down@[k].is_in(edges));
                    let key = if dir == ImpactDirection::Downstream { e } else { -e - 1 };
                    assert(sym.contains_key(key) && near_end(sym[key], dir) == u as int && far_end(sym[key], dir)
                        == out@[k].node as int && sym[key].2.kind == out@[k].kind);
                } else {
                    let m = k - down@.len();
                    let e = up@[m].edge as int;
                    assert(up@[m].is_in(edges));
                    assert(out@[down@.len() + m].node == up@[m].source);
                    let key = if dir == ImpactDirection::Downstream { -e - 1 } else { e };
                    assert(sym.contains_key(key) && near_end(sym[key], dir) == u as int && far_end(sym[key], dir)
                        == out@[k].node as int && sym[key].2.kind == out@[k].kind);
                }
            }
            assert forall|key: int| #[trigger]
                sym.contains_key(key) && near_end(sym[key], dir) == u as int implies lists_arrival(
                out@,
                far_end(sym[key], dir),
            ) by {
                let e = if key >= 0 { key } else { -key - 1 };
                assert(edges.contains_key(e));
                let forward = (key >= 0) == (dir == ImpactDirection::Downstream);
                if forward {
                    assert(near_end(edges[e], ImpactDirection::Downstream) == u as int);
                    let k = choose|k: int| 0 <= k < down@.len() && #[trigger] down@[k].edge == e;
                    assert(down@[k].is_in(edges));
                    assert(out@[k].node == far_end(sym[key], dir));
                } else {
                    assert(near_end(edges[e], ImpactDirection::Upstream) == u as int);
                    let k = choose|k: int| 0 <= k < up@.len() && #[trigger] up@[k].edge == e;
                    assert(up@[k].is_in(edges));
                    assert(out@[down@.len() + k].node == far_end(sym[key], dir));
                }
            }
        }
        out
    }
}

/// The distance between two nodes when edges are walked in either direction
/// is `d`.
pub open spec fn apart(edges: Map<int, (int, int, Edge)>, from: int, to: int, d: nat) -> bool {
    at_distance(both_ways(edges), ImpactDirection::Downstream, from, to, d)
}

/// Why a slice holds no more than it does.
#[derive(Clone, Copy, Debug, PartialEq, Eq, Hash, Structural)]
pub enum TruncationReason {
    /// A node did not fit the token budget.
    Budget,
    /// Every node found fits, but there are nodes beyond the depth that was
    /// searched.
    DepthReached,
    /// Every node connected to the target is in the slice.
    Exhausted,
}

impl TruncationReason {
    /// The lower-case label of the reason.
    pub open spec fn label(self) -> Seq<char> {
        match self {
            TruncationReason::Budget => "budget"@,
            TruncationReason::DepthReached => "depth_reached"@,
            TruncationReason::Exhausted => "exhausted"@,
        }
    }

    pub fn as_str(&self) -> (s: &'static str)
        ensures
            s@ == self.label(),
    {
        match self {
            TruncationReason::Budget => "budget",
            TruncationReason::DepthReached => "depth_reached",
            TruncationReason::Exhausted => "exhausted",
        }
    }
}

/// A node that may enter a slice.
#[derive(Clone, Copy, Debug)]
pub struct Candidate {
    pub node: usize,
    /// The node's distance from the target, edges walked in either
    /// direction.
    pub hops: usize,
    /// The node's centrality score.
    pub score: u64,
    /// The tokens the node is estimated to take.
    pub estimate: u64,
    /// Whether the node's kind is pinned.
    pub pinned: bool,
}

impl Candidate {
    /// Where the candidate stands in the order of candidates.
    pub open spec fn place(self) -> Placed {
        (self.hops, self.score, self.node)
    }

    /// The candidate is the node under `node`, `hops` hops from `target`,
    /// with the node's score, estimate and pin.
    pub open spec fn fits(self, graph: &ArborGraph, target: int, pinned_kinds: Seq<NodeKind>) -> bool {
        let n = graph.nodes()[self.node as int];
        &&& graph.nodes().contains_key(self.node as int)
        &&& self.hops >= 1
        &&& apart(graph.edges(), target, self.node as int, self.hops as nat)
        &&& self.score == graph.score_of(self.node)
        &&& self.estimate == token_estimate(n.line_start, n.line_end)
        &&& self.pinned == pinned_kinds.contains(n.kind)
    }
}

/// `list` holds a candidate for node `v`.
pub open spec fn proposes(list: Seq<Candidate>, v: int) -> bool {
    exists|i: int| 0 <= i < list.len() && (#[trigger] list[i]).node == v
}

/// `list` holds exactly the nodes between one and `depth` hops from
/// `target`, each once: nearest first, of equally near ones the highest
/// score first, and of equal scores the smaller handle first.
pub open spec fn is_candidates(
    graph: &ArborGraph,
    target: int,
    depth: usize,
    pinned_kinds: Seq<NodeKind>,
    list: Seq<Candidate>,
) -> bool {
    &&& forall|i: int|
        0 <= i < list.len() ==> (#[trigger] list[i]).fits(graph, target, pinned_kinds) && list[i].hops <= depth
    &&& forall|i: int, j: int| 0 <= i < j < list.len() ==> comes_before(list[i].place(), list[j].place())
    &&& forall|v: int, d: nat| 1 <= d <= depth && #[trigger] apart(graph.edges(), target, v, d) ==> proposes(list, v)
}

/// Whether `kinds` lists `kind`.
pub fn kind_listed(kinds: &Vec<NodeKind>, kind: NodeKind) -> (out: bool)
    ensures
        out == kinds@.contains(kind),
{
    let mut i: usize = 0;
    while i < kinds.len()
        invariant
            i <= kinds.len(),
            forall|k: int| 0 <= k < i ==> kinds@[k] != kind,
        decreases kinds.len() - i,
    {
        if kinds[i] == kind {
            return true;
        }
        i = i + 1;
    }
    false
}

/// A node has one distance from another.
pub proof fn lemma_one_distance(edges: Map<int, (int, int, Edge)>, from: int, to: int, a: nat, b: nat)
    requires
        apart(edges, from, to, a),
        apart(edges, from, to, b),
    ensures
        a == b,
{
    let sym = both_ways(edges);
    if a < b {
        assert(reach_in(sym, ImpactDirection::Downstream, from, to, a));
    }
    if b < a {
        assert(reach_in(sym, ImpactDirection::Downstream, from, to, b));
    }
}

/// `p` places the node that `r` reports, with the node's score in `graph`.
pub open spec fn places_found(graph: &ArborGraph, p: Placed, r: Reached) -> bool {
    p.0 == r.hops && p.1 == graph.score_of(r.node) && p.2 == r.node
}

/// `p` places a node that `found` reports within `depth` hops.
pub open spec fn backed(graph: &ArborGraph, found: Seq<Reached>, depth: usize, p: Placed) -> bool {
    exists|m: int| 0 <= m < found.len() && places_found(graph, p, #[trigger] found[m]) && found[m].hops <= depth
}

/// `placed` holds a place for node `v`.
pub open spec fn places(placed: Seq<Placed>, v: usize) -> bool {
    exists|k: int| 0 <= k < placed.len() && (#[trigger] placed[k]).2 == v
}

/// One of the first `n` reports of `found` is of a node more than `depth`
/// hops away.
pub open spec fn any_beyond(found: Seq<Reached>, depth: usize, n: int) -> bool {
    exists|m: int| 0 <= m < n && m < found.len() && (#[trigger] found[m]).hops > depth
}

/// No two reports of `found` are of the same node.
pub open spec fn distinct_reports(found: Seq<Reached>) -> bool {
    forall|i: int, j: int| 0 <= i < j < found.len() ==> found[i].node != found[j].node
}

/// The places of the nodes that `found` reports within `depth` hops, and
/// whether it reports a node farther away.
pub fn place_found(graph: &ArborGraph, found: &Vec<Reached>, depth: usize) -> (out: (Vec<Placed>, bool))
    requires
        distinct_reports(found@),
    ensures
        distinct_places(out.0@),
        forall|k: int| 0 <= k < out.0@.len() ==> backed(graph, found@, depth, #[trigger] out.0@[k]),
        forall|m: int| 0 <= m < found@.len() && (#[trigger] found@[m]).hops <= depth ==> places(out.0@, found@[m].node),
        out.1 == any_beyond(found@, depth, found@.len() as int),
{
    let mut placed: Vec<Placed> = Vec::new();
    let mut beyond = false;
    let ghost mut src: Seq<int> = Seq::empty();
    let mut i: usize = 0;
    while i < found.len()
        invariant
            i <= found.len(),
            distinct_reports(found@),
            src.len() == placed@.len(),
            forall|k: int| 0 <= k < src.len() ==> 0 <= #[trigger] src[k] < i,
            forall|k: int|
                0 <= k < src.len() ==> places_found(graph, #[trigger] placed@[k], found@[src[k]]) && found@[src[k]].hops
                    <= depth,
            forall|m: int| 0 <= m < i && (#[trigger] found@[m]).hops <= depth ==> places(placed@, found@[m].node),
            distinct_places(placed@),
            beyond == any_beyond(found@, depth, i as int),
        decreases found.len() - i,
    {
        let r = found[i];
        let ghost before = placed@;
        if r.hops <= depth {
            let score = graph.centrality(NodeId::new(r.node));
            placed.push((r.hops, score, r.node));
            proof {
                let ghost src0 = src;
                src = src.push(i as int);
                assert forall|k: int| 0 <= k < src.len() implies places_found(
                    graph,
                    #[trigger] placed@[k],
                    found@[src[k]],
                ) && found@[src[k]].hops <= depth by {
                    if k < before.len() {
                        assert(placed@[k] == before[k]);
                        assert(src[k] == src0[k]);
                        assert(places_found(graph, before[k], found@[src0[k]]));
                    } else {
                        assert(src[k] == i as int);
                        assert(placed@[k] == (r.hops, score, r.node));
                    }
                }
                assert forall|a: int, b: int| 0 <= a < b < placed@.len() implies placed@[a].2 != placed@[b].2 by {
                    if b == before.len() {
                        assert(places_found(graph, placed@[a], found@[src[a]]));
                        assert(found@[src[a]].node != found@[i as int].node);
                    }
                }
                assert forall|m: int| 0 <= m < i + 1 && (#[trigger] found@[m]).hops <= depth implies places(
                    placed@,
                    found@[m].node,
                ) by {
                    if m < i {
                        let k = choose|k: int| 0 <= k < before.len() && (#[trigger] before[k]).2 == found@[m].node;
                        assert(placed@[k].2 == found@[m].node);
                    } else {
                        assert(placed@[before.len() as int].2 == found@[m].node);
                    }
                }
                if any_beyond(found@, depth, i + 1) {
                    let m = choose|m: int| 0 <= m < i + 1 && m < found@.len() && (#[trigger] found@[m]).hops > depth;
                    assert(0 <= m < i && m < found@.len() && found@[m].hops > depth);
                }
            }
        } else {
            beyond = true;
            proof {
                assert(0 <= i < i + 1 && i < found@.len() && found@[i as int].hops > depth);
            }
        }
        i = i + 1;
    }
    proof {
        assert forall|k: int| 0 <= k < placed@.len() implies backed(graph, found@, depth, #[trigger] placed@[k]) by {
            let m = src[k];
            assert(0 <= m < found@.len() && places_found(graph, placed@[k], found@[m]) && found@[m].hops <= depth);
        }
    }
    (placed, beyond)
}

/// The candidates that `sorted` places, in the same order.
fn candidates_of(
    graph: &ArborGraph,
    sorted: &Vec<Placed>,
    pinned_kinds: &Vec<NodeKind>,
    Ghost(found): Ghost<Seq<Reached>>,
    Ghost(depth): Ghost<usize>,
    Ghost(target): Ghost<int>,
) -> (out: Vec<Candidate>)
    requires
        graph.wf(),
        forall|k: int| 0 <= k < sorted@.len() ==> backed(graph, found, depth, #[trigger] sorted@[k]),
        forall|m: int|
            0 <= m < found.len() ==> (#[trigger] found[m]).valid(
                both_ways(graph.edges()),
                ImpactDirection::Downstream,
                target,
            ),
    ensures
        out@.len() == sorted@.len(),
        forall|k: int|
            0 <= k < out@.len() ==> (#[trigger] out@[k]).place() == sorted@[k] && out@[k].fits(
                graph,
                target,
                pinned_kinds@,
            ) && out@[k].hops <= depth,
{
    let mut out: Vec<Candidate> = Vec::new();
    let mut j: usize = 0;
    while j < sorted.len()
        invariant
            graph.wf(),
            j <= sorted.len(),
            out@.len() == j,
            forall|k: int| 0 <= k < sorted@.len() ==> backed(graph, found, depth, #[trigger] sorted@[k]),
            forall|m: int|
                0 <= m < found.len() ==> (#[trigger] found[m]).valid(
                    both_ways(graph.edges()),
                    ImpactDirection::Downstream,
                    target,
                ),
            forall|k: int|
                0 <= k < j ==> (#[trigger] out@[k]).place() == sorted@[k] && out@[k].fits(graph, target, pinned_kinds@)
                    && out@[k].hops <= depth,
        decreases sorted.len() - j,
    {
        let p = sorted[j];
        proof {
            assert(backed(graph, found, depth, sorted@[j as int]));
            let m = choose|m: int|
                0 <= m < found.len() && places_found(graph, p, #[trigger] found[m]) && found[m].hops <= depth;
            assert(found[m].valid(both_ways(graph.edges()), ImpactDirection::Downstream, target));
            lemma_found_is_live(graph, found[m], target);
        }
        let node = graph.get(NodeId::new(p.2)).unwrap();
        out.push(
            Candidate {
                node: p.2,
                hops: p.0,
                score: p.1,
                estimate: estimate_tokens(node.line_start, node.line_end),
                pinned: kind_listed(pinned_kinds, node.kind),
            },
        );
        j = j + 1;
    }
    out
}

/// Whether some node lies one hop beyond `depth` hops from `target`.
pub open spec fn cut_short(graph: &ArborGraph, target: int, depth: usize) -> bool {
    depth < usize::MAX && exists|v: int| #[trigger] apart(graph.edges(), target, v, (depth + 1) as nat)
}

/// A node that `found` reports within `depth` hops has a candidate in
/// `out`, when `out` follows `sorted` and `sorted` holds the places of
/// `placed`.
proof fn lemma_proposed(
    found: Seq<Reached>,
    placed: Seq<Placed>,
    sorted: Seq<Placed>,
    out: Seq<Candidate>,
    depth: usize,
    m: int,
)
    requires
        0 <= m < found.len(),
        found[m].hops <= depth,
        forall|i: int| 0 <= i < found.len() && (#[trigger] found[i]).hops <= depth ==> places(placed, found[i].node),
        forall|x: Placed| sorted.contains(x) <==> placed.contains(x),
        out.len() == sorted.len(),
        forall|k: int| 0 <= k < out.len() ==> (#[trigger] out[k]).place() == sorted[k],
    ensures
        proposes(out, found[m].node as int),
{
    assert(places(placed, found[m].node));
    let k = choose|k: int| 0 <= k < placed.len() && (#[trigger] placed[k]).2 == found[m].node;
    assert(placed.contains(placed[k]));
    assert(sorted.contains(placed[k]));
    let q = choose|q: int| 0 <= q < sorted.len() && sorted[q] == placed[k];
    assert(out[q].place() == sorted[q]);
    assert(out[q].node == found[m].node);
}

/// A traversal to one hop past `depth` reports a node beyond `depth` exactly
/// when some node lies one hop beyond it.
proof fn lemma_cut_short(graph: &ArborGraph, t: int, depth: usize, found: Seq<Reached>)
    requires
        forall|i: int|
            0 <= i < found.len() ==> (#[trigger] found[i]).valid(
                both_ways(graph.edges()),
                ImpactDirection::Downstream,
                t,
            ) && (depth < usize::MAX ==> found[i].hops <= depth + 1),
        depth < usize::MAX ==> forall|v: int| #[trigger]
            apart(graph.edges(), t, v, (depth + 1) as nat) ==> reports(found, v),
    ensures
        any_beyond(found, depth, found.len() as int) == cut_short(graph, t, depth),
{
    let edges = graph.edges();
    let sym = both_ways(edges);
    if any_beyond(found, depth, found.len() as int) {
        let m = choose|m: int| 0 <= m < found.len() && m < found.len() && (#[trigger] found[m]).hops > depth;
        assert(found[m].valid(sym, ImpactDirection::Downstream, t));
        assert(apart(edges, t, found[m].node as int, (depth + 1) as nat));
    }
    if cut_short(graph, t, depth) {
        let v = choose|v: int| #[trigger] apart(edges, t, v, (depth + 1) as nat);
        assert(reports(found, v));
        let m = choose|m: int| 0 <= m < found.len() && (#[trigger] found[m]).node == v;
        assert(found[m].valid(sym, ImpactDirection::Downstream, t));
        lemma_one_distance(edges, t, v, (depth + 1) as nat, found[m].hops as nat);
        assert(0 <= m < found.len() && m < found.len() && found[m].hops > depth);
    }
}

/// The candidates for a slice around `target` to depth `depth`, and whether
/// some node lies one hop beyond that depth.
pub fn candidates(graph: &ArborGraph, target: NodeId, depth: usize, pinned_kinds: &Vec<NodeKind>) -> (out: (
    Vec<Candidate>,
    bool,
))
    requires
        graph.wf(),
    ensures
        is_candidates(graph, target.raw as int, depth, pinned_kinds@, out.0@),
        out.1 == cut_short(graph, target.raw as int, depth),
{
    let ghost t = target.raw as int;
    let ghost edges = graph.edges();
    let ghost sym = both_ways(edges);
    let reach_depth = if depth < usize::MAX {
        depth + 1
    } else {
        depth
    };
    let net = Around { graph };
    let found = reach(&net, target, ImpactDirection::Downstream, reach_depth);
    assert(net.links() == sym);
    let (placed, beyond) = place_found(graph, &found, depth);
    let sorted = sort_by_place(&placed);
    proof {
        assert forall|k: int| 0 <= k < sorted@.len() implies backed(graph, found@, depth, #[trigger] sorted@[k]) by {
            assert(sorted@.contains(sorted@[k]));
            assert(placed@.contains(sorted@[k]));
            let p = choose|p: int| 0 <= p < placed@.len() && placed@[p] == sorted@[k];
            assert(backed(graph, found@, depth, placed@[p]));
        }
    }
    let out = candidates_of(graph, &sorted, pinned_kinds, Ghost(found@), Ghost(depth), Ghost(t));
    proof {
        assert forall|a: int, b: int| 0 <= a < b < out@.len() implies comes_before(
            out@[a].place(),
            out@[b].place(),
        ) by {
            assert(comes_before(sorted@[a], sorted@[b]));
        }
        assert forall|v: int, d: nat| 1 <= d <= depth && #[trigger] apart(edges, t, v, d) implies proposes(
            out@,
            v,
        ) by {
            assert(reports(found@, v));
            let m = choose|m: int| 0 <= m < found@.len() && (#[trigger] found@[m]).node == v;
            assert(found@[m].valid(sym, ImpactDirection::Downstream, t));
            lemma_one_distance(edges, t, v, d, found@[m].hops as nat);
            lemma_proposed(found@, placed@, sorted@, out@, depth, m);
        }
        if depth < usize::MAX {
            assert forall|v: int| #[trigger] apart(edges, t, v, (depth + 1) as nat) implies reports(found@, v) by {
                assert(at_distance(sym, ImpactDirection::Downstream, t, v, (depth + 1) as nat));
            }
        }
        lemma_cut_short(graph, t, depth, found@);
    }
    (out, beyond)
}

/// A node that an undirected traversal reached is live.
pub proof fn lemma_found_is_live(graph: &ArborGraph, r: Reached, start: int)
    requires
        graph.wf(),
        r.valid(both_ways(graph.edges()), ImpactDirection::Downstream, start),
    ensures
        graph.nodes().contains_key(r.node as int),
{
    let sym = both_ways(graph.edges());
    let dir = ImpactDirection::Downstream;
    let key = choose|key: int| #[trigger]
        sym.contains_key(key) && sym[key].2.kind == r.entry && far_end(sym[key], dir) == r.node as int
            && at_distance(sym, dir, start, near_end(sym[key], dir), (r.hops - 1) as nat);
    let e = if key >= 0 { key } else { -key - 1 };
    assert(graph.edges().contains_key(e));
    assert(graph.nodes().contains_key(graph.edges()[e].0) && graph.nodes().contains_key(graph.edges()[e].1));
}

/// The tokens spent after the first `k` candidates were considered, and
/// whether the budget has been hit. The target's `first` tokens are spent
/// from the start. A pinned candidate is always taken. Any other is taken
/// while it fits the budget `max`; the first that does not fit hits the
/// budget, and after that no unpinned candidate is taken.
pub open spec fn budget_after(list: Seq<Candidate>, first: nat, max: nat, k: int) -> (nat, bool)
    decreases k,
{
    if k <= 0 || k > list.len() {
        (first, false)
    } else {
        let (spent, hit) = budget_after(list, first, max, k - 1);
        let c = list[k - 1];
        if c.pinned {
            (spent + c.estimate as nat, hit)
        } else if hit {
            (spent, hit)
        } else if spent + c.estimate > max {
            (spent, true)
        } else {
            (spent + c.estimate as nat, false)
        }
    }
}

/// Whether candidate `i` is taken into the slice.
pub open spec fn is_taken(list: Seq<Candidate>, first: nat, max: nat, i: int) -> bool {
    let (spent, hit) = budget_after(list, first, max, i);
    list[i].pinned || (!hit && spent + list[i].estimate <= max)
}

/// The places of the candidates among the first `k` that are taken, in
/// order.
pub open spec fn taken_among(list: Seq<Candidate>, first: nat, max: nat, k: int) -> Seq<int>
    decreases k,
{
    if k <= 0 || k > list.len() {
        Seq::empty()
    } else if is_taken(list, first, max, k - 1) {
        taken_among(list, first, max, k - 1).push(k - 1)
    } else {
        taken_among(list, first, max, k - 1)
    }
}

/// A node of a slice.
#[derive(Debug)]
pub struct ContextNode {
    pub node_id: NodeId,
    pub node_info: NodeInfo,
    /// The node's distance from the target, edges walked in either
    /// direction.
    pub depth: usize,
    /// The tokens the node is estimated to take.
    pub token_estimate: u64,
    /// Whether the node's kind is pinned.
    pub pinned: bool,
}

impl ContextNode {
    /// This node of a slice is the candidate `c`.
    pub open spec fn shows(&self, graph: &ArborGraph, c: Candidate) -> bool {
        &&& self.node_id.raw == c.node
        &&& self.node_info.describes(graph.nodes()[c.node as int], c.score)
        &&& self.depth == c.hops
        &&& self.token_estimate == c.estimate
        &&& self.pinned == c.pinned
    }
}

/// The neighbourhood of a node that fits a token budget.
#[derive(Debug)]
pub struct ContextSlice {
    /// The node the slice is around.
    pub target: NodeInfo,
    /// The target first, then the neighbours that were taken.
    pub nodes: Vec<ContextNode>,
    /// The tokens the nodes are estimated to take together, or the largest
    /// number where the sum does not fit.
    pub total_tokens: u64,
    /// The budget that was asked for.
    pub max_tokens: u64,
    pub truncation_reason: TruncationReason,
    /// How long slicing took, for the caller that timed it to fill in.
    pub query_time_ms: u64,
}

/// The summary line of a slice.
pub open spec fn slice_summary_text(nodes: nat, total: nat, max: nat, reason: TruncationReason) -> Seq<char> {
    "Context: "@ + decimal_text(nodes) + " nodes, "@ + decimal_text(total) + " of "@ + decimal_text(max)
        + " tokens ("@ + reason.label() + ")"@
}

impl ContextSlice {
    /// One line that says how many nodes the slice holds, how many tokens of
    /// the budget they take, and why the slice holds no more.
    pub fn summary(&self) -> (out: String)
        ensures
            out@ == slice_summary_text(
                self.nodes@.len(),
                self.total_tokens as nat,
                self.max_tokens as nat,
                self.truncation_reason,
            ),
    {
        let mut out = String::from_str("Context: ");
        out.append(decimal(self.nodes.len()).as_str());
        out.append(" nodes, ");
        out.append(crate::text::decimal64(self.total_tokens).as_str());
        out.append(" of ");
        out.append(crate::text::decimal64(self.max_tokens).as_str());
        out.append(" tokens (");
        out.append(self.truncation_reason.as_str());
        out.append(")");
        out
    }
}

/// A number of tokens, or the largest number where it does not fit.
pub open spec fn capped(n: nat) -> u64 {
    if n <= u64::MAX {
        n as u64
    } else {
        u64::MAX
    }
}

/// Why a slice holds no more than it does: the budget was hit, or else
/// nodes lie beyond the depth, or else nothing is left.
pub open spec fn reason_for(hit: bool, beyond: bool) -> TruncationReason {
    if hit {
        TruncationReason::Budget
    } else if beyond {
        TruncationReason::DepthReached
    } else {
        TruncationReason::Exhausted
    }
}

/// `slice` is the slice of `list`, the candidates around the node under
/// `target`, for the budget `max`, where `beyond` says whether nodes lie
/// beyond the depth that was searched.
pub open spec fn slices(
    graph: &ArborGraph,
    target: int,
    list: Seq<Candidate>,
    pinned_kinds: Seq<NodeKind>,
    max: u64,
    beyond: bool,
    slice: ContextSlice,
) -> bool {
    let t = graph.nodes()[target];
    let first = token_estimate(t.line_start, t.line_end);
    let end = budget_after(list, first, max as nat, list.len() as int);
    let taken = taken_among(list, first, max as nat, list.len() as int);
    &&& slice.target.describes(t, graph.score_of(target as usize))
    &&& slice.nodes@.len() == 1 + taken.len()
    &&& slice.nodes@[0].node_id.raw == target
    &&& slice.nodes@[0].node_info.describes(t, graph.score_of(target as usize))
    &&& slice.nodes@[0].depth == 0
    &&& slice.nodes@[0].token_estimate == first
    &&& slice.nodes@[0].pinned == pinned_kinds.contains(t.kind)
    &&& forall|j: int| 0 <= j < taken.len() ==> (#[trigger] slice.nodes@[1 + j]).shows(graph, list[taken[j]])
    &&& slice.total_tokens == capped(end.0)
    &&& slice.truncation_reason == reason_for(end.1, beyond)
}

impl ArborGraph {
    /// The slice of context around the node under `target`: the target,
    /// then the nodes within `max_depth` hops in either direction, nearest
    /// first and of equally near ones the most central first, for as long
    /// as their estimated tokens fit `max_tokens`. The target is always
    /// taken, and so is every node whose kind is one of `pinned_kinds`. A
    /// `max_depth` of zero sets no limit. For a target that is not live the
    /// slice is empty.
    pub fn slice_context(&self, target: NodeId, max_tokens: u64, max_depth: usize, pinned_kinds: &Vec<NodeKind>) -> (out:
        ContextSlice)
        requires
            self.wf(),
        ensures
            out.max_tokens == max_tokens,
            out.query_time_ms == 0,
            !self.nodes().contains_key(target.raw as int) ==> out.target.is_blank() && out.nodes@.len() == 0
                && out.total_tokens == 0 && out.truncation_reason == TruncationReason::Exhausted,
            self.nodes().contains_key(target.raw as int) ==> exists|list: Seq<Candidate>| #[trigger]
                is_candidates(self, target.raw as int, effective_depth(max_depth), pinned_kinds@, list) && slices(
                    self,
                    target.raw as int,
                    list,
                    pinned_kinds@,
                    max_tokens,
                    cut_short(self, target.raw as int, effective_depth(max_depth)),
                    out,
                ),
    {
        let node = match self.get(target) {
            Some(node) => node,
            None => {
                return ContextSlice {
                    target: NodeInfo::blank(),
                    nodes: Vec::new(),
                    total_tokens: 0,
                    max_tokens,
                    truncation_reason: TruncationReason::Exhausted,
                    query_time_ms: 0,
                };
            },
        };
        let depth = if max_depth == 0 {
            usize::MAX
        } else {
            max_depth
        };
        let score = self.centrality(target);
        let first = estimate_tokens(node.line_start, node.line_end);
        let (list, beyond) = candidates(self, target, depth, pinned_kinds);
        let mut nodes: Vec<ContextNode> = Vec::new();
        nodes.push(
            ContextNode {
                node_id: target,
                node_info: NodeInfo::with_score(node, score),
                depth: 0,
                token_estimate: first,
                pinned: kind_listed(pinned_kinds, node.kind),
            },
        );
        let ghost head = nodes@[0];
        let mut total: u64 = first;
        let mut over = false;
        let mut hit = false;
        let mut i: usize = 0;
        let ghost t = target.raw as int;
        let ghost f = first as nat;
        let ghost m = max_tokens as nat;
        while i < list.len()
            invariant
                self.wf(),
                i <= list.len(),
                f == first as nat,
                m == max_tokens as nat,
                forall|k: int| 0 <= k < list@.len() ==> (#[trigger] list@[k]).fits(self, t, pinned_kinds@),
                hit == budget_after(list@, f, m, i as int).1,
                !over ==> total == budget_after(list@, f, m, i as int).0,
                over ==> budget_after(list@, f, m, i as int).0 > u64::MAX && total == u64::MAX,
                nodes@.len() == 1 + taken_among(list@, f, m, i as int).len(),
                nodes@[0] == head,
                forall|j: int|
                    0 <= j < taken_among(list@, f, m, i as int).len() ==> (#[trigger] nodes@[1 + j]).shows(
                        self,
                        list@[taken_among(list@, f, m, i as int)[j]],
                    ),
            decreases list.len() - i,
        {
            let c = list[i];
            let ghost before = nodes@;
            let ghost taken0 = taken_among(list@, f, m, i as int);
            let fits = !over && total <= max_tokens && c.estimate <= max_tokens - total;
            let take = c.pinned || (!hit && fits);
            proof {
                assert(take == is_taken(list@, f, m, i as int));
                assert(list@[i as int].fits(self, t, pinned_kinds@));
            }
            if take {
                let n = self.get(NodeId::new(c.node)).unwrap();
                nodes.push(
                    ContextNode {
                        node_id: NodeId::new(c.node),
                        node_info: NodeInfo::with_score(n, c.score),
                        depth: c.hops,
                        token_estimate: c.estimate,
                        pinned: c.pinned,
                    },
                );
                if !over {
                    match total.checked_add(c.estimate) {
                        Some(sum) => {
                            total = sum;
                        },
                        None => {
                            over = true;
                            total = u64::MAX;
                        },
                    }
                }
            } else if !hit {
                hit = true;
            }
            proof {
                let taken1 = taken_among(list@, f, m, i + 1);
                assert(nodes@[0] == before[0]);
                assert forall|j: int| 0 <= j < taken1.len() implies (#[trigger] nodes@[1 + j]).shows(
                    self,
                    list@[taken1[j]],
                ) by {
                    if j < taken0.len() {
                        assert(nodes@[1 + j] == before[1 + j]);
                        assert(taken1[j] == taken0[j]);
                    }
                }
            }
            i = i + 1;
        }
        let out = ContextSlice {
            target: NodeInfo::with_score(node, score),
            nodes,
            total_tokens: total,
            max_tokens,
            truncation_reason: if hit {
                TruncationReason::Budget
            } else if beyond {
                TruncationReason::DepthReached
            } else {
                TruncationReason::Exhausted
            },
            query_time_ms: 0,
        };
        proof {
            assert(is_candidates(self, t, effective_depth(max_depth), pinned_kinds@, list@));
            assert(slices(self, t, list@, pinned_kinds@, max_tokens, beyond, out));
        }
        out
    }
}

} // verus!
