//! Breadth-first traversal of the graph, and what it means for one node to
//! lie a number of hops from another.

use vstd::prelude::*;
use std::collections::HashSet;
use crate::edge::{Edge, EdgeKind};
use crate::node::NodeId;
use crate::topology::{ImpactDirection, far_end, near_end};

verus! {

broadcast use vstd::std_specs::hash::group_hash_axioms;

/// Some edge leads from `u` to `v` when followed in direction `dir`.
pub open spec fn step(edges: Map<int, (int, int, Edge)>, dir: ImpactDirection, u: int, v: int) -> bool {
    exists|e: int| #[trigger]
        edges.contains_key(e) && near_end(edges[e], dir) == u && far_end(edges[e], dir) == v
}

/// Some walk of exactly `k` edges leads from `from` to `to`.
pub open spec fn reach_in(
    edges: Map<int, (int, int, Edge)>,
    dir: ImpactDirection,
    from: int,
    to: int,
    k: nat,
) -> bool
    decreases k,
{
    if k == 0 {
        from == to
    } else {
        exists|mid: int|
            reach_in(edges, dir, from, mid, (k - 1) as nat) && #[trigger] step(edges, dir, mid, to)
    }
}

/// Some walk of at most `k` edges leads from `from` to `to`.
pub open spec fn within(
    edges: Map<int, (int, int, Edge)>,
    dir: ImpactDirection,
    from: int,
    to: int,
    k: nat,
) -> bool {
    exists|j: nat| j <= k && #[trigger] reach_in(edges, dir, from, to, j)
}

/// The shortest walk from `from` to `to` has exactly `d` edges.
pub open spec fn at_distance(
    edges: Map<int, (int, int, Edge)>,
    dir: ImpactDirection,
    from: int,
    to: int,
    d: nat,
) -> bool {
    reach_in(edges, dir, from, to, d) && forall|j: nat|
        j < d ==> !#[trigger] reach_in(edges, dir, from, to, j)
}

/// A node at distance `d + 1` has a predecessor at distance `d`.
pub proof fn lemma_predecessor(
    edges: Map<int, (int, int, Edge)>,
    dir: ImpactDirection,
    from: int,
    to: int,
    d: nat,
) -> (mid: int)
    requires
        at_distance(edges, dir, from, to, d + 1),
    ensures
        at_distance(edges, dir, from, mid, d),
        step(edges, dir, mid, to),
{
    let mid = choose|mid: int|
        reach_in(edges, dir, from, mid, d) && #[trigger] step(edges, dir, mid, to);
    assert forall|j: nat| j < d implies !#[trigger] reach_in(edges, dir, from, mid, j) by {
        if reach_in(edges, dir, from, mid, j) {
            assert(reach_in(edges, dir, from, mid, ((j + 1) - 1) as nat) && step(edges, dir, mid, to));
            assert(reach_in(edges, dir, from, to, j + 1));
        }
    }
    mid
}

/// A step from a node at distance `d` leads to a node within `d + 1` hops.
pub proof fn lemma_successor(
    edges: Map<int, (int, int, Edge)>,
    dir: ImpactDirection,
    from: int,
    mid: int,
    to: int,
    d: nat,
)
    requires
        reach_in(edges, dir, from, mid, d),
        step(edges, dir, mid, to),
    ensures
        reach_in(edges, dir, from, to, d + 1),
        !within(edges, dir, from, to, d) ==> at_distance(edges, dir, from, to, d + 1),
{
    assert(reach_in(edges, dir, from, mid, ((d + 1) - 1) as nat) && step(edges, dir, mid, to));
}

/// If no node lies at distance `d`, none lies farther.
pub proof fn lemma_no_farther(
    edges: Map<int, (int, int, Edge)>,
    dir: ImpactDirection,
    from: int,
    d: nat,
    far: nat,
    to: int,
)
    requires
        forall|v: int| !at_distance(edges, dir, from, v, d),
        far >= d,
    ensures
        !at_distance(edges, dir, from, to, far),
    decreases far,
{
    if far > d && at_distance(edges, dir, from, to, far) {
        let mid = lemma_predecessor(edges, dir, from, to, (far - 1) as nat);
        lemma_no_farther(edges, dir, from, d, (far - 1) as nat, mid);
    }
}

/// A node within `d + 1` hops is within `d` hops or at distance `d + 1`.
pub proof fn lemma_within_next(
    edges: Map<int, (int, int, Edge)>,
    dir: ImpactDirection,
    from: int,
    to: int,
    d: nat,
)
    ensures
        within(edges, dir, from, to, d + 1) <==> within(edges, dir, from, to, d) || at_distance(
            edges,
            dir,
            from,
            to,
            d + 1,
        ),
{
    if within(edges, dir, from, to, d + 1) && !within(edges, dir, from, to, d) {
        let j = choose|j: nat| j <= d + 1 && #[trigger] reach_in(edges, dir, from, to, j);
        assert(j == d + 1);
    }
    if within(edges, dir, from, to, d) {
        let j = choose|j: nat| j <= d && #[trigger] reach_in(edges, dir, from, to, j);
        assert(j <= d + 1 && reach_in(edges, dir, from, to, j));
    }
}

/// A node that a traversal reached.
#[derive(Clone, Copy, Debug)]
pub struct Reached {
    /// The handle of the node.
    pub node: usize,
    /// The length of the shortest walk from the start to the node.
    pub hops: usize,
    /// The kind of the edge over which the node was first reached.
    pub entry: EdgeKind,
}

impl Reached {
    /// The node lies `hops` hops from `start`, and was entered over an edge of
    /// kind `entry` from a node one hop nearer.
    pub open spec fn valid(self, edges: Map<int, (int, int, Edge)>, dir: ImpactDirection, start: int) -> bool {
        &&& self.hops >= 1
        &&& at_distance(edges, dir, start, self.node as int, self.hops as nat)
        &&& exists|e: int| #[trigger]
            edges.contains_key(e) && edges[e].2.kind == self.entry && far_end(edges[e], dir)
                == self.node as int && at_distance(
                edges,
                dir,
                start,
                near_end(edges[e], dir),
                (self.hops - 1) as nat,
            )
    }
}

/// A node at which an edge arrives, and the kind of that edge.
#[derive(Clone, Copy, Debug)]
pub struct Arrival {
    pub node: usize,
    pub kind: EdgeKind,
}

/// Some edge of kind `a.kind` leads from `u` to `a.node` when followed in
/// direction `dir`.
pub open spec fn arrives(edges: Map<int, (int, int, Edge)>, dir: ImpactDirection, u: int, a: Arrival) -> bool {
    exists|e: int| #[trigger]
        edges.contains_key(e) && near_end(edges[e], dir) == u && far_end(edges[e], dir) == a.node as int
            && edges[e].2.kind == a.kind
}

/// `list` holds an arrival at `v`.
pub open spec fn lists_arrival(list: Seq<Arrival>, v: int) -> bool {
    exists|i: int| 0 <= i < list.len() && (#[trigger] list[i]).node == v
}

/// Something a traversal can walk: a set of edges, and a way to list where
/// the edges at a node lead.
pub trait Neighborhood {
    /// The edges that a traversal walks, by edge index: source, target and
    /// weight.
    spec fn links(&self) -> Map<int, (int, int, Edge)>;

    /// What must hold of the neighbourhood for it to be walked.
    spec fn ok(&self) -> bool;

    /// Where the edges at `u` lead when followed in direction `dir`, with
    /// the kind of each: every node an edge leads to is listed, and nothing
    /// else.
    fn arrivals(&self, u: usize, dir: ImpactDirection) -> (out: Vec<Arrival>)
        requires
            self.ok(),
        ensures
            forall|i: int| 0 <= i < out@.len() ==> arrives(self.links(), dir, u as int, #[trigger] out@[i]),
            forall|e: int| #[trigger]
                self.links().contains_key(e) && near_end(self.links()[e], dir) == u as int ==> lists_arrival(
                    out@,
                    far_end(self.links()[e], dir),
                ),
    ;
}

/// `list` holds `v`.
pub open spec fn lists_node(list: Seq<usize>, v: int) -> bool {
    exists|k: int| 0 <= k < list.len() && #[trigger] list[k] == v
}

/// `out` reports node `v`.
pub open spec fn reports(out: Seq<Reached>, v: int) -> bool {
    exists|k: int| 0 <= k < out.len() && (#[trigger] out[k]).node == v
}

/// `v` is a handle that `seen` holds.
pub open spec fn marked(seen: Set<usize>, v: int) -> bool {
    0 <= v <= usize::MAX && seen.contains(v as usize)
}

/// The nodes within `max_depth` hops of `start` in direction `dir`, `start`
/// itself excluded, nearest first. Each node is reported once, with its
/// distance and the kind of the edge over which it was first reached. Every
/// node is visited at most once, so cycles end the search rather than
/// prolong it.
pub fn reach<N: Neighborhood>(net: &N, start: NodeId, dir: ImpactDirection, max_depth: usize) -> (out: Vec<
    Reached,
>)
    requires
        net.ok(),
    ensures
        forall|i: int|
            0 <= i < out@.len() ==> (#[trigger] out@[i]).valid(net.links(), dir, start.raw as int)
                && out@[i].hops <= max_depth,
        forall|i: int, j: int| 0 <= i < j < out@.len() ==> out@[i].node != out@[j].node && out@[i].hops <= out@[j].hops,
        forall|v: int, d: nat|
            1 <= d <= max_depth && #[trigger] at_distance(net.links(), dir, start.raw as int, v, d)
                ==> reports(out@, v),
{
    let ghost edges = net.links();
    let ghost s = start.raw as int;
    let mut out: Vec<Reached> = Vec::new();
    let mut seen: HashSet<usize> = HashSet::new();
    seen.insert(start.raw);
    let mut frontier: Vec<usize> = Vec::new();
    frontier.push(start.raw);
    let mut depth: usize = 0;
    proof {
        assert(reach_in(edges, dir, s, s, 0));
        assert forall|v: int| marked(seen@, v) <==> within(edges, dir, s, v, 0) by {
            if within(edges, dir, s, v, 0) {
                let j = choose|j: nat| j <= 0 && #[trigger] reach_in(edges, dir, s, v, j);
                assert(j == 0);
            }
        }
        assert forall|v: int| lists_node(frontier@, v) <==> at_distance(edges, dir, s, v, 0) by {
            if at_distance(edges, dir, s, v, 0) {
                assert(frontier@[0] == v);
            }
        }
    }
    while depth < max_depth && frontier.len() > 0
        invariant
            net.ok(),
            edges == net.links(),
            s == start.raw as int,
            depth <= max_depth,
            forall|v: int| marked(seen@, v) <==> within(edges, dir, s, v, depth as nat),
            forall|v: int| lists_node(frontier@, v) <==> at_distance(edges, dir, s, v, depth as nat),
            forall|i: int| 0 <= i < out@.len() ==> (#[trigger] out@[i]).valid(edges, dir, s) && out@[i].hops <= depth,
            forall|i: int, j: int| 0 <= i < j < out@.len() ==> out@[i].node != out@[j].node && out@[i].hops <= out@[j].hops,
            forall|v: int, d: nat|
                1 <= d <= depth && #[trigger] at_distance(edges, dir, s, v, d) ==> reports(out@, v),
        decreases max_depth - depth,
    {
        let mut next: Vec<usize> = Vec::new();
        let mut a: usize = 0;
        while a < frontier.len()
            invariant
                net.ok(),
                edges == net.links(),
                s == start.raw as int,
                depth < max_depth,
                a <= frontier.len(),
                forall|v: int| lists_node(frontier@, v) <==> at_distance(edges, dir, s, v, depth as nat),
                forall|v: int| marked(seen@, v) <==> within(edges, dir, s, v, depth as nat) || lists_node(next@, v),
                forall|k: int| 0 <= k < next@.len() ==> at_distance(edges, dir, s, #[trigger] next@[k] as int, (depth + 1) as nat),
                forall|v: int| lists_node(next@, v) ==> reports(out@, v),
                forall|i: int|
                    0 <= i < out@.len() ==> (#[trigger] out@[i]).valid(edges, dir, s) && out@[i].hops <= depth + 1,
                forall|i: int| 0 <= i < out@.len() ==> marked(seen@, (#[trigger] out@[i]).node as int),
                forall|i: int, j: int| 0 <= i < j < out@.len() ==> out@[i].node != out@[j].node && out@[i].hops <= out@[j].hops,
                forall|v: int, d: nat|
                    1 <= d <= depth && #[trigger] at_distance(edges, dir, s, v, d) ==> reports(out@, v),
                forall|k: int, e: int|
                    0 <= k < a && #[trigger] edges.contains_key(e) && near_end(edges[e], dir) == #[trigger] frontier@[k] as int
                        ==> marked(seen@, far_end(edges[e], dir)),
            decreases frontier.len() - a,
        {
            let u = frontier[a];
            proof {
                assert(lists_node(frontier@, u as int));
            }
            let hits = net.arrivals(u, dir);
            let mut b: usize = 0;
            while b < hits.len()
                invariant
                    net.ok(),
                    edges == net.links(),
                    s == start.raw as int,
                    depth < max_depth,
                    a < frontier.len(),
                    u == frontier@[a as int],
                    at_distance(edges, dir, s, u as int, depth as nat),
                    b <= hits.len(),
                    forall|i: int| 0 <= i < hits@.len() ==> arrives(edges, dir, u as int, #[trigger] hits@[i]),
                    forall|v: int| marked(seen@, v) <==> within(edges, dir, s, v, depth as nat) || lists_node(next@, v),
                    forall|k: int| 0 <= k < next@.len() ==> at_distance(edges, dir, s, #[trigger] next@[k] as int, (depth + 1) as nat),
                    forall|v: int| lists_node(next@, v) ==> reports(out@, v),
                    forall|i: int|
                        0 <= i < out@.len() ==> (#[trigger] out@[i]).valid(edges, dir, s) && out@[i].hops <= depth + 1,
                    forall|i: int| 0 <= i < out@.len() ==> marked(seen@, (#[trigger] out@[i]).node as int),
                    forall|i: int, j: int| 0 <= i < j < out@.len() ==> out@[i].node != out@[j].node && out@[i].hops <= out@[j].hops,
                    forall|v: int, d: nat|
                        1 <= d <= depth && #[trigger] at_distance(edges, dir, s, v, d) ==> reports(out@, v),
                    forall|k: int, e: int|
                        0 <= k < a && #[trigger] edges.contains_key(e) && near_end(edges[e], dir) == #[trigger] frontier@[k] as int
                            ==> marked(seen@, far_end(edges[e], dir)),
                    forall|i: int| 0 <= i < b ==> marked(seen@, (#[trigger] hits@[i]).node as int),
                decreases hits.len() - b,
            {
                let hit = hits[b];
                let v = hit.node;
                proof {
                    assert(arrives(edges, dir, u as int, hit));
                    let e = choose|e: int| #[trigger]
                        edges.contains_key(e) && near_end(edges[e], dir) == u as int && far_end(edges[e], dir)
                            == hit.node as int && edges[e].2.kind == hit.kind;
                    assert(edges.contains_key(e) && near_end(edges[e], dir) == u as int && far_end(edges[e], dir) == v as int);
                    assert(step(edges, dir, u as int, v as int));
                    lemma_successor(edges, dir, s, u as int, v as int, depth as nat);
                }
                if !seen.contains(&v) {
                    let ghost seen0 = seen@;
                    let ghost next0 = next@;
                    let ghost outp = out@;
                    seen.insert(v);
                    next.push(v);
                    out.push(Reached { node: v, hops: depth + 1, entry: hit.kind });
                    proof {
                        assert(!marked(seen0, v as int));
                        assert(!within(edges, dir, s, v as int, depth as nat));
                        assert(at_distance(edges, dir, s, v as int, (depth + 1) as nat));
                        let r = out@[outp.len() as int];
                        assert(r.valid(edges, dir, s)) by {
                            let e = choose|e: int| #[trigger]
                                edges.contains_key(e) && near_end(edges[e], dir) == u as int && far_end(edges[e], dir)
                                    == hit.node as int && edges[e].2.kind == hit.kind;
                            assert(edges.contains_key(e) && edges[e].2.kind == r.entry && far_end(edges[e], dir)
                                == r.node as int && at_distance(edges, dir, s, near_end(edges[e], dir), (r.hops - 1) as nat));
                        }
                        assert forall|x: int| lists_node(next@, x) <==> lists_node(next0, x) || x == v by {
                            if lists_node(next@, x) {
                                let k = choose|k: int| 0 <= k < next@.len() && #[trigger] next@[k] == x;
                                if k < next0.len() {
                                    assert(next0[k] == x);
                                }
                            }
                            if lists_node(next0, x) {
                                let k = choose|k: int| 0 <= k < next0.len() && #[trigger] next0[k] == x;
                                assert(next@[k] == x);
                            }
                            if x == v {
                                assert(next@[next0.len() as int] == x);
                            }
                        }
                        assert forall|x: int| reports(outp, x) implies reports(out@, x) by {
                            let k = choose|k: int| 0 <= k < outp.len() && (#[trigger] outp[k]).node == x;
                            assert(out@[k].node == x);
                        }
                        assert(reports(out@, v as int)) by {
                            assert(out@[outp.len() as int].node == v);
                        }
                        assert forall|x: int| marked(seen@, x) <==> within(edges, dir, s, x, depth as nat) || lists_node(next@, x) by {
                            assert(marked(seen@, x) <==> marked(seen0, x) || x == v);
                            assert(marked(seen0, x) <==> within(edges, dir, s, x, depth as nat) || lists_node(next0, x));
                            assert(lists_node(next@, x) <==> lists_node(next0, x) || x == v);
                        }
                        assert forall|x: int| lists_node(next@, x) implies reports(out@, x) by {
                            assert(lists_node(next@, x) <==> lists_node(next0, x) || x == v);
                            if lists_node(next0, x) {
                                assert(reports(outp, x));
                            }
                        }
                        assert forall|i: int, j: int| 0 <= i < j < out@.len() implies out@[i].node != out@[j].node && out@[i].hops <= out@[j].hops by {
                            if j == outp.len() {
                                assert(marked(seen0, outp[i].node as int));
                            }
                        }
                        assert forall|i: int| 0 <= i < out@.len() implies marked(seen@, (#[trigger] out@[i]).node as int) by {
                            if i < outp.len() {
                                assert(marked(seen0, outp[i].node as int));
                            }
                        }
                        assert forall|k: int, e: int|
                            0 <= k < a && #[trigger] edges.contains_key(e) && near_end(edges[e], dir) == #[trigger] frontier@[k] as int
                                implies marked(seen@, far_end(edges[e], dir)) by {
                            assert(marked(seen0, far_end(edges[e], dir)));
                        }
                        assert forall|i: int| 0 <= i < b + 1 implies marked(seen@, (#[trigger] hits@[i]).node as int) by {
                            if i < b {
                                assert(marked(seen0, hits@[i].node as int));
                            }
                        }
                    }
                }
                b = b + 1;
            }
            proof {
                assert forall|k: int, e: int|
                    0 <= k < a + 1 && #[trigger] edges.contains_key(e) && near_end(edges[e], dir) == #[trigger] frontier@[k] as int
                        implies marked(seen@, far_end(edges[e], dir)) by {
                    if k == a {
                        assert(lists_arrival(hits@, far_end(edges[e], dir)));
                        let i = choose|i: int| 0 <= i < hits@.len() && (#[trigger] hits@[i]).node == far_end(edges[e], dir);
                        assert(marked(seen@, hits@[i].node as int));
                    }
                }
            }
            a = a + 1;
        }
        proof {
            let d1 = (depth + 1) as nat;
            assert forall|v: int| lists_node(next@, v) <==> at_distance(edges, dir, s, v, d1) by {
                if at_distance(edges, dir, s, v, d1) {
                    let mid = lemma_predecessor(edges, dir, s, v, depth as nat);
                    assert(lists_node(frontier@, mid));
                    let k = choose|k: int| 0 <= k < frontier@.len() && #[trigger] frontier@[k] == mid;
                    let e = choose|e: int| #[trigger]
                        edges.contains_key(e) && near_end(edges[e], dir) == mid && far_end(edges[e], dir) == v;
                    assert(edges.contains_key(e) && near_end(edges[e], dir) == frontier@[k] as int);
                    assert(marked(seen@, far_end(edges[e], dir)));
                    if within(edges, dir, s, v, depth as nat) {
                        let j = choose|j: nat| j <= depth as nat && #[trigger] reach_in(edges, dir, s, v, j);
                        assert(false);
                    }
                }
                if lists_node(next@, v) {
                    let k = choose|k: int| 0 <= k < next@.len() && #[trigger] next@[k] == v;
                    assert(at_distance(edges, dir, s, next@[k] as int, d1));
                }
            }
            assert forall|v: int| marked(seen@, v) <==> within(edges, dir, s, v, d1) by {
                lemma_within_next(edges, dir, s, v, depth as nat);
            }
            assert forall|v: int, d: nat|
                1 <= d <= depth + 1 && #[trigger] at_distance(edges, dir, s, v, d) implies reports(out@, v) by {
                if d == depth + 1 {
                    assert(lists_node(next@, v));
                }
            }
        }
        frontier = next;
        depth = depth + 1;
    }
    proof {
        assert forall|v: int, d: nat|
            1 <= d <= max_depth && #[trigger] at_distance(edges, dir, s, v, d) implies reports(out@, v) by {
            if d > depth {
                assert(frontier@.len() == 0);
                assert forall|x: int| !at_distance(edges, dir, s, x, depth as nat) by {
                    if at_distance(edges, dir, s, x, depth as nat) {
                        assert(lists_node(frontier@, x));
                    }
                }
                lemma_no_farther(edges, dir, s, depth as nat, d, v);
            }
        }
    }
    out
}

} // verus!
