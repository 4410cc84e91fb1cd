//! Snapshots: a graph as plain values, and the graph rebuilt from them.
//!
//! A snapshot holds a copy of every node and, for every edge, the ids of its
//! endpoints and its weight. It holds no index: rebuilding a graph from a
//! snapshot rebuilds the indexes. Handles are not kept either, so a rebuilt
//! graph agrees with the graph it was taken of by id, not by handle.

use vstd::prelude::*;
use vstd::string::*;
use crate::fanout::{copies, copy_of_live};
use crate::edge::{Edge, EdgeKind};
use crate::graph::{ArborGraph, GraphView};
use crate::indexer::{FreshView, add_symbols, fresh_views, planted, planted_at, planted_one};
use crate::node::{CodeNode, NodeId};
use crate::topology::{EdgeHit, MAX_HANDLE};

verus! {

/// An edge of a snapshot: the ids of its endpoints and its weight.
#[derive(Debug)]
pub struct SnapshotEdge {
    pub source: String,
    pub target: String,
    pub edge: Edge,
}

/// A graph as plain values.
#[derive(Debug)]
pub struct Snapshot {
    pub nodes: Vec<CodeNode>,
    pub edges: Vec<SnapshotEdge>,
}

/// `index` lists the edge indexes of `edges`, each once.
pub open spec fn enumerates(edges: Map<int, (int, int, Edge)>, index: Seq<int>) -> bool {
    &&& index.no_duplicates()
    &&& forall|i: int| 0 <= i < index.len() ==> edges.contains_key(#[trigger] index[i])
    &&& forall|e: int| #[trigger] edges.contains_key(e) ==> index.contains(e)
}

/// The snapshot edge `s` pictures `edge`, an edge between nodes of `nodes`.
pub open spec fn pictures(nodes: Map<int, CodeNode>, edge: (int, int, Edge), s: SnapshotEdge) -> bool {
    s.source@ == nodes[edge.0].id@ && s.target@ == nodes[edge.1].id@ && s.edge == edge.2
}

/// No two nodes of `list` have the same id.
pub open spec fn distinct_ids(list: Seq<CodeNode>) -> bool {
    forall|i: int, j: int| 0 <= i < j < list.len() ==> list[i].id@ != list[j].id@
}

/// The edges of `s` picture the edges that `index` lists, in order.
pub open spec fn pictured_edges(graph: &ArborGraph, s: Seq<SnapshotEdge>, index: Seq<int>) -> bool {
    &&& enumerates(graph.edges(), index)
    &&& index.len() == s.len()
    &&& forall|i: int|
        0 <= i < s.len() ==> pictures(graph.nodes(), graph.edges()[index[i]], #[trigger] s[i])
}

/// The snapshot `s` pictures `graph`: it holds a copy of each node, once,
/// and a picture of each edge, once.
pub open spec fn pictured_by(graph: &ArborGraph, s: Snapshot) -> bool {
    &&& s.nodes@.len() == graph.nodes().len()
    &&& distinct_ids(s.nodes@)
    &&& forall|i: int| 0 <= i < s.nodes@.len() ==> copy_of_live(graph.nodes(), #[trigger] s.nodes@[i])
    &&& forall|h: int| #[trigger] graph.nodes().contains_key(h) ==> copies(s.nodes@, graph.nodes()[h])
    &&& exists|index: Seq<int>| #[trigger] pictured_edges(graph, s.edges@, index)
}

/// The links that the snapshot edges `edges` call for among nodes with the
/// ids `ids`, in order: an edge whose endpoints both have an id in `ids`
/// becomes a link between their handles.
pub open spec fn wanted_links(ids: Map<Seq<char>, usize>, edges: Seq<SnapshotEdge>) -> Seq<(int, int, Edge)>
    decreases edges.len(),
{
    if edges.len() == 0 {
        Seq::empty()
    } else {
        let before = wanted_links(ids, edges.drop_last());
        let last = edges.last();
        if ids.contains_key(last.source@) && ids.contains_key(last.target@) {
            before.push((ids[last.source@] as int, ids[last.target@] as int, last.edge))
        } else {
            before
        }
    }
}

/// The edges that `index` lists are the first links of `links`, in order.
pub open spec fn wired(edges: Map<int, (int, int, Edge)>, links: Seq<(int, int, Edge)>, index: Seq<int>) -> bool {
    &&& enumerates(edges, index)
    &&& index.len() <= links.len()
    &&& forall|j: int| 0 <= j < index.len() ==> edges[#[trigger] index[j]] == links[j]
}

/// The graph that holds nothing.
pub open spec fn empty_view() -> GraphView {
    GraphView {
        nodes: Map::empty(),
        edges: Map::empty(),
        ids: Map::empty(),
        table: Map::empty(),
        scores: Map::empty(),
    }
}

/// `graph` is what rebuilding from the snapshot `s` yields: the nodes of the
/// snapshot were offered one by one to an empty graph, and then the links
/// that its edges call for were added in order, all of them unless the edge
/// indexes ran out.
pub open spec fn restored_from(graph: &ArborGraph, s: Snapshot) -> bool {
    exists|fresh: Seq<FreshView>, index: Seq<int>| #[trigger]
        restored_via(graph, s, fresh, index)
}

/// `graph` is what rebuilding from the snapshot `s` yields, where `fresh`
/// lists the nodes that were stored and `index` the edges that were added.
pub open spec fn restored_via(graph: &ArborGraph, s: Snapshot, fresh: Seq<FreshView>, index: Seq<int>) -> bool {
    let links = wanted_links(graph.ids(), s.edges@);
    &&& planted(
        empty_view(),
        GraphView { edges: Map::empty(), scores: Map::empty(), ..graph@ },
        s.nodes@,
        fresh,
    )
    &&& graph.scores() == Map::<usize, u64>::empty()
    &&& wired(graph.edges(), links, index)
    &&& index.len() == links.len() || graph.edges().len() >= MAX_HANDLE
}

/// The node ids of a list of hits become a list of edge indexes.
pub open spec fn hit_index(hits: Seq<EdgeHit>) -> Seq<int> {
    Seq::new(hits.len(), |i: int| hits[i].edge as int)
}

impl ArborGraph {
    /// The graph as plain values: a copy of every node, in ascending order
    /// of handle, and a picture of every edge, in ascending order of edge
    /// index.
    pub fn snapshot(&self) -> (out: Snapshot)
        requires
            self.wf(),
        ensures
            pictured_by(self, out),
    {
        let handles = self.node_indexes();
        let mut nodes: Vec<CodeNode> = Vec::new();
        let mut i: usize = 0;
        while i < handles.len()
            invariant
                self.wf(),
                i <= handles.len(),
                nodes@.len() == i,
                forall|k: int| 0 <= k < handles@.len() ==> self.nodes().contains_key((#[trigger] handles@[k]).raw as int),
                forall|k: int| 0 <= k < i ==> (#[trigger] nodes@[k])@ == self.nodes()[handles@[k].raw as int]@,
            decreases handles.len() - i,
        {
            nodes.push(self.get(handles[i]).unwrap().clone());
            i = i + 1;
        }
        let hits = self.edge_hits();
        let mut edges: Vec<SnapshotEdge> = Vec::new();
        let mut j: usize = 0;
        while j < hits.len()
            invariant
                self.wf(),
                j <= hits.len(),
                edges@.len() == j,
                forall|k: int| 0 <= k < hits@.len() ==> (#[trigger] hits@[k]).is_in(self.edges()),
                forall|k: int|
                    0 <= k < j ==> pictures(self.nodes(), self.edges()[hits@[k].edge as int], #[trigger] edges@[k]),
            decreases hits.len() - j,
        {
            let hit = hits[j];
            proof {
                assert(hit.is_in(self.edges()));
                assert(self.edges().contains_key(hit.edge as int));
            }
            let source = self.get(NodeId::new(hit.source)).unwrap().id.clone();
            let target = self.get(NodeId::new(hit.target)).unwrap().id.clone();
            let edge = self.edge_at(hit.edge).unwrap().clone();
            edges.push(SnapshotEdge { source, target, edge });
            j = j + 1;
        }
        let out = Snapshot { nodes, edges };
        proof {
            let index = hit_index(hits@);
            assert(enumerates(self.edges(), index)) by {
                assert forall|a: int, b: int| 0 <= a < index.len() && 0 <= b < index.len() && a != b implies index[a]
                    != index[b] by {
                    if a < b {
                        assert(hits@[a].edge < hits@[b].edge);
                    } else {
                        assert(hits@[b].edge < hits@[a].edge);
                    }
                }
                assert forall|k: int| 0 <= k < index.len() implies self.edges().contains_key(
                    #[trigger] index[k],
                ) by {
                    assert(hits@[k].is_in(self.edges()));
                }
                assert forall|e: int| #[trigger] self.edges().contains_key(e) implies index.contains(e) by {
                    let k = choose|k: int| 0 <= k < hits@.len() && #[trigger] hits@[k].edge == e;
                    assert(index[k] == e);
                }
            }
            assert(pictured_edges(self, out.edges@, index));
            assert(distinct_ids(out.nodes@)) by {
                assert forall|a: int, b: int| 0 <= a < b < out.nodes@.len() implies out.nodes@[a].id@
                    != out.nodes@[b].id@ by {
                    assert(handles@[a].raw < handles@[b].raw);
                    assert(self.nodes().contains_key(handles@[a].raw as int));
                    assert(self.nodes().contains_key(handles@[b].raw as int));
                }
            }
            assert forall|k: int| 0 <= k < out.nodes@.len() implies copy_of_live(
                self.nodes(),
                #[trigger] out.nodes@[k],
            ) by {
                assert(self.nodes().contains_key(handles@[k].raw as int));
            }
            assert forall|h: int| #[trigger] self.nodes().contains_key(h) implies copies(
                out.nodes@,
                self.nodes()[h],
            ) by {
                let k = choose|k: int| 0 <= k < handles@.len() && (#[trigger] handles@[k]).raw == h;
                assert(out.nodes@[k]@ == self.nodes()[h]@);
            }
        }
        out
    }

    /// The graph rebuilt from a snapshot: its nodes are offered one by one to
    /// an empty graph, and then each edge whose endpoints are in the graph
    /// is added between them. Every index is rebuilt; no node has a score.
    pub fn restore(snapshot: Snapshot) -> (out: ArborGraph)
        ensures
            out.wf(),
            restored_from(&out, snapshot),
    {
        let Snapshot { nodes, edges } = snapshot;
        let mut graph = ArborGraph::new();
        proof {
            assert(graph@ == empty_view());
        }
        let fresh = add_symbols(&mut graph, nodes);
        let ghost mid = graph@;
        let ghost links = wanted_links(mid.ids, edges@);
        let ghost mut index: Seq<int> = Seq::empty();
        let ghost mut done: int = 0;
        let mut i: usize = 0;
        let mut going = true;
        proof {
            assert(edges@.subrange(0, 0) =~= Seq::<SnapshotEdge>::empty());
            assert(graph.edges() =~= Map::<int, (int, int, Edge)>::empty());
            assert forall|k: int| 0 <= k <= edges@.len() implies #[trigger] wanted_links(
                mid.ids,
                edges@.subrange(0, k),
            ).len() <= k by {
                lemma_links_prefix(mid.ids, edges@, k);
            }
        }
        while i < edges.len() && going
            invariant
                graph.wf(),
                i <= edges.len(),
                graph@.nodes == mid.nodes,
                graph@.ids == mid.ids,
                graph@.table == mid.table,
                graph@.scores == mid.scores,
                links == wanted_links(mid.ids, edges@),
                wired(graph.edges(), wanted_links(mid.ids, edges@.subrange(0, i as int)), index),
                going ==> index.len() == wanted_links(mid.ids, edges@.subrange(0, i as int)).len(),
                !going ==> graph.edges().len() >= MAX_HANDLE,
                forall|k: int| 0 <= k <= edges@.len() ==> #[trigger] wanted_links(
                    mid.ids,
                    edges@.subrange(0, k),
                ).len() <= k,
                wired(graph.edges(), links, index),
            decreases edges.len() - i + if going { 1int } else { 0int },
        {
            let item = &edges[i];
            let ghost upto = edges@.subrange(0, i + 1);
            let ghost before = wanted_links(mid.ids, edges@.subrange(0, i as int));
            proof {
                assert(upto.drop_last() =~= edges@.subrange(0, i as int));
                assert(upto.last() == edges@[i as int]);
                lemma_links_prefix(mid.ids, edges@, i + 1);
                lemma_links_prefix(mid.ids, edges@, i as int);
            }
            let from = graph.get_index(item.source.as_str());
            let to = graph.get_index(item.target.as_str());
            match (from, to) {
                (Some(a), Some(b)) => {
                    let ghost old_edges = graph.edges();
                    match graph.add_edge(a, b, item.edge.clone()) {
                        Ok(_) => {
                            proof {
                                let link = (a.raw as int, b.raw as int, item.edge);
                                let e = choose|e: int|
                                    !old_edges.contains_key(e) && graph.edges() == old_edges.insert(e, link);
                                let old_index = index;
                                index = index.push(e);
                                assert(wanted_links(mid.ids, upto) == before.push(link));
                                lemma_wired_push(old_edges, graph.edges(), before, old_index, e, link);
                                assert(wired(graph.edges(), before.push(link), index));
                                assert(wired(graph.edges(), links, index)) by {
                                    assert forall|j: int| 0 <= j < index.len() implies graph.edges()[#[trigger] index[j]]
                                        == links[j] by {
                                        assert(links[j] == wanted_links(mid.ids, upto)[j]);
                                    }
                                }
                            }
                            i = i + 1;
                        },
                        Err(_) => {
                            going = false;
                        },
                    }
                },
                _ => {
                    proof {
                        assert(wanted_links(mid.ids, upto) == before);
                    }
                    i = i + 1;
                },
            }
        }
        proof {
            if going {
                assert(edges@.subrange(0, edges@.len() as int) =~= edges@);
            }
            assert(restored_via(&graph, snapshot, fresh_views(fresh@), index));
        }
        graph
    }
}

/// The links that a prefix of a list of snapshot edges calls for are a
/// prefix of the links that the whole list calls for.
pub proof fn lemma_links_prefix(ids: Map<Seq<char>, usize>, edges: Seq<SnapshotEdge>, k: int)
    requires
        0 <= k <= edges.len(),
    ensures
        wanted_links(ids, edges.subrange(0, k)).len() <= wanted_links(ids, edges).len(),
        wanted_links(ids, edges.subrange(0, k)).len() <= k,
        forall|j: int|
            0 <= j < wanted_links(ids, edges.subrange(0, k)).len() ==> wanted_links(ids, edges.subrange(0, k))[j]
                == #[trigger] wanted_links(ids, edges)[j],
    decreases edges.len() - k,
{
    lemma_links_len(ids, edges.subrange(0, k));
    if k < edges.len() {
        lemma_links_prefix(ids, edges, k + 1);
        let longer = edges.subrange(0, k + 1);
        assert(longer.drop_last() =~= edges.subrange(0, k));
    } else {
        assert(edges.subrange(0, k) =~= edges);
        lemma_links_len(ids, edges);
    }
}

/// A list of snapshot edges calls for no more links than it has edges.
pub proof fn lemma_links_len(ids: Map<Seq<char>, usize>, edges: Seq<SnapshotEdge>)
    ensures
        wanted_links(ids, edges).len() <= edges.len(),
    decreases edges.len(),
{
    if edges.len() > 0 {
        lemma_links_len(ids, edges.drop_last());
    }
}

/// Adding a link under a free edge index extends what is wired by that
/// link.
pub proof fn lemma_wired_push(
    a: Map<int, (int, int, Edge)>,
    b: Map<int, (int, int, Edge)>,
    links: Seq<(int, int, Edge)>,
    index: Seq<int>,
    e: int,
    link: (int, int, Edge),
)
    requires
        wired(a, links, index),
        index.len() == links.len(),
        !a.contains_key(e),
        b == a.insert(e, link),
    ensures
        wired(b, links.push(link), index.push(e)),
{
    let longer = index.push(e);
    assert forall|i: int, j: int| 0 <= i < longer.len() && 0 <= j < longer.len() && i != j implies longer[i]
        != longer[j] by {
        if i < index.len() {
            assert(a.contains_key(index[i]));
        }
        if j < index.len() {
            assert(a.contains_key(index[j]));
        }
    }
    assert forall|x: int| #[trigger] b.contains_key(x) implies longer.contains(x) by {
        if x == e {
            assert(longer[index.len() as int] == e);
        } else {
            assert(a.contains_key(x));
            let k = choose|k: int| 0 <= k < index.len() && index[k] == x;
            assert(longer[k] == x);
        }
    }
    assert forall|j: int| 0 <= j < longer.len() implies b[#[trigger] longer[j]] == links.push(link)[j] by {
        if j < index.len() {
            assert(a.contains_key(index[j]));
        }
    }
}

/// Offering nodes with distinct, unused ids to a graph with room for them
/// stores every one: each gets a handle of its own, and nothing else
/// changes.
pub proof fn lemma_planted_distinct(a: GraphView, b: GraphView, symbols: Seq<CodeNode>, fresh: Seq<FreshView>)
    requires
        planted(a, b, symbols, fresh),
        distinct_ids(symbols),
        a.nodes.dom().finite(),
        a.nodes.len() + symbols.len() <= MAX_HANDLE,
        forall|i: int| 0 <= i < symbols.len() ==> !a.ids.contains_key(#[trigger] symbols[i].id@),
    ensures
        fresh.len() == symbols.len(),
        b.nodes.dom().finite(),
        b.nodes.len() == a.nodes.len() + symbols.len(),
        b.edges == a.edges,
        b.scores == a.scores,
        forall|i: int|
            0 <= i < symbols.len() ==> b.ids.contains_key(#[trigger] symbols[i].id@) && b.nodes.contains_key(
                b.ids[symbols[i].id@] as int,
            ) && b.nodes[b.ids[symbols[i].id@] as int] == symbols[i] && !a.nodes.contains_key(
                b.ids[symbols[i].id@] as int,
            ),
        forall|id: Seq<char>| #[trigger]
            b.ids.contains_key(id) <==> a.ids.contains_key(id) || exists|i: int|
                0 <= i < symbols.len() && #[trigger] symbols[i].id@ == id,
        forall|id: Seq<char>| #[trigger] a.ids.contains_key(id) ==> b.ids[id] == a.ids[id],
        forall|h: int| #[trigger] a.nodes.contains_key(h) ==> b.nodes.contains_key(h) && b.nodes[h] == a.nodes[h],
        forall|h: int| #[trigger]
            b.nodes.contains_key(h) ==> a.nodes.contains_key(h) || exists|i: int|
                0 <= i < symbols.len() && b.ids[#[trigger] symbols[i].id@] == h,
    decreases symbols.len(),
{
    if symbols.len() > 0 {
        let (mid, before) = choose|mid: GraphView, before: Seq<FreshView>|
            planted(a, mid, symbols.drop_last(), before) && #[trigger] planted_one(
                mid,
                b,
                symbols.last(),
                before,
                fresh,
            );
        let front = symbols.drop_last();
        let last = symbols.last();
        assert forall|i: int| 0 <= i < front.len() implies !a.ids.contains_key(#[trigger] front[i].id@) by {
            assert(front[i] == symbols[i]);
        }
        assert(distinct_ids(front)) by {
            assert forall|i: int, j: int| 0 <= i < j < front.len() implies front[i].id@ != front[j].id@ by {
                assert(front[i] == symbols[i]);
                assert(front[j] == symbols[j]);
            }
        }
        lemma_planted_distinct(a, mid, front, before);
        assert(!mid.ids.contains_key(last.id@)) by {
            if mid.ids.contains_key(last.id@) {
                assert(!a.ids.contains_key(symbols[symbols.len() - 1].id@));
                let i = choose|i: int| 0 <= i < front.len() && #[trigger] front[i].id@ == last.id@;
                assert(symbols[i].id@ != symbols[symbols.len() - 1].id@);
            }
        }
        let h = choose|h: usize| #[trigger]
            planted_at(mid, b, last, h) && fresh == before.push(
                FreshView { name: last.name@, id: last.id@, handle: h },
            );
        assert forall|i: int| 0 <= i < symbols.len() implies b.ids.contains_key(#[trigger] symbols[i].id@)
            && b.nodes.contains_key(b.ids[symbols[i].id@] as int) && b.nodes[b.ids[symbols[i].id@] as int]
            == symbols[i] && !a.nodes.contains_key(b.ids[symbols[i].id@] as int) by {
            if i < front.len() {
                assert(front[i] == symbols[i]);
                assert(mid.ids.contains_key(front[i].id@));
                assert(symbols[i].id@ != last.id@);
            }
        }
        assert forall|id: Seq<char>| #[trigger]
            b.ids.contains_key(id) <==> a.ids.contains_key(id) || exists|i: int|
                0 <= i < symbols.len() && #[trigger] symbols[i].id@ == id by {
            if b.ids.contains_key(id) && !a.ids.contains_key(id) {
                if id == last.id@ {
                    assert(symbols[symbols.len() - 1].id@ == id);
                } else {
                    assert(mid.ids.contains_key(id));
                    let i = choose|i: int| 0 <= i < front.len() && #[trigger] front[i].id@ == id;
                    assert(symbols[i].id@ == id);
                }
            }
            if exists|i: int| 0 <= i < symbols.len() && #[trigger] symbols[i].id@ == id {
                let i = choose|i: int| 0 <= i < symbols.len() && #[trigger] symbols[i].id@ == id;
                assert(b.ids.contains_key(symbols[i].id@));
            }
        }
        assert forall|id: Seq<char>| #[trigger] a.ids.contains_key(id) implies b.ids[id] == a.ids[id] by {
            assert(mid.ids[id] == a.ids[id]);
            assert(!a.ids.contains_key(symbols[symbols.len() - 1].id@));
        }
        assert forall|x: int| #[trigger] b.nodes.contains_key(x) implies a.nodes.contains_key(x) || exists|i: int|
            0 <= i < symbols.len() && b.ids[#[trigger] symbols[i].id@] == x by {
            if x == h as int {
                assert(b.ids[symbols[symbols.len() - 1].id@] == x);
            } else {
                assert(mid.nodes.contains_key(x));
                if !a.nodes.contains_key(x) {
                    let i = choose|i: int| 0 <= i < front.len() && mid.ids[#[trigger] front[i].id@] == x;
                    assert(front[i] == symbols[i]);
                    assert(symbols[i].id@ != last.id@);
                    assert(b.ids[symbols[i].id@] == x);
                }
            }
        }
    }
}

/// Where every endpoint has an id in `ids`, every snapshot edge becomes a
/// link.
pub proof fn lemma_all_wanted(ids: Map<Seq<char>, usize>, edges: Seq<SnapshotEdge>)
    requires
        forall|i: int|
            0 <= i < edges.len() ==> ids.contains_key((#[trigger] edges[i]).source@) && ids.contains_key(
                edges[i].target@,
            ),
    ensures
        wanted_links(ids, edges).len() == edges.len(),
        forall|i: int|
            0 <= i < edges.len() ==> #[trigger] wanted_links(ids, edges)[i] == (
                ids[edges[i].source@] as int,
                ids[edges[i].target@] as int,
                edges[i].edge,
            ),
    decreases edges.len(),
{
    if edges.len() > 0 {
        let front = edges.drop_last();
        assert forall|i: int| 0 <= i < front.len() implies ids.contains_key((#[trigger] front[i]).source@)
            && ids.contains_key(front[i].target@) by {
            assert(front[i] == edges[i]);
        }
        lemma_all_wanted(ids, front);
        assert(ids.contains_key(edges[edges.len() - 1].source@));
        assert forall|i: int| 0 <= i < edges.len() implies #[trigger] wanted_links(ids, edges)[i] == (
            ids[edges[i].source@] as int,
            ids[edges[i].target@] as int,
            edges[i].edge,
        ) by {
            if i < front.len() {
                assert(front[i] == edges[i]);
                assert(wanted_links(ids, edges)[i] == wanted_links(ids, front)[i]);
            }
        }
    }
}

/// A map whose edge indexes a list enumerates has as many edges as the list
/// is long.
pub proof fn lemma_enumerated_len(edges: Map<int, (int, int, Edge)>, index: Seq<int>)
    requires
        enumerates(edges, index),
    ensures
        edges.dom().finite(),
        edges.len() == index.len(),
{
    index.unique_seq_to_set();
    vstd::seq_lib::seq_to_set_is_finite(index);
    assert(index.to_set() =~= edges.dom()) by {
        assert forall|e: int| index.to_set().contains(e) <==> edges.dom().contains(e) by {
            if index.contains(e) {
                let k = choose|k: int| 0 <= k < index.len() && index[k] == e;
                assert(edges.contains_key(index[k]));
            }
        }
    }
}

/// What identifies an edge apart from its handles: the ids of its endpoints
/// and its kind.
pub type EdgeKey = (Seq<char>, Seq<char>, EdgeKind);

/// What identifies `edge`, an edge between nodes of `nodes`.
pub open spec fn edge_key(nodes: Map<int, CodeNode>, edge: (int, int, Edge)) -> EdgeKey {
    (nodes[edge.0].id@, nodes[edge.1].id@, edge.2.kind)
}

/// How many edges of `edges` are identified by `key`.
pub open spec fn tally(nodes: Map<int, CodeNode>, edges: Map<int, (int, int, Edge)>, key: EdgeKey) -> nat {
    edges.dom().filter(|e: int| edge_key(nodes, edges[e]) == key).len()
}

/// How often `key` occurs in `keys`.
pub open spec fn occurrences(keys: Seq<EdgeKey>, key: EdgeKey) -> nat
    decreases keys.len(),
{
    if keys.len() == 0 {
        0
    } else {
        occurrences(keys.drop_last(), key) + if keys.last() == key {
            1nat
        } else {
            0nat
        }
    }
}

/// Where `index` enumerates the edges and `keys` lists what identifies each
/// in turn, the tally of a key is how often it occurs in `keys`.
pub proof fn lemma_tally(
    nodes: Map<int, CodeNode>,
    edges: Map<int, (int, int, Edge)>,
    index: Seq<int>,
    keys: Seq<EdgeKey>,
    key: EdgeKey,
)
    requires
        enumerates(edges, index),
        keys.len() == index.len(),
        forall|i: int| 0 <= i < index.len() ==> edge_key(nodes, edges[#[trigger] index[i]]) == keys[i],
    ensures
        tally(nodes, edges, key) == occurrences(keys, key),
    decreases index.len(),
{
    let p = |e: int| edge_key(nodes, edges[e]) == key;
    lemma_enumerated_len(edges, index);
    if index.len() == 0 {
        assert(edges.dom() =~= Set::<int>::empty()) by {
            assert forall|e: int| !edges.dom().contains(e) by {
                if edges.contains_key(e) {
                    assert(index.contains(e));
                }
            }
        }
        assert(edges.dom().filter(p) =~= Set::<int>::empty());
    } else {
        let e = index.last();
        let rest = edges.remove(e);
        let front = index.drop_last();
        let front_keys = keys.drop_last();
        assert(enumerates(rest, front)) by {
            assert forall|i: int| 0 <= i < front.len() implies rest.contains_key(#[trigger] front[i]) by {
                assert(front[i] == index[i]);
                assert(index[i] != index[index.len() - 1]);
            }
            assert forall|x: int| #[trigger] rest.contains_key(x) implies front.contains(x) by {
                assert(edges.contains_key(x));
                let k = choose|k: int| 0 <= k < index.len() && index[k] == x;
                assert(front[k] == x);
            }
        }
        assert forall|i: int| 0 <= i < front.len() implies edge_key(nodes, rest[#[trigger] front[i]])
            == front_keys[i] by {
            assert(front[i] == index[i]);
            assert(index[i] != index[index.len() - 1]);
        }
        lemma_tally(nodes, rest, front, front_keys, key);
        let q = |x: int| edge_key(nodes, rest[x]) == key;
        let small = rest.dom().filter(q);
        let big = edges.dom().filter(p);
        lemma_enumerated_len(rest, front);
        vstd::set_lib::lemma_set_subset_finite(rest.dom(), small);
        assert(edges.contains_key(index[index.len() - 1]));
        if keys.last() == key {
            assert(big =~= small.insert(e));
        } else {
            assert(big =~= small);
        }
    }
}

/// Rebuilding a graph from its snapshot yields a graph with the same nodes,
/// the same edges and the same counts: the two graphs hold a node for the
/// same ids, with equal values; they have as many nodes and as many edges;
/// and for every pair of endpoint ids and every kind they have as many edges
/// between those endpoints of that kind.
pub proof fn lemma_round_trip(graph: &ArborGraph, s: Snapshot, rebuilt: &ArborGraph)
    requires
        graph.wf(),
        rebuilt.wf(),
        pictured_by(graph, s),
        restored_from(rebuilt, s),
    ensures
        rebuilt.nodes().len() == graph.nodes().len(),
        rebuilt.edges().len() == graph.edges().len(),
        forall|id: Seq<char>| #[trigger] rebuilt.ids().contains_key(id) <==> graph.ids().contains_key(id),
        forall|id: Seq<char>| #[trigger]
            graph.ids().contains_key(id) ==> rebuilt.nodes()[rebuilt.ids()[id] as int]@
                == graph.nodes()[graph.ids()[id] as int]@,
        forall|key: EdgeKey| #[trigger]
            tally(rebuilt.nodes(), rebuilt.edges(), key) == tally(graph.nodes(), graph.edges(), key),
{
    let (fresh, index2) = choose|fresh: Seq<FreshView>, index2: Seq<int>| #[trigger]
        restored_via(rebuilt, s, fresh, index2);
    let index = choose|index: Seq<int>| #[trigger] pictured_edges(graph, s.edges@, index);
    let planted_view = GraphView { edges: Map::empty(), scores: Map::empty(), ..rebuilt@ };
    graph.lemma_sizes();
    lemma_planted_distinct(empty_view(), planted_view, s.nodes@, fresh);
    assert forall|id: Seq<char>| #[trigger] rebuilt.ids().contains_key(id) <==> graph.ids().contains_key(id) by {
        if rebuilt.ids().contains_key(id) {
            let i = choose|i: int| 0 <= i < s.nodes@.len() && #[trigger] s.nodes@[i].id@ == id;
            assert(copy_of_live(graph.nodes(), s.nodes@[i]));
            let h = choose|h: int| #[trigger] graph.nodes().contains_key(h) && graph.nodes()[h]@ == s.nodes@[i]@;
            assert(graph.ids().contains_key(graph.nodes()[h].id@));
        }
        if graph.ids().contains_key(id) {
            let h = graph.ids()[id] as int;
            assert(graph.nodes().contains_key(h));
            assert(copies(s.nodes@, graph.nodes()[h]));
            let i = choose|i: int| 0 <= i < s.nodes@.len() && (#[trigger] s.nodes@[i])@ == graph.nodes()[h]@;
            assert(s.nodes@[i].id@ == id);
            assert(rebuilt.ids().contains_key(s.nodes@[i].id@));
        }
    }
    assert forall|id: Seq<char>| #[trigger] graph.ids().contains_key(id) implies rebuilt.nodes()[rebuilt.ids()[id] as int]@
        == graph.nodes()[graph.ids()[id] as int]@ by {
        let h = graph.ids()[id] as int;
        assert(graph.nodes().contains_key(h));
        assert(copies(s.nodes@, graph.nodes()[h]));
        let i = choose|i: int| 0 <= i < s.nodes@.len() && (#[trigger] s.nodes@[i])@ == graph.nodes()[h]@;
        assert(s.nodes@[i].id@ == id);
        assert(rebuilt.nodes()[rebuilt.ids()[s.nodes@[i].id@] as int] == s.nodes@[i]);
    }
    let links = wanted_links(rebuilt.ids(), s.edges@);
    assert forall|i: int| 0 <= i < s.edges@.len() implies rebuilt.ids().contains_key(
        (#[trigger] s.edges@[i]).source@,
    ) && rebuilt.ids().contains_key(s.edges@[i].target@) by {
        let e = index[i];
        assert(graph.edges().contains_key(e));
        assert(pictures(graph.nodes(), graph.edges()[e], s.edges@[i]));
        assert(graph.nodes().contains_key(graph.edges()[e].0));
        assert(graph.nodes().contains_key(graph.edges()[e].1));
        assert(graph.ids().contains_key(graph.nodes()[graph.edges()[e].0].id@));
        assert(graph.ids().contains_key(graph.nodes()[graph.edges()[e].1].id@));
    }
    lemma_all_wanted(rebuilt.ids(), s.edges@);
    lemma_enumerated_len(graph.edges(), index);
    lemma_enumerated_len(rebuilt.edges(), index2);
    assert(index2.len() == links.len());
    let keys = Seq::new(s.edges@.len(), |i: int| (s.edges@[i].source@, s.edges@[i].target@, s.edges@[i].edge.kind));
    assert forall|key: EdgeKey| #[trigger]
        tally(rebuilt.nodes(), rebuilt.edges(), key) == tally(graph.nodes(), graph.edges(), key) by {
        assert forall|i: int| 0 <= i < index.len() implies edge_key(graph.nodes(), graph.edges()[#[trigger] index[i]])
            == keys[i] by {
            assert(pictures(graph.nodes(), graph.edges()[index[i]], s.edges@[i]));
        }
        assert forall|i: int| 0 <= i < index2.len() implies edge_key(
            rebuilt.nodes(),
            rebuilt.edges()[#[trigger] index2[i]],
        ) == keys[i] by {
            assert(rebuilt.edges()[index2[i]] == links[i]);
            assert(links[i] == (
                rebuilt.ids()[s.edges@[i].source@] as int,
                rebuilt.ids()[s.edges@[i].target@] as int,
                s.edges@[i].edge,
            ));
            assert(rebuilt.ids().contains_key(s.edges@[i].source@));
            assert(rebuilt.ids().contains_key(s.edges@[i].target@));
        }
        lemma_tally(graph.nodes(), graph.edges(), index, keys, key);
        lemma_tally(rebuilt.nodes(), rebuilt.edges(), index2, keys, key);
    }
}

} // verus!
