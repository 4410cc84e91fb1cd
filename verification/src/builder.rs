//! Building a graph from parsed symbols, in two passes: first every symbol
//! becomes a node, then every reference that names a node becomes an edge.
//! Because edges come second, a reference may name a symbol that is added
//! after the one that refers to it.

use vstd::prelude::*;
use vstd::hash_map::StringHashMap;
use vstd::string::*;
use crate::edge::{Edge, EdgeKind};
use crate::graph::{ArborGraph, GraphError};
use crate::node::{CodeNode, NodeId};
use crate::topology::MAX_HANDLE;

verus! {

/// What a builder holds, as mathematical values.
pub struct BuilderView {
    pub nodes: Map<int, CodeNode>,
    pub edges: Map<int, (int, int, Edge)>,
    pub ids: Map<Seq<char>, usize>,
    pub table: Map<Seq<char>, NodeId>,
    /// The fallback map: for each name, the id of the node added last under
    /// that name or qualified name.
    pub fallback: Map<Seq<char>, Seq<char>>,
}

/// The edge of kind `kind` that a resolved name becomes.
pub open spec fn plain_edge(kind: EdgeKind) -> Edge {
    Edge { kind: kind, file: None, line: None }
}

/// `b` is `a` after `node` was offered: a node whose id is taken, or any node
/// once the handles have run out, changes nothing; otherwise the node is
/// stored under a handle that was free, its qualified name is registered
/// unless it is empty, and its name and qualified name fall back to its id.
pub open spec fn offered(a: BuilderView, b: BuilderView, node: CodeNode) -> bool {
    if a.ids.contains_key(node.id@) || a.nodes.len() >= MAX_HANDLE {
        b == a
    } else {
        exists|h: usize| #[trigger]
            offered_at(a, b, node, h)
    }
}

/// `b` is `a` after `node` was stored under the free handle `h`.
pub open spec fn offered_at(a: BuilderView, b: BuilderView, node: CodeNode, h: usize) -> bool {
    &&& !a.nodes.contains_key(h as int)
    &&& b.nodes == a.nodes.insert(h as int, node)
    &&& b.edges == a.edges
    &&& b.ids == a.ids.insert(node.id@, h)
    &&& b.table == ArborGraph::table_with(a.table, node.qualified_name@, h)
    &&& b.fallback == a.fallback.insert(node.name@, node.id@).insert(node.qualified_name@, node.id@)
}

/// `b` is `a` after the nodes of `batch` were offered one by one.
pub open spec fn offered_all(a: BuilderView, b: BuilderView, batch: Seq<CodeNode>) -> bool
    decreases batch.len(),
{
    if batch.len() == 0 {
        b == a
    } else {
        exists|mid: BuilderView|
            offered_all(a, mid, batch.drop_last()) && #[trigger] offered(mid, b, batch.last())
    }
}

/// The node that the reference `name` of the node under `from` resolves to:
/// the node the symbol table has for it, or else the node whose id the
/// fallback map has for it, and in neither case the node itself.
pub open spec fn resolution(v: BuilderView, from: int, name: Seq<char>) -> Option<int> {
    if v.table.contains_key(name) && v.table[name].raw != from {
        Some(v.table[name].raw as int)
    } else if v.fallback.contains_key(name) && v.ids.contains_key(v.fallback[name]) && v.ids[v.fallback[name]]
        != from {
        Some(v.ids[v.fallback[name]] as int)
    } else {
        None
    }
}

/// The edges that the references `refs` of the node under `from` resolve to,
/// in order.
pub open spec fn resolved_refs(v: BuilderView, from: int, refs: Seq<String>) -> Seq<(int, int, EdgeKind)>
    decreases refs.len(),
{
    if refs.len() == 0 {
        Seq::empty()
    } else {
        let before = resolved_refs(v, from, refs.drop_last());
        match resolution(v, from, refs.last()@) {
            Some(to) => before.push((from, to, EdgeKind::Calls)),
            None => before,
        }
    }
}

/// The edges that the references of the nodes under `handles` resolve to, in
/// order.
pub open spec fn resolved_all(v: BuilderView, handles: Seq<NodeId>) -> Seq<(int, int, EdgeKind)>
    decreases handles.len(),
{
    if handles.len() == 0 {
        Seq::empty()
    } else {
        let h = handles.last().raw as int;
        resolved_all(v, handles.drop_last()) + resolved_refs(v, h, v.nodes[h].references@)
    }
}

/// `handles` lists the handles of `nodes`, each once, in ascending order.
pub open spec fn lists_handles(nodes: Map<int, CodeNode>, handles: Seq<NodeId>) -> bool {
    &&& forall|i: int| 0 <= i < handles.len() ==> nodes.contains_key((#[trigger] handles[i]).raw as int)
    &&& forall|i: int, j: int| 0 <= i < j < handles.len() ==> handles[i].raw < handles[j].raw
    &&& forall|h: int|
        nodes.contains_key(h) ==> exists|i: int| 0 <= i < handles.len() && (#[trigger] handles[i]).raw == h
}

/// `b` is `a` with one more edge for each link of `pairs`, from its source to
/// its target and of its kind, added in order, each under an edge index that
/// was free.
pub open spec fn linked_all(
    a: Map<int, (int, int, Edge)>,
    b: Map<int, (int, int, Edge)>,
    pairs: Seq<(int, int, EdgeKind)>,
) -> bool
    decreases pairs.len(),
{
    if pairs.len() == 0 {
        b == a
    } else {
        exists|mid: Map<int, (int, int, Edge)>, e: int| #[trigger]
            linked_one(mid, b, e, pairs.last()) && linked_all(a, mid, pairs.drop_last())
    }
}

/// `b` is `a` with one more edge for the link `pair` under the free index `e`.
pub open spec fn linked_one(
    a: Map<int, (int, int, Edge)>,
    b: Map<int, (int, int, Edge)>,
    e: int,
    pair: (int, int, EdgeKind),
) -> bool {
    !a.contains_key(e) && b == a.insert(e, (pair.0, pair.1, plain_edge(pair.2)))
}

/// Builds a graph from parsed symbols.
pub struct GraphBuilder {
    graph: ArborGraph,
    name_to_id: StringHashMap<String>,
}

impl View for GraphBuilder {
    type V = BuilderView;

    closed spec fn view(&self) -> BuilderView {
        BuilderView {
            nodes: self.graph.nodes(),
            edges: self.graph.edges(),
            ids: self.graph.ids(),
            table: self.graph.fqn_table(),
            fallback: Map::new(
                |k: Seq<char>| self.name_to_id@.contains_key(k),
                |k: Seq<char>| self.name_to_id@[k]@,
            ),
        }
    }
}

impl GraphBuilder {
    /// The graph under construction is well formed, and no node of it has a
    /// score yet.
    pub closed spec fn wf(&self) -> bool {
        self.graph.wf() && self.graph.scores() == Map::<usize, u64>::empty()
    }

    /// The graph under construction.
    pub closed spec fn graph(&self) -> ArborGraph {
        self.graph
    }

    /// The view shows the graph under construction.
    pub proof fn lemma_view(&self)
        ensures
            self@.nodes == self.graph().nodes(),
            self@.edges == self.graph().edges(),
            self@.ids == self.graph().ids(),
            self@.table == self.graph().fqn_table(),
    {
    }

    /// A builder that holds nothing.
    pub fn new() -> (out: GraphBuilder)
        ensures
            out.wf(),
            out@.nodes == Map::<int, CodeNode>::empty(),
            out@.edges == Map::<int, (int, int, Edge)>::empty(),
            out@.ids == Map::<Seq<char>, usize>::empty(),
            out@.table == Map::<Seq<char>, NodeId>::empty(),
            out@.fallback == Map::<Seq<char>, Seq<char>>::empty(),
    {
        let out = GraphBuilder { graph: ArborGraph::new(), name_to_id: StringHashMap::new() };
        assert(out@.fallback =~= Map::<Seq<char>, Seq<char>>::empty());
        out
    }

    /// Offers one node to the graph under construction.
    pub fn add_node(&mut self, node: CodeNode) -> (out: Result<NodeId, GraphError>)
        requires
            old(self).wf(),
        ensures
            final(self).wf(),
            offered(old(self)@, final(self)@, node),
            out.is_ok() <==> !old(self)@.ids.contains_key(node.id@) && old(self)@.nodes.len() < MAX_HANDLE,
            out.is_ok() ==> offered_at(old(self)@, final(self)@, node, out.unwrap().raw),
    {
        let id = node.id.clone();
        let name = node.name.clone();
        let qualified = node.qualified_name.clone();
        let out = self.graph.add_node(node);
        match out {
            Ok(h) => {
                self.name_to_id.insert(name, id.clone());
                self.name_to_id.insert(qualified, id);
                proof {
                    assert(final(self)@.fallback =~= old(self)@.fallback.insert(node.name@, node.id@).insert(
                        node.qualified_name@,
                        node.id@,
                    ));
                    assert(offered_at(old(self)@, final(self)@, node, h.raw));
                }
            },
            Err(_) => {
                proof {
                    assert(final(self)@.fallback =~= old(self)@.fallback);
                }
            },
        }
        out
    }

    /// Offers the nodes of `nodes` to the graph under construction, one by
    /// one. Call this for each parsed file, then `resolve_edges` once.
    pub fn add_nodes(&mut self, nodes: Vec<CodeNode>)
        requires
            old(self).wf(),
        ensures
            final(self).wf(),
            offered_all(old(self)@, final(self)@, nodes@),
    {
        let total = nodes.len();
        let mut held = crate::node::reversed(nodes);
        let ghost start = self@;
        let mut i: usize = 0;
        proof {
            assert(nodes@.subrange(0, 0) =~= Seq::<CodeNode>::empty());
        }
        while held.len() > 0
            invariant
                self.wf(),
                total == nodes@.len(),
                i + held@.len() == nodes@.len(),
                forall|k: int| 0 <= k < held@.len() ==> #[trigger] held@[k] == nodes@[nodes@.len() - 1 - k],
                offered_all(start, self@, nodes@.subrange(0, i as int)),
            decreases held.len(),
        {
            let ghost mid = self@;
            assert(i < nodes@.len());
            let x = held.pop().unwrap();
            assert(x == nodes@[i as int]);
            let _ = self.add_node(x);
            proof {
                let upto = nodes@.subrange(0, i + 1);
                assert(upto.drop_last() =~= nodes@.subrange(0, i as int));
                assert(upto.last() == nodes@[i as int]);
                assert(offered_all(start, mid, upto.drop_last()) && offered(mid, self@, upto.last()));
                assert(offered_all(start, self@, upto));
            }
            i = i + 1;
        }
        proof {
            assert(nodes@.subrange(0, nodes@.len() as int) =~= nodes@);
        }
    }

    /// The node that the reference `name` of the node under `from` resolves to.
    pub fn resolve_reference(&self, from: NodeId, name: &str) -> (out: Option<NodeId>)
        requires
            self.wf(),
        ensures
            out.is_some() == resolution(self@, from.raw as int, name@).is_some(),
            out.is_some() ==> out.unwrap().raw == resolution(self@, from.raw as int, name@).unwrap(),
            out.is_some() ==> self@.nodes.contains_key(out.unwrap().raw as int),
    {
        match self.graph.resolve(name) {
            Some(to) => {
                if to.raw != from.raw {
                    return Some(to);
                }
            },
            None => {},
        }
        match self.name_to_id.get(name) {
            Some(id) => match self.graph.get_index(id.as_str()) {
                Some(to) => {
                    if to.raw != from.raw {
                        Some(to)
                    } else {
                        None
                    }
                },
                None => None,
            },
            None => None,
        }
    }

    /// The edges that the references of every node resolve to: sources in
    /// ascending order of handle, and for each source its references in
    /// order.
    pub fn pending_edges(&self) -> (out: Vec<(NodeId, NodeId)>)
        requires
            self.wf(),
        ensures
            exists|handles: Seq<NodeId>|
                lists_handles(self@.nodes, handles) && #[trigger] resolved_all(self@, handles) == pairs_of(out@),
            forall|k: int|
                0 <= k < out@.len() ==> self@.nodes.contains_key((#[trigger] out@[k]).0.raw as int)
                    && self@.nodes.contains_key(out@[k].1.raw as int),
    {
        let handles = self.graph.node_indexes();
        let mut out: Vec<(NodeId, NodeId)> = Vec::new();
        let mut i: usize = 0;
        proof {
            assert(handles@.subrange(0, 0) =~= Seq::<NodeId>::empty());
            assert(pairs_of(out@) =~= Seq::<(int, int, EdgeKind)>::empty());
        }
        while i < handles.len()
            invariant
                self.wf(),
                i <= handles.len(),
                forall|k: int| 0 <= k < handles@.len() ==> self@.nodes.contains_key((#[trigger] handles@[k]).raw as int),
                pairs_of(out@) == resolved_all(self@, handles@.subrange(0, i as int)),
                forall|k: int|
                    0 <= k < out@.len() ==> self@.nodes.contains_key((#[trigger] out@[k]).0.raw as int)
                        && self@.nodes.contains_key(out@[k].1.raw as int),
            decreases handles.len() - i,
        {
            let from = handles[i];
            let node = self.graph.get(from).unwrap();
            let ghost base = pairs_of(out@);
            let mut k: usize = 0;
            proof {
                assert(node.references@.subrange(0, 0) =~= Seq::<String>::empty());
                assert(base + Seq::<(int, int, EdgeKind)>::empty() =~= base);
            }
            while k < node.references.len()
                invariant
                    self.wf(),
                    k <= node.references.len(),
                    self@.nodes.contains_key(from.raw as int),
                    *node == self@.nodes[from.raw as int],
                    pairs_of(out@) == base + resolved_refs(
                        self@,
                        from.raw as int,
                        node.references@.subrange(0, k as int),
                    ),
                    forall|m: int|
                        0 <= m < out@.len() ==> self@.nodes.contains_key((#[trigger] out@[m]).0.raw as int)
                            && self@.nodes.contains_key(out@[m].1.raw as int),
                decreases node.references.len() - k,
            {
                let ghost outp = out@;
                let found = self.resolve_reference(from, node.references[k].as_str());
                match found {
                    Some(to) => {
                        out.push((from, to));
                    },
                    None => {},
                }
                proof {
                    let upto = node.references@.subrange(0, k + 1);
                    assert(upto.drop_last() =~= node.references@.subrange(0, k as int));
                    assert(upto.last() == node.references@[k as int]);
                    let before = resolved_refs(self@, from.raw as int, upto.drop_last());
                    if found.is_some() {
                        assert(pairs_of(out@) =~= pairs_of(outp).push((from.raw as int, found.unwrap().raw as int, EdgeKind::Calls)));
                        assert(base + before.push((from.raw as int, found.unwrap().raw as int, EdgeKind::Calls)) =~= (base
                            + before).push((from.raw as int, found.unwrap().raw as int, EdgeKind::Calls)));
                    }
                }
                k = k + 1;
            }
            proof {
                assert(node.references@.subrange(0, node.references@.len() as int) =~= node.references@);
                let upto = handles@.subrange(0, i + 1);
                assert(upto.drop_last() =~= handles@.subrange(0, i as int));
                assert(upto.last() == handles@[i as int]);
            }
            i = i + 1;
        }
        proof {
            assert(handles@.subrange(0, handles@.len() as int) =~= handles@);
            assert(lists_handles(self@.nodes, handles@));
        }
        out
    }

    /// Turns every reference that resolves into a `Calls` edge. The edges are
    /// collected first and added afterwards, so that none of them bears on
    /// what another resolves to. Returns whether every edge was added: should
    /// the edge indexes run out, the edges up to that point stay.
    pub fn resolve_edges(&mut self) -> (complete: bool)
        requires
            old(self).wf(),
        ensures
            final(self).wf(),
            final(self)@.nodes == old(self)@.nodes,
            final(self)@.ids == old(self)@.ids,
            final(self)@.table == old(self)@.table,
            final(self)@.fallback == old(self)@.fallback,
            exists|handles: Seq<NodeId>, n: int|
                lists_handles(old(self)@.nodes, handles) && 0 <= n <= resolved_all(old(self)@, handles).len()
                    && #[trigger] linked_all(
                    old(self)@.edges,
                    final(self)@.edges,
                    resolved_all(old(self)@, handles).subrange(0, n),
                ) && (complete <==> n == resolved_all(old(self)@, handles).len()),
            !complete ==> final(self)@.edges.len() >= MAX_HANDLE,
    {
        let pending = self.pending_edges();
        let ghost handles = choose|handles: Seq<NodeId>|
            lists_handles(self@.nodes, handles) && #[trigger] resolved_all(self@, handles) == pairs_of(pending@);
        let ghost pairs = pairs_of(pending@);
        let ghost start = self@;
        let mut i: usize = 0;
        let mut complete = true;
        proof {
            assert(pairs.subrange(0, 0) =~= Seq::<(int, int, EdgeKind)>::empty());
        }
        while i < pending.len() && complete
            invariant
                self.wf(),
                i <= pending.len(),
                pairs == pairs_of(pending@),
                self@.nodes == start.nodes,
                self@.ids == start.ids,
                self@.table == start.table,
                self@.fallback == start.fallback,
                forall|k: int|
                    0 <= k < pending@.len() ==> start.nodes.contains_key((#[trigger] pending@[k]).0.raw as int)
                        && start.nodes.contains_key(pending@[k].1.raw as int),
                linked_all(start.edges, self@.edges, pairs.subrange(0, i as int)),
                !complete ==> self@.edges.len() >= MAX_HANDLE && i < pending.len(),
            decreases pending.len() - i + if complete { 1int } else { 0int },
        {
            let pair = pending[i];
            let ghost mid = self@.edges;
            let added = self.graph.add_edge(pair.0, pair.1, Edge::new(EdgeKind::Calls));
            match added {
                Ok(_) => {
                    proof {
                        let e = choose|e: int|
                            !mid.contains_key(e) && self@.edges == mid.insert(
                                e,
                                (pair.0.raw as int, pair.1.raw as int, plain_edge(EdgeKind::Calls)),
                            );
                        let upto = pairs.subrange(0, i + 1);
                        assert(upto.drop_last() =~= pairs.subrange(0, i as int));
                        assert(upto.last() == (pair.0.raw as int, pair.1.raw as int, EdgeKind::Calls));
                        assert(linked_one(mid, self@.edges, e, upto.last()));
                    }
                    i = i + 1;
                },
                Err(_) => {
                    complete = false;
                },
            }
        }
        proof {
            if complete {
                assert(pairs.subrange(0, i as int) =~= pairs);
            }
            assert(linked_all(start.edges, self@.edges, resolved_all(start, handles).subrange(0, i as int)));
        }
        complete
    }

    /// Resolves the references and hands over the graph. No node of it has
    /// a score: a score is zero until a ranking sets it.
    pub fn build(self) -> (out: ArborGraph)
        requires
            self.wf(),
        ensures
            out.wf(),
            out.nodes() == self@.nodes,
            out.ids() == self@.ids,
            out.fqn_table() == self@.table,
            out.scores() == Map::<usize, u64>::empty(),
            exists|handles: Seq<NodeId>, n: int|
                lists_handles(self@.nodes, handles) && 0 <= n <= resolved_all(self@, handles).len()
                    && #[trigger] linked_all(self@.edges, out.edges(), resolved_all(self@, handles).subrange(0, n))
                    && (n == resolved_all(self@, handles).len() || out.edges().len() >= MAX_HANDLE),
    {
        let mut builder = self;
        let complete = builder.resolve_edges();
        proof {
            let (handles, n) = choose|handles: Seq<NodeId>, n: int|
                lists_handles(self@.nodes, handles) && 0 <= n <= resolved_all(self@, handles).len()
                    && #[trigger] linked_all(
                    self@.edges,
                    builder@.edges,
                    resolved_all(self@, handles).subrange(0, n),
                ) && (complete <==> n == resolved_all(self@, handles).len());
            assert(linked_all(self@.edges, builder.graph.edges(), resolved_all(self@, handles).subrange(0, n)));
        }
        builder.graph
    }

    /// Hands over the graph as it is, with no reference resolved. No node of
    /// it has a score.
    pub fn build_without_resolve(self) -> (out: ArborGraph)
        requires
            self.wf(),
        ensures
            out.wf(),
            out == self.graph(),
            out.scores() == Map::<usize, u64>::empty(),
    {
        self.graph
    }
}

/// The handles of a list of pairs of node ids.
pub open spec fn pairs_of(list: Seq<(NodeId, NodeId)>) -> Seq<(int, int, EdgeKind)> {
    Seq::new(list.len(), |k: int| (list[k].0.raw as int, list[k].1.raw as int, EdgeKind::Calls))
}

} // verus!
