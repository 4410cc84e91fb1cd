//! Re-indexing one file: the stale symbols of the file leave the graph, the
//! symbols just parsed enter it, and the names they mention become edges.
//!
//! A name is looked up first in the symbol table of the whole graph. If that
//! fails, its last segment is looked up among the names of the symbols just
//! added, and nowhere else: a bare name in one file does not reach into
//! another.

use vstd::prelude::*;
use vstd::string::*;
use crate::fanout::BroadcastMessage;
use crate::builder::{linked_all, linked_one, plain_edge};
use crate::edge::{Edge, EdgeKind};
use crate::extract::{ParseResult, SymbolRelation, after_last, edge_kind_for, edge_kind_of, tail_after};
use crate::graph::{ArborGraph, GraphError, GraphView};
use crate::node::{CodeNode, CodeNodeView, NodeId, node_views};
use crate::text::str_eq;
use crate::topology::MAX_HANDLE;

verus! {

/// A symbol that was just added to the graph.
#[derive(Debug)]
pub struct Fresh {
    pub name: String,
    pub id: String,
    pub handle: usize,
}

/// The mathematical value of a `Fresh`.
pub struct FreshView {
    pub name: Seq<char>,
    pub id: Seq<char>,
    pub handle: usize,
}

impl View for Fresh {
    type V = FreshView;

    open spec fn view(&self) -> FreshView {
        FreshView { name: self.name@, id: self.id@, handle: self.handle }
    }
}

/// The values of a list of fresh symbols.
pub open spec fn fresh_views(list: Seq<Fresh>) -> Seq<FreshView> {
    Seq::new(list.len(), |i: int| list[i]@)
}

/// `b` is `a` after `node` was stored under the free handle `h`.
pub open spec fn planted_at(a: GraphView, b: GraphView, node: CodeNode, h: usize) -> bool {
    &&& !a.nodes.contains_key(h as int)
    &&& b.nodes == a.nodes.insert(h as int, node)
    &&& b.edges == a.edges
    &&& b.ids == a.ids.insert(node.id@, h)
    &&& b.table == ArborGraph::table_with(a.table, node.qualified_name@, h)
    &&& b.scores == a.scores
}

/// `b` and `after` are `a` and `before` after `node` was offered: a node
/// whose id is taken, or any node once the handles have run out, changes
/// nothing; otherwise the node is stored under a handle that was free and
/// listed last among the fresh symbols.
pub open spec fn planted_one(
    a: GraphView,
    b: GraphView,
    node: CodeNode,
    before: Seq<FreshView>,
    after: Seq<FreshView>,
) -> bool {
    if a.ids.contains_key(node.id@) || a.nodes.len() >= MAX_HANDLE {
        b == a && after == before
    } else {
        exists|h: usize| #[trigger]
            planted_at(a, b, node, h) && after == before.push(
                FreshView { name: node.name@, id: node.id@, handle: h },
            )
    }
}

/// `b` is `a` after the nodes of `symbols` were offered one by one, and
/// `fresh` lists those that were stored, in order.
pub open spec fn planted(a: GraphView, b: GraphView, symbols: Seq<CodeNode>, fresh: Seq<FreshView>) -> bool
    decreases symbols.len(),
{
    if symbols.len() == 0 {
        b == a && fresh.len() == 0
    } else {
        exists|mid: GraphView, before: Seq<FreshView>|
            planted(a, mid, symbols.drop_last(), before) && #[trigger] planted_one(
                mid,
                b,
                symbols.last(),
                before,
                fresh,
            )
    }
}

/// The last segment of a name: what follows its last `.` and its last `:`.
pub open spec fn bare_of(name: Seq<char>) -> Seq<char> {
    tail_after(tail_after(name, '.'), ':')
}

/// The handle of the first fresh symbol from place `start` on that is named
/// `name` and is not the node `from`.
pub open spec fn first_named(fresh: Seq<FreshView>, name: Seq<char>, from: usize, start: int) -> Option<usize>
    decreases fresh.len() - start,
{
    if start < 0 || start >= fresh.len() {
        None
    } else if fresh[start].name == name && fresh[start].handle != from {
        Some(fresh[start].handle)
    } else {
        first_named(fresh, name, from, start + 1)
    }
}

/// The handle of the first fresh symbol from place `start` on whose id is
/// `id`.
pub open spec fn first_with_id(fresh: Seq<FreshView>, id: Seq<char>, start: int) -> Option<usize>
    decreases fresh.len() - start,
{
    if start < 0 || start >= fresh.len() {
        None
    } else if fresh[start].id == id {
        Some(fresh[start].handle)
    } else {
        first_with_id(fresh, id, start + 1)
    }
}

/// The node that `name`, mentioned by the node under `from`, resolves to:
/// the node the symbol table has for the name, or else the first fresh
/// symbol that bears its last segment, and in neither case the node itself.
pub open spec fn incremental_resolution(
    table: Map<Seq<char>, NodeId>,
    fresh: Seq<FreshView>,
    from: usize,
    name: Seq<char>,
) -> Option<usize> {
    if table.contains_key(name) && table[name].raw != from {
        Some(table[name].raw)
    } else {
        first_named(fresh, bare_of(name), from, 0)
    }
}

/// The `Calls` links that the references `refs` of the node under `from`
/// resolve to, in order.
pub open spec fn node_links(
    table: Map<Seq<char>, NodeId>,
    fresh: Seq<FreshView>,
    from: usize,
    refs: Seq<String>,
) -> Seq<(int, int, EdgeKind)>
    decreases refs.len(),
{
    if refs.len() == 0 {
        Seq::empty()
    } else {
        let before = node_links(table, fresh, from, refs.drop_last());
        match incremental_resolution(table, fresh, from, refs.last()@) {
            Some(to) => before.push((from as int, to as int, EdgeKind::Calls)),
            None => before,
        }
    }
}

/// The links that the references of the first `upto` fresh symbols resolve
/// to, in order.
pub open spec fn fresh_links(v: GraphView, fresh: Seq<FreshView>, upto: int) -> Seq<(int, int, EdgeKind)>
    decreases upto,
{
    if upto <= 0 || upto > fresh.len() {
        Seq::empty()
    } else {
        let from = fresh[upto - 1].handle;
        fresh_links(v, fresh, upto - 1) + node_links(v.table, fresh, from, v.nodes[from as int].references@)
    }
}

/// The links that the relations `relations` resolve to, in order: a relation
/// that starts at a fresh symbol and whose target resolves becomes a link of
/// the relation's kind.
pub open spec fn relation_links(
    table: Map<Seq<char>, NodeId>,
    fresh: Seq<FreshView>,
    relations: Seq<SymbolRelation>,
) -> Seq<(int, int, EdgeKind)>
    decreases relations.len(),
{
    if relations.len() == 0 {
        Seq::empty()
    } else {
        let before = relation_links(table, fresh, relations.drop_last());
        let last = relations.last();
        match first_with_id(fresh, last.from_id@, 0) {
            Some(from) => match incremental_resolution(table, fresh, from, last.to_name@) {
                Some(to) => before.push((from as int, to as int, edge_kind_for(last.kind))),
                None => before,
            },
            None => before,
        }
    }
}

/// Every link that the fresh symbols and the relations call for: first those
/// of the symbols' references, then those of the relations.
pub open spec fn pending_of(v: GraphView, fresh: Seq<FreshView>, relations: Seq<SymbolRelation>) -> Seq<
    (int, int, EdgeKind),
> {
    fresh_links(v, fresh, fresh.len() as int) + relation_links(v.table, fresh, relations)
}

/// The links of a list of pairs of node ids with kinds.
pub open spec fn triples_of(list: Seq<(NodeId, NodeId, EdgeKind)>) -> Seq<(int, int, EdgeKind)> {
    Seq::new(list.len(), |k: int| (list[k].0.raw as int, list[k].1.raw as int, list[k].2))
}

/// What is left of a graph when `file` is evicted.
pub open spec fn removed(v: GraphView, file: Seq<char>) -> GraphView {
    GraphView {
        nodes: ArborGraph::nodes_outside(v.nodes, file),
        edges: ArborGraph::edges_outside(v.nodes, v.edges, file),
        ids: ArborGraph::ids_outside(v.nodes, v.ids, file),
        table: ArborGraph::table_outside(v.nodes, v.table, file),
        scores: ArborGraph::scores_outside(v.nodes, v.scores, file),
    }
}

/// `b` is `a` after the file of `result` was re-indexed: the file was
/// evicted, the parsed symbols were offered one by one, and the links they
/// call for were added in order, all of them unless the edge indexes ran
/// out.
pub open spec fn reindexed(a: GraphView, b: GraphView, result: ParseResult) -> bool {
    exists|mid: GraphView, fresh: Seq<FreshView>, n: int| #[trigger]
        reindexed_via(a, b, result, mid, fresh, n)
}

/// `b` is `a` after the file of `result` was re-indexed, where `mid` is the
/// graph before the links were added, `fresh` the symbols that were stored,
/// and `n` the number of links that were added.
pub open spec fn reindexed_via(
    a: GraphView,
    b: GraphView,
    result: ParseResult,
    mid: GraphView,
    fresh: Seq<FreshView>,
    n: int,
) -> bool {
    &&& planted(removed(a, result.file_path@), mid, result.symbols@, fresh)
    &&& 0 <= n <= pending_of(mid, fresh, result.relations@).len()
    &&& linked_all(mid.edges, b.edges, pending_of(mid, fresh, result.relations@).subrange(0, n))
    &&& b.nodes == mid.nodes
    &&& b.ids == mid.ids
    &&& b.table == mid.table
    &&& b.scores == mid.scores
    &&& n == pending_of(mid, fresh, result.relations@).len() || b.edges.len() >= MAX_HANDLE
}

/// What happened to a watched file.
#[derive(Debug)]
pub enum FileChange {
    /// The file was parsed anew.
    Parsed(ParseResult),
    /// The file changed but could not be parsed.
    Failed(String),
    /// The file is gone.
    Deleted(String),
}

impl FileChange {
    /// The path of the file.
    pub open spec fn path(&self) -> Seq<char> {
        match self {
            FileChange::Parsed(r) => r.file_path@,
            FileChange::Failed(p) => p@,
            FileChange::Deleted(p) => p@,
        }
    }
}

/// Offers the nodes of `symbols` to the graph one by one, and lists those
/// that were stored.
pub fn add_symbols(graph: &mut ArborGraph, symbols: Vec<CodeNode>) -> (out: Vec<Fresh>)
    requires
        old(graph).wf(),
    ensures
        final(graph).wf(),
        planted(old(graph)@, final(graph)@, symbols@, fresh_views(out@)),
        final(graph).edges() == old(graph).edges(),
        final(graph).scores() == old(graph).scores(),
        forall|i: int| 0 <= i < out@.len() ==> final(graph).nodes().contains_key((#[trigger] out@[i]).handle as int),
{
    let total = symbols.len();
    let mut held = crate::node::reversed(symbols);
    let mut out: Vec<Fresh> = Vec::new();
    let ghost start = graph@;
    let mut i: usize = 0;
    proof {
        assert(symbols@.subrange(0, 0) =~= Seq::<CodeNode>::empty());
    }
    while held.len() > 0
        invariant
            graph.wf(),
            total == symbols@.len(),
            i + held@.len() == symbols@.len(),
            forall|k: int| 0 <= k < held@.len() ==> #[trigger] held@[k] == symbols@[symbols@.len() - 1 - k],
            planted(start, graph@, symbols@.subrange(0, i as int), fresh_views(out@)),
            graph.edges() == start.edges,
            graph.scores() == start.scores,
            forall|k: int| 0 <= k < out@.len() ==> graph.nodes().contains_key((#[trigger] out@[k]).handle as int),
        decreases held.len(),
    {
        let ghost mid = graph@;
        let ghost before = fresh_views(out@);
        let ghost outp = out@;
        assert(i < symbols@.len());
        let x = held.pop().unwrap();
        assert(x == symbols@[i as int]);
        let name = x.name.clone();
        let id = x.id.clone();
        match graph.add_node(x) {
            Ok(h) => {
                out.push(Fresh { name, id, handle: h.raw });
                proof {
                    assert(fresh_views(out@) =~= before.push(
                        FreshView { name: x.name@, id: x.id@, handle: h.raw },
                    ));
                    assert(planted_at(mid, graph@, x, h.raw));
                    assert forall|k: int| 0 <= k < out@.len() implies graph.nodes().contains_key(
                        (#[trigger] out@[k]).handle as int,
                    ) by {
                        if k < outp.len() {
                            assert(out@[k] == outp[k]);
                        }
                    }
                }
            },
            Err(_) => {
                proof {
                    assert(graph@ == mid);
                }
            },
        }
        proof {
            let upto = symbols@.subrange(0, i + 1);
            assert(upto.drop_last() =~= symbols@.subrange(0, i as int));
            assert(upto.last() == symbols@[i as int]);
            assert(planted_one(mid, graph@, upto.last(), before, fresh_views(out@)));
        }
        i = i + 1;
    }
    proof {
        assert(symbols@.subrange(0, symbols@.len() as int) =~= symbols@);
    }
    out
}

/// The handle of the first fresh symbol that is named `name` and is not the
/// node `from`.
pub fn find_named(fresh: &Vec<Fresh>, name: &str, from: usize) -> (out: Option<usize>)
    ensures
        out == first_named(fresh_views(fresh@), name@, from, 0),
        out.is_some() ==> exists|i: int| 0 <= i < fresh@.len() && (#[trigger] fresh@[i]).handle == out.unwrap(),
{
    let ghost views = fresh_views(fresh@);
    let mut i: usize = 0;
    while i < fresh.len()
        invariant
            i <= fresh.len(),
            views == fresh_views(fresh@),
            first_named(views, name@, from, 0) == first_named(views, name@, from, i as int),
        decreases fresh.len() - i,
    {
        if str_eq(fresh[i].name.as_str(), name) && fresh[i].handle != from {
            proof {
                assert(views[i as int] == fresh@[i as int]@);
            }
            return Some(fresh[i].handle);
        }
        proof {
            assert(views[i as int] == fresh@[i as int]@);
        }
        i = i + 1;
    }
    None
}

/// The handle of the first fresh symbol whose id is `id`.
pub fn find_with_id(fresh: &Vec<Fresh>, id: &str) -> (out: Option<usize>)
    ensures
        out == first_with_id(fresh_views(fresh@), id@, 0),
        out.is_some() ==> exists|i: int| 0 <= i < fresh@.len() && (#[trigger] fresh@[i]).handle == out.unwrap(),
{
    let ghost views = fresh_views(fresh@);
    let mut i: usize = 0;
    while i < fresh.len()
        invariant
            i <= fresh.len(),
            views == fresh_views(fresh@),
            first_with_id(views, id@, 0) == first_with_id(views, id@, i as int),
        decreases fresh.len() - i,
    {
        if str_eq(fresh[i].id.as_str(), id) {
            proof {
                assert(views[i as int] == fresh@[i as int]@);
            }
            return Some(fresh[i].handle);
        }
        proof {
            assert(views[i as int] == fresh@[i as int]@);
        }
        i = i + 1;
    }
    None
}

/// The node that `name`, mentioned by the node under `from`, resolves to.
pub fn resolve_incremental(graph: &ArborGraph, fresh: &Vec<Fresh>, from: usize, name: &str) -> (out: Option<
    usize,
>)
    requires
        graph.wf(),
        forall|i: int| 0 <= i < fresh@.len() ==> graph.nodes().contains_key((#[trigger] fresh@[i]).handle as int),
    ensures
        out == incremental_resolution(graph@.table, fresh_views(fresh@), from, name@),
        out.is_some() ==> graph.nodes().contains_key(out.unwrap() as int),
{
    match graph.resolve(name) {
        Some(to) => {
            if to.raw != from {
                return Some(to.raw);
            }
        },
        None => {},
    }
    let dotless = after_last(name, '.');
    let bare = after_last(dotless.as_str(), ':');
    find_named(fresh, bare.as_str(), from)
}

/// Every link that the fresh symbols and the relations call for: first those
/// of the symbols' references, then those of the relations.
pub fn pending_links(graph: &ArborGraph, fresh: &Vec<Fresh>, relations: &Vec<SymbolRelation>) -> (out: Vec<
    (NodeId, NodeId, EdgeKind),
>)
    requires
        graph.wf(),
        forall|i: int| 0 <= i < fresh@.len() ==> graph.nodes().contains_key((#[trigger] fresh@[i]).handle as int),
    ensures
        triples_of(out@) == pending_of(graph@, fresh_views(fresh@), relations@),
        forall|k: int|
            0 <= k < out@.len() ==> graph.nodes().contains_key((#[trigger] out@[k]).0.raw as int)
                && graph.nodes().contains_key(out@[k].1.raw as int),
{
    let ghost views = fresh_views(fresh@);
    let ghost v = graph@;
    let mut out: Vec<(NodeId, NodeId, EdgeKind)> = Vec::new();
    let mut i: usize = 0;
    proof {
        assert(triples_of(out@) =~= Seq::<(int, int, EdgeKind)>::empty());
    }
    while i < fresh.len()
        invariant
            graph.wf(),
            i <= fresh.len(),
            views == fresh_views(fresh@),
            v == graph@,
            forall|k: int| 0 <= k < fresh@.len() ==> graph.nodes().contains_key((#[trigger] fresh@[k]).handle as int),
            triples_of(out@) == fresh_links(v, views, i as int),
            forall|k: int|
                0 <= k < out@.len() ==> graph.nodes().contains_key((#[trigger] out@[k]).0.raw as int)
                    && graph.nodes().contains_key(out@[k].1.raw as int),
        decreases fresh.len() - i,
    {
        let from = fresh[i].handle;
        proof {
            assert(graph.nodes().contains_key(fresh@[i as int].handle as int));
            assert(views[i as int] == fresh@[i as int]@);
        }
        let node = graph.get(NodeId::new(from)).unwrap();
        let ghost base = triples_of(out@);
        let mut k: usize = 0;
        proof {
            assert(node.references@.subrange(0, 0) =~= Seq::<String>::empty());
            assert(base + Seq::<(int, int, EdgeKind)>::empty() =~= base);
        }
        while k < node.references.len()
            invariant
                graph.wf(),
                k <= node.references.len(),
                views == fresh_views(fresh@),
                v == graph@,
                forall|m: int| 0 <= m < fresh@.len() ==> graph.nodes().contains_key((#[trigger] fresh@[m]).handle as int),
                graph.nodes().contains_key(from as int),
                triples_of(out@) == base + node_links(v.table, views, from, node.references@.subrange(0, k as int)),
                forall|m: int|
                    0 <= m < out@.len() ==> graph.nodes().contains_key((#[trigger] out@[m]).0.raw as int)
                        && graph.nodes().contains_key(out@[m].1.raw as int),
            decreases node.references.len() - k,
        {
            let ghost outp = out@;
            let found = resolve_incremental(graph, fresh, from, node.references[k].as_str());
            match found {
                Some(to) => {
                    out.push((NodeId::new(from), NodeId::new(to), EdgeKind::Calls));
                },
                None => {},
            }
            proof {
                let upto = node.references@.subrange(0, k + 1);
                assert(upto.drop_last() =~= node.references@.subrange(0, k as int));
                assert(upto.last() == node.references@[k as int]);
                let before = node_links(v.table, views, from, upto.drop_last());
                if found.is_some() {
                    let link = (from as int, found.unwrap() as int, EdgeKind::Calls);
                    assert(triples_of(out@) =~= triples_of(outp).push(link));
                    assert(base + before.push(link) =~= (base + before).push(link));
                } else {
                    assert(triples_of(out@) =~= triples_of(outp));
                }
            }
            k = k + 1;
        }
        proof {
            assert(node.references@.subrange(0, node.references@.len() as int) =~= node.references@);
        }
        i = i + 1;
    }
    let ghost first = out@;
    let mut rest = links_of_relations(graph, fresh, relations);
    let ghost rest_links = rest@;
    out.append(&mut rest);
    proof {
        assert(triples_of(out@) =~= triples_of(first) + triples_of(rest_links));
    }
    out
}

/// The links that the relations call for, in order.
pub fn links_of_relations(graph: &ArborGraph, fresh: &Vec<Fresh>, relations: &Vec<SymbolRelation>) -> (out: Vec<
    (NodeId, NodeId, EdgeKind),
>)
    requires
        graph.wf(),
        forall|i: int| 0 <= i < fresh@.len() ==> graph.nodes().contains_key((#[trigger] fresh@[i]).handle as int),
    ensures
        triples_of(out@) == relation_links(graph@.table, fresh_views(fresh@), relations@),
        forall|k: int|
            0 <= k < out@.len() ==> graph.nodes().contains_key((#[trigger] out@[k]).0.raw as int)
                && graph.nodes().contains_key(out@[k].1.raw as int),
{
    let ghost views = fresh_views(fresh@);
    let ghost v = graph@;
    let mut out: Vec<(NodeId, NodeId, EdgeKind)> = Vec::new();
    let mut r: usize = 0;
    proof {
        assert(relations@.subrange(0, 0) =~= Seq::<SymbolRelation>::empty());
        assert(triples_of(out@) =~= Seq::<(int, int, EdgeKind)>::empty());
    }
    while r < relations.len()
        invariant
            graph.wf(),
            r <= relations.len(),
            views == fresh_views(fresh@),
            v == graph@,
            forall|m: int| 0 <= m < fresh@.len() ==> graph.nodes().contains_key((#[trigger] fresh@[m]).handle as int),
            triples_of(out@) == relation_links(v.table, views, relations@.subrange(0, r as int)),
            forall|m: int|
                0 <= m < out@.len() ==> graph.nodes().contains_key((#[trigger] out@[m]).0.raw as int)
                    && graph.nodes().contains_key(out@[m].1.raw as int),
        decreases relations.len() - r,
    {
        let ghost outp = out@;
        let relation = &relations[r];
        let ghost mut added: Option<(int, int, EdgeKind)> = None;
        match find_with_id(fresh, relation.from_id.as_str()) {
            Some(from) => {
                match resolve_incremental(graph, fresh, from, relation.to_name.as_str()) {
                    Some(to) => {
                        out.push((NodeId::new(from), NodeId::new(to), edge_kind_of(relation.kind)));
                        proof {
                            added = Some((from as int, to as int, edge_kind_for(relation.kind)));
                        }
                    },
                    None => {},
                }
            },
            None => {},
        }
        proof {
            let upto = relations@.subrange(0, r + 1);
            assert(upto.drop_last() =~= relations@.subrange(0, r as int));
            assert(upto.last() == relations@[r as int]);
            if added.is_some() {
                assert(triples_of(out@) =~= triples_of(outp).push(added.unwrap()));
            } else {
                assert(triples_of(out@) =~= triples_of(outp));
            }
        }
        r = r + 1;
    }
    proof {
        assert(relations@.subrange(0, relations@.len() as int) =~= relations@);
    }
    out
}

/// The symbols of `symbols` that the graph holds, each with its handle, in
/// order.
pub open spec fn known(ids: Map<Seq<char>, usize>, symbols: Seq<CodeNodeView>) -> Seq<FreshView>
    decreases symbols.len(),
{
    if symbols.len() == 0 {
        Seq::empty()
    } else {
        let before = known(ids, symbols.drop_last());
        let last = symbols.last();
        if ids.contains_key(last.id) {
            before.push(FreshView { name: last.name, id: last.id, handle: ids[last.id] })
        } else {
            before
        }
    }
}

/// The symbols of `symbols` that the graph holds, each with its handle, in
/// order.
pub fn known_symbols(graph: &ArborGraph, symbols: &Vec<CodeNode>) -> (out: Vec<Fresh>)
    requires
        graph.wf(),
    ensures
        fresh_views(out@) == known(graph.ids(), node_views(symbols@)),
        forall|i: int| 0 <= i < out@.len() ==> graph.nodes().contains_key((#[trigger] out@[i]).handle as int),
{
    let mut out: Vec<Fresh> = Vec::new();
    let mut i: usize = 0;
    proof {
        assert(node_views(symbols@).subrange(0, 0) =~= Seq::<CodeNodeView>::empty());
        assert(fresh_views(out@) =~= Seq::<FreshView>::empty());
    }
    while i < symbols.len()
        invariant
            graph.wf(),
            i <= symbols.len(),
            fresh_views(out@) == known(graph.ids(), node_views(symbols@).subrange(0, i as int)),
            forall|k: int| 0 <= k < out@.len() ==> graph.nodes().contains_key((#[trigger] out@[k]).handle as int),
        decreases symbols.len() - i,
    {
        let ghost outp = out@;
        let symbol = &symbols[i];
        let found = graph.get_index(symbol.id.as_str());
        match found {
            Some(h) => {
                out.push(Fresh { name: symbol.name.clone(), id: symbol.id.clone(), handle: h.raw });
            },
            None => {},
        }
        proof {
            let upto = node_views(symbols@).subrange(0, i + 1);
            assert(upto.drop_last() =~= node_views(symbols@).subrange(0, i as int));
            assert(upto.last() == symbols@[i as int]@);
            if found.is_some() {
                let added = FreshView { name: symbol.name@, id: symbol.id@, handle: found.unwrap().raw };
                assert(fresh_views(out@) =~= fresh_views(outp).push(added));
            } else {
                assert(fresh_views(out@) =~= fresh_views(outp));
            }
        }
        i = i + 1;
    }
    proof {
        assert(node_views(symbols@).subrange(0, symbols@.len() as int) =~= node_views(symbols@));
    }
    out
}

/// The links that the relations of a file call for in a graph that holds
/// the file's symbols: a relation that starts at one of the symbols and
/// whose target resolves becomes a link.
pub open spec fn file_links(v: GraphView, symbols: Seq<CodeNodeView>, relations: Seq<SymbolRelation>) -> Seq<
    (int, int, EdgeKind),
> {
    relation_links(v.table, known(v.ids, symbols), relations)
}

/// Adds an edge for each relation of a file whose symbols `symbols` are in
/// the graph, and returns how many were added: all that the relations call
/// for, unless the edge indexes ran out. A target is looked up in the symbol
/// table of the whole graph and then, by its last segment, among the
/// symbols of the file.
pub fn link_relations(graph: &mut ArborGraph, symbols: &Vec<CodeNode>, relations: &Vec<SymbolRelation>) -> (n: usize)
    requires
        old(graph).wf(),
    ensures
        final(graph).wf(),
        final(graph)@.nodes == old(graph)@.nodes,
        final(graph)@.ids == old(graph)@.ids,
        final(graph)@.table == old(graph)@.table,
        final(graph)@.scores == old(graph)@.scores,
        n <= file_links(old(graph)@, node_views(symbols@), relations@).len(),
        linked_all(
            old(graph)@.edges,
            final(graph)@.edges,
            file_links(old(graph)@, node_views(symbols@), relations@).subrange(0, n as int),
        ),
        n < file_links(old(graph)@, node_views(symbols@), relations@).len() ==> final(graph)@.edges.len()
            >= MAX_HANDLE,
{
    let fresh = known_symbols(graph, symbols);
    let links = links_of_relations(graph, &fresh, relations);
    link_all(graph, &links)
}

/// Adds an edge for each link of `links`, in order, and returns how many
/// were added: all of them, unless the edge indexes ran out or a link names
/// a handle that is not live.
pub fn link_all(graph: &mut ArborGraph, links: &Vec<(NodeId, NodeId, EdgeKind)>) -> (n: usize)
    requires
        old(graph).wf(),
    ensures
        final(graph).wf(),
        final(graph)@.nodes == old(graph)@.nodes,
        final(graph)@.ids == old(graph)@.ids,
        final(graph)@.table == old(graph)@.table,
        final(graph)@.scores == old(graph)@.scores,
        n <= links@.len(),
        linked_all(old(graph)@.edges, final(graph)@.edges, triples_of(links@).subrange(0, n as int)),
        n < links@.len() ==> final(graph)@.edges.len() >= MAX_HANDLE || !(old(graph).nodes().contains_key(
            links@[n as int].0.raw as int,
        ) && old(graph).nodes().contains_key(links@[n as int].1.raw as int)),
{
    let ghost start = graph@;
    let ghost all = triples_of(links@);
    let mut i: usize = 0;
    let mut going = true;
    proof {
        assert(all.subrange(0, 0) =~= Seq::<(int, int, EdgeKind)>::empty());
    }
    while i < links.len() && going
        invariant
            graph.wf(),
            i <= links.len(),
            all == triples_of(links@),
            graph@.nodes == start.nodes,
            graph@.ids == start.ids,
            graph@.table == start.table,
            graph@.scores == start.scores,
            linked_all(start.edges, graph@.edges, all.subrange(0, i as int)),
            !going ==> i < links.len() && (graph@.edges.len() >= MAX_HANDLE || !(start.nodes.contains_key(
                links@[i as int].0.raw as int,
            ) && start.nodes.contains_key(links@[i as int].1.raw as int))),
        decreases links.len() - i + if going { 1int } else { 0int },
    {
        let link = links[i];
        let ghost mid = graph@.edges;
        match graph.add_edge(link.0, link.1, Edge::new(link.2)) {
            Ok(_) => {
                proof {
                    let e = choose|e: int|
                        !mid.contains_key(e) && graph@.edges == mid.insert(
                            e,
                            (link.0.raw as int, link.1.raw as int, plain_edge(link.2)),
                        );
                    let upto = all.subrange(0, i + 1);
                    assert(upto.drop_last() =~= all.subrange(0, i as int));
                    assert(upto.last() == (link.0.raw as int, link.1.raw as int, link.2));
                    assert(linked_one(mid, graph@.edges, e, upto.last()));
                }
                i = i + 1;
            },
            Err(_) => {
                going = false;
            },
        }
    }
    i
}

/// Brings the graph up to date with a change to one file and says what to
/// broadcast. The file is evicted first; if it was parsed, its symbols are
/// added and the names they mention are linked. A file that could not be
/// parsed is left without symbols until it parses again.
pub fn reindex(graph: &mut ArborGraph, change: FileChange, timestamp: u64) -> (out: BroadcastMessage)
    requires
        old(graph).wf(),
    ensures
        final(graph).wf(),
        match change {
            FileChange::Parsed(result) => reindexed(old(graph)@, final(graph)@, result),
            FileChange::Failed(path) => final(graph)@ == removed(old(graph)@, path@),
            FileChange::Deleted(path) => final(graph)@ == removed(old(graph)@, path@),
        },
        out.is_delta(),
        out matches BroadcastMessage::GraphUpdate(p) && p.reports(final(graph)) && p.timestamp == timestamp
            && p.changed_files@.len() == 1 && p.changed_files@[0]@ == change.path(),
{
    match change {
        FileChange::Parsed(result) => {
            let ParseResult { symbols, relations, file_path } = result;
            graph.remove_file(file_path.as_str());
            let ghost cleared = graph@;
            let fresh = add_symbols(graph, symbols);
            let ghost mid = graph@;
            let links = pending_links(graph, &fresh, &relations);
            let n = link_all(graph, &links);
            proof {
                assert(cleared == removed(old(graph)@, file_path@));
                assert(reindexed_via(old(graph)@, graph@, result, mid, fresh_views(fresh@), n as int));
            }
            BroadcastMessage::delta(graph, file_path.as_str(), timestamp)
        },
        FileChange::Failed(path) => {
            graph.remove_file(path.as_str());
            BroadcastMessage::delta(graph, path.as_str(), timestamp)
        },
        FileChange::Deleted(path) => {
            graph.remove_file(path.as_str());
            BroadcastMessage::delta(graph, path.as_str(), timestamp)
        },
    }
}

} // verus!
