//! The code graph: symbols, the edges between them, and the indexes that
//! find them.

use vstd::prelude::*;
use vstd::hash_map::StringHashMap;
use vstd::string::*;
use std::collections::HashMap;
use crate::edge::{Edge, EdgeKind, GraphEdge};
use crate::node::{CodeNode, NodeId};
use crate::postings::PostingMap;
use crate::search_index::SearchIndex;
use crate::symbol_table::SymbolTable;
use crate::text::lowercase;
use crate::topology::{
    EdgeHit, ImpactDirection, MAX_HANDLE, Topology, edges_avoiding, far_end, live_edges,
    live_nodes, near_end, topo_add_edge, topo_add_node, topo_edge_count, topo_edge_references,
    topo_edge_weight, topo_edges_directed, topo_new, topo_node_count, topo_node_indices,
    topo_node_weight, topo_remove_node, topo_shortest_path, is_walk,
};
use crate::text::is_substring;
use crate::search_index::query_matches;
use crate::traverse::{Arrival, Neighborhood, Reached, arrives, at_distance, lists_arrival, reach, reach_in, reports};

verus! {

broadcast use vstd::std_specs::hash::group_hash_axioms;

/// Why the graph refused a change.
#[derive(Clone, Copy, Debug, PartialEq, Eq, Structural)]
pub enum GraphError {
    /// A node with the same id is already in the graph.
    DuplicateId,
    /// The graph holds as many nodes or edges as it has handles for.
    Full,
    /// An endpoint of the edge is not a node of the graph.
    MissingNode,
}

/// Counts of what the graph holds.
#[derive(Clone, Copy, Debug, PartialEq, Eq, Structural)]
pub struct GraphStats {
    pub node_count: usize,
    pub edge_count: usize,
    pub files: usize,
}

/// What a graph holds, as mathematical values.
pub struct GraphView {
    /// The live nodes, by handle.
    pub nodes: Map<int, CodeNode>,
    /// The live edges, by edge index: source, target and weight.
    pub edges: Map<int, (int, int, Edge)>,
    /// The handle filed under each id.
    pub ids: Map<Seq<char>, usize>,
    /// The node each qualified name resolves to.
    pub table: Map<Seq<char>, NodeId>,
    /// The centrality scores that were set, by handle.
    pub scores: Map<usize, u64>,
}

/// A directed multigraph of symbols with indexes by id, name, file and
/// qualified name, a substring index over names, and a centrality score per
/// node.
pub struct ArborGraph {
    graph: Topology,
    id_index: StringHashMap<usize>,
    name_index: PostingMap,
    file_index: PostingMap,
    symbols: SymbolTable,
    search: SearchIndex,
    centrality: HashMap<usize, u64>,
}

impl View for ArborGraph {
    type V = GraphView;

    open spec fn view(&self) -> GraphView {
        GraphView {
            nodes: self.nodes(),
            edges: self.edges(),
            ids: self.ids(),
            table: self.fqn_table(),
            scores: self.scores(),
        }
    }
}

impl ArborGraph {
    /// The live nodes, by handle.
    pub closed spec fn nodes(&self) -> Map<int, CodeNode> {
        live_nodes(self.graph)
    }

    /// The live edges, by edge index: source, target and weight.
    pub closed spec fn edges(&self) -> Map<int, (int, int, Edge)> {
        live_edges(self.graph)
    }

    /// The id index: the handle filed under each id.
    pub closed spec fn ids(&self) -> Map<Seq<char>, usize> {
        self.id_index@
    }

    /// The name index: the handles filed under `name`.
    pub closed spec fn named(&self, name: Seq<char>) -> Set<usize> {
        self.name_index.members(name)
    }

    /// The file index: the handles filed under `file`.
    pub closed spec fn in_file(&self, file: Seq<char>) -> Set<usize> {
        self.file_index.members(file)
    }

    /// The files under which the file index holds a handle.
    pub closed spec fn files(&self) -> Set<Seq<char>> {
        self.file_index.keys()
    }

    /// The symbol table: the node each qualified name resolves to.
    pub closed spec fn fqn_table(&self) -> Map<Seq<char>, NodeId> {
        self.symbols.table()
    }

    /// The substring index: the lower-case name each handle is filed under.
    pub closed spec fn search_names(&self) -> Map<usize, Seq<char>> {
        self.search@
    }

    /// The centrality scores that were set, by handle.
    pub closed spec fn scores(&self) -> Map<usize, u64> {
        self.centrality@
    }

    /// The centrality score of the node under `h`: the score that was set
    /// for it, or zero.
    pub open spec fn score_of(&self, h: usize) -> u64 {
        if self.scores().contains_key(h) {
            self.scores()[h]
        } else {
            0
        }
    }

    /// The graph is finite, its handles fit the handle range, and every edge
    /// joins two live nodes.
    pub open spec fn topo_ok(&self) -> bool {
        &&& self.nodes().dom().finite()
        &&& self.edges().dom().finite()
        &&& forall|h: int| #[trigger] self.nodes().contains_key(h) ==> 0 <= h < MAX_HANDLE
        &&& forall|e: int| #[trigger]
            self.edges().contains_key(e) ==> 0 <= e < MAX_HANDLE && self.nodes().contains_key(
                self.edges()[e].0,
            ) && self.nodes().contains_key(self.edges()[e].1)
    }

    /// The id index files each live node under its id, and nothing else.
    pub open spec fn ids_ok(&self) -> bool {
        &&& forall|h: int| #[trigger]
            self.nodes().contains_key(h) ==> self.ids().contains_key(self.nodes()[h].id@)
                && self.ids()[self.nodes()[h].id@] == h
        &&& forall|id: Seq<char>| #[trigger]
            self.ids().contains_key(id) ==> self.nodes().contains_key(self.ids()[id] as int)
                && self.nodes()[self.ids()[id] as int].id@ == id
    }

    /// The name index files each live node under its name, and nothing else.
    pub open spec fn names_ok(&self) -> bool {
        forall|name: Seq<char>, h: usize| #[trigger]
            self.named(name).contains(h) <==> self.nodes().contains_key(h as int)
                && self.nodes()[h as int].name@ == name
    }

    /// The file index files each live node under its file, and nothing else.
    pub open spec fn files_ok(&self) -> bool {
        forall|file: Seq<char>, h: usize| #[trigger]
            self.in_file(file).contains(h) <==> self.nodes().contains_key(h as int)
                && self.nodes()[h as int].file@ == file
    }

    /// Every qualified name in the symbol table resolves to a live node that
    /// bears it.
    pub open spec fn symbols_ok(&self) -> bool {
        forall|q: Seq<char>| #[trigger]
            self.fqn_table().contains_key(q) ==> self.nodes().contains_key(
                self.fqn_table()[q].raw as int,
            ) && self.nodes()[self.fqn_table()[q].raw as int].qualified_name@ == q
    }

    /// The substring index files each live node under its lower-case name, and
    /// nothing else.
    pub open spec fn search_ok(&self) -> bool {
        &&& forall|h: usize| #[trigger]
            self.search_names().contains_key(h) <==> self.nodes().contains_key(h as int)
        &&& forall|h: usize| #[trigger]
            self.search_names().contains_key(h) ==> self.search_names()[h] == lowercase(
                self.nodes()[h as int].name@,
            )
    }

    /// Only live nodes have a score.
    pub open spec fn scores_ok(&self) -> bool {
        forall|h: usize| #[trigger]
            self.scores().contains_key(h) ==> self.nodes().contains_key(h as int)
    }

    /// The parts of the graph are each well formed.
    pub closed spec fn parts_ok(&self) -> bool {
        &&& self.name_index.wf()
        &&& self.file_index.wf()
        &&& self.search.wf()
    }

    /// Everything but the file index agrees with the nodes.
    pub open spec fn core_ok(&self) -> bool {
        &&& self.parts_ok()
        &&& self.topo_ok()
        &&& self.ids_ok()
        &&& self.names_ok()
        &&& self.symbols_ok()
        &&& self.search_ok()
        &&& self.scores_ok()
    }

    /// The graph is well formed: every index agrees with the nodes, and every
    /// edge joins two live nodes.
    pub open spec fn wf(&self) -> bool {
        &&& self.core_ok()
        &&& self.files_ok()
    }

    /// The qualified-name table after a node with the qualified name `q` got
    /// handle `h`: an empty name is not registered.
    pub open spec fn table_with(table: Map<Seq<char>, NodeId>, q: Seq<char>, h: usize) -> Map<
        Seq<char>,
        NodeId,
    > {
        if q.len() == 0 {
            table
        } else {
            table.insert(q, NodeId { raw: h })
        }
    }

    /// An index that has not changed still agrees with nodes that have not
    /// changed.
    proof fn lemma_unchanged(a: ArborGraph, b: ArborGraph)
        requires
            a.nodes() == b.nodes(),
        ensures
            a.names_ok() && a.name_index == b.name_index ==> b.names_ok(),
            a.files_ok() && a.file_index == b.file_index ==> b.files_ok(),
            a.ids_ok() && a.id_index == b.id_index ==> b.ids_ok(),
            a.symbols_ok() && a.symbols == b.symbols ==> b.symbols_ok(),
            a.search_ok() && a.search == b.search ==> b.search_ok(),
            a.scores_ok() && a.centrality == b.centrality ==> b.scores_ok(),
    {
        if a.names_ok() && a.name_index == b.name_index {
            assert forall|n: Seq<char>, x: usize| #[trigger]
                b.named(n).contains(x) <==> b.nodes().contains_key(x as int) && b.nodes()[x as int].name@
                    == n by {
                assert(a.named(n).contains(x) <==> a.nodes().contains_key(x as int)
                    && a.nodes()[x as int].name@ == n);
            }
        }
        if a.files_ok() && a.file_index == b.file_index {
            assert forall|f: Seq<char>, x: usize| #[trigger]
                b.in_file(f).contains(x) <==> b.nodes().contains_key(x as int) && b.nodes()[x as int].file@
                    == f by {
                assert(a.in_file(f).contains(x) <==> a.nodes().contains_key(x as int)
                    && a.nodes()[x as int].file@ == f);
            }
        }
        if a.ids_ok() && a.id_index == b.id_index {
            assert forall|h: int| #[trigger] b.nodes().contains_key(h) implies b.ids().contains_key(
                b.nodes()[h].id@,
            ) && b.ids()[b.nodes()[h].id@] == h by {
                assert(a.nodes().contains_key(h));
            }
            assert forall|i: Seq<char>| #[trigger] b.ids().contains_key(i) implies b.nodes().contains_key(
                b.ids()[i] as int,
            ) && b.nodes()[b.ids()[i] as int].id@ == i by {
                assert(a.ids().contains_key(i));
            }
        }
        if a.symbols_ok() && a.symbols == b.symbols {
            assert forall|q: Seq<char>| #[trigger] b.fqn_table().contains_key(q) implies b.nodes().contains_key(
                b.fqn_table()[q].raw as int,
            ) && b.nodes()[b.fqn_table()[q].raw as int].qualified_name@ == q by {
                assert(a.fqn_table().contains_key(q));
            }
        }
        if a.search_ok() && a.search == b.search {
            assert forall|x: usize| #[trigger]
                b.search_names().contains_key(x) <==> b.nodes().contains_key(x as int) by {
                assert(a.search_names().contains_key(x) <==> a.nodes().contains_key(x as int));
            }
            assert forall|x: usize| #[trigger]
                b.search_names().contains_key(x) implies b.search_names()[x] == lowercase(
                b.nodes()[x as int].name@,
            ) by {
                assert(a.search_names().contains_key(x));
            }
        }
        if a.scores_ok() && a.centrality == b.centrality {
            assert forall|x: usize| #[trigger] b.scores().contains_key(x) implies b.nodes().contains_key(
                x as int,
            ) by {
                assert(a.scores().contains_key(x));
            }
        }
    }

    /// The nodes of `nodes` that are not in `file`.
    pub open spec fn nodes_outside(nodes: Map<int, CodeNode>, file: Seq<char>) -> Map<int, CodeNode> {
        Map::new(|h: int| nodes.contains_key(h) && nodes[h].file@ != file, |h: int| nodes[h])
    }

    /// The edges of `edges` with neither end in `file`.
    pub open spec fn edges_outside(
        nodes: Map<int, CodeNode>,
        edges: Map<int, (int, int, Edge)>,
        file: Seq<char>,
    ) -> Map<int, (int, int, Edge)> {
        Map::new(
            |e: int|
                edges.contains_key(e) && nodes[edges[e].0].file@ != file && nodes[edges[e].1].file@
                    != file,
            |e: int| edges[e],
        )
    }

    /// The entries of the qualified-name table that do not resolve to `h`.
    pub open spec fn table_without(table: Map<Seq<char>, NodeId>, h: usize) -> Map<Seq<char>, NodeId> {
        Map::new(|q: Seq<char>| table.contains_key(q) && table[q].raw != h, |q: Seq<char>| table[q])
    }

    /// The entries of the qualified-name table that resolve to a node outside
    /// `file`.
    pub open spec fn table_outside(
        nodes: Map<int, CodeNode>,
        table: Map<Seq<char>, NodeId>,
        file: Seq<char>,
    ) -> Map<Seq<char>, NodeId> {
        Map::new(
            |q: Seq<char>| table.contains_key(q) && nodes[table[q].raw as int].file@ != file,
            |q: Seq<char>| table[q],
        )
    }

    /// The entries of the id index for nodes outside `file`.
    pub open spec fn ids_outside(nodes: Map<int, CodeNode>, ids: Map<Seq<char>, usize>, file: Seq<char>) -> Map<
        Seq<char>,
        usize,
    > {
        Map::new(|i: Seq<char>| ids.contains_key(i) && nodes[ids[i] as int].file@ != file, |i: Seq<char>| ids[i])
    }

    /// The scores of the nodes outside `file`.
    pub open spec fn scores_outside(
        nodes: Map<int, CodeNode>,
        scores: Map<usize, u64>,
        file: Seq<char>,
    ) -> Map<usize, u64> {
        Map::new(
            |h: usize| scores.contains_key(h) && nodes[h as int].file@ != file,
            |h: usize| scores[h],
        )
    }

    /// A graph that holds nothing.
    pub fn new() -> (out: ArborGraph)
        ensures
            out.wf(),
            out.nodes() == Map::<int, CodeNode>::empty(),
            out.edges() == Map::<int, (int, int, Edge)>::empty(),
            out.fqn_table() == Map::<Seq<char>, NodeId>::empty(),
            out.scores() == Map::<usize, u64>::empty(),
            out.ids() == Map::<Seq<char>, usize>::empty(),
    {
        ArborGraph {
            graph: topo_new(),
            id_index: StringHashMap::new(),
            name_index: PostingMap::new(),
            file_index: PostingMap::new(),
            symbols: SymbolTable::new(),
            search: SearchIndex::new(),
            centrality: HashMap::new(),
        }
    }

    /// Puts `node` into the graph and into every index, and returns its
    /// handle. A node whose id is already in the graph is refused, and so is
    /// any node once the handles have run out; the graph then stays as it is.
    pub fn add_node(&mut self, node: CodeNode) -> (out: Result<NodeId, GraphError>)
        requires
            old(self).wf(),
        ensures
            final(self).wf(),
            match out {
                Ok(id) => {
                    &&& !old(self).ids().contains_key(node.id@)
                    &&& old(self).nodes().len() < MAX_HANDLE
                    &&& !old(self).nodes().contains_key(id.raw as int)
                    &&& final(self).nodes() == old(self).nodes().insert(id.raw as int, node)
                    &&& final(self).edges() == old(self).edges()
                    &&& final(self).fqn_table() == Self::table_with(
                        old(self).fqn_table(),
                        node.qualified_name@,
                        id.raw,
                    )
                    &&& final(self).scores() == old(self).scores()
                    &&& final(self).ids() == old(self).ids().insert(node.id@, id.raw)
                },
                Err(GraphError::DuplicateId) => old(self).ids().contains_key(node.id@) && *final(self)
                    == *old(self),
                Err(GraphError::Full) => !old(self).ids().contains_key(node.id@) && old(
                    self,
                ).nodes().len() >= MAX_HANDLE && *final(self) == *old(self),
                Err(GraphError::MissingNode) => false,
            },
    {
        if self.id_index.contains_key(node.id.as_str()) {
            return Err(GraphError::DuplicateId);
        }
        if topo_node_count(&self.graph) >= MAX_HANDLE {
            return Err(GraphError::Full);
        }
        let id = node.id.clone();
        let name = node.name.clone();
        let file = node.file.clone();
        let qualified = node.qualified_name.clone();
        let h = topo_add_node(&mut self.graph, node);
        self.id_index.insert(id, h);
        self.name_index.add(name.as_str(), h);
        self.file_index.add(file.as_str(), h);
        if qualified.as_str().unicode_len() > 0 {
            self.symbols.insert(qualified, NodeId::new(h), file.as_str());
        }
        self.search.insert(name.as_str(), NodeId::new(h));
        proof {
            assert(self.topo_ok());
            assert(self.ids_ok()) by {
                assert forall|x: int| #[trigger] self.nodes().contains_key(x) implies self.ids().contains_key(
                    self.nodes()[x].id@,
                ) && self.ids()[self.nodes()[x].id@] == x by {
                    if x != h {
                        assert(old(self).nodes().contains_key(x));
                    }
                }
                assert forall|i: Seq<char>| #[trigger] self.ids().contains_key(i) implies self.nodes().contains_key(
                    self.ids()[i] as int,
                ) && self.nodes()[self.ids()[i] as int].id@ == i by {
                    if i != node.id@ {
                        assert(old(self).ids().contains_key(i));
                    }
                }
            }
            assert(self.names_ok()) by {
                assert forall|n: Seq<char>, x: usize| #[trigger]
                    self.named(n).contains(x) <==> self.nodes().contains_key(x as int)
                        && self.nodes()[x as int].name@ == n by {
                    assert(old(self).named(n).contains(x) <==> old(self).nodes().contains_key(
                        x as int,
                    ) && old(self).nodes()[x as int].name@ == n);
                }
            }
            assert(self.files_ok()) by {
                assert forall|f: Seq<char>, x: usize| #[trigger]
                    self.in_file(f).contains(x) <==> self.nodes().contains_key(x as int)
                        && self.nodes()[x as int].file@ == f by {
                    assert(old(self).in_file(f).contains(x) <==> old(self).nodes().contains_key(
                        x as int,
                    ) && old(self).nodes()[x as int].file@ == f);
                }
            }
            assert(self.symbols_ok()) by {
                assert forall|q: Seq<char>| #[trigger] self.fqn_table().contains_key(q) implies self.nodes().contains_key(
                    self.fqn_table()[q].raw as int,
                ) && self.nodes()[self.fqn_table()[q].raw as int].qualified_name@ == q by {
                    if q != node.qualified_name@ || node.qualified_name@.len() == 0 {
                        assert(old(self).fqn_table().contains_key(q));
                    }
                }
            }
            assert(self.search_ok()) by {
                assert forall|x: usize| #[trigger]
                    self.search_names().contains_key(x) <==> self.nodes().contains_key(
                        x as int,
                    ) by {
                    assert(old(self).search_names().contains_key(x) <==> old(self).nodes().contains_key(
                        x as int,
                    ));
                }
                assert forall|x: usize| #[trigger]
                    self.search_names().contains_key(x) implies self.search_names()[x] == lowercase(
                    self.nodes()[x as int].name@,
                ) by {
                    if x != h {
                        assert(old(self).search_names().contains_key(x));
                    }
                }
            }
            assert(self.scores_ok()) by {
                assert forall|x: usize| #[trigger] self.scores().contains_key(x) implies self.nodes().contains_key(
                    x as int,
                ) by {
                    assert(old(self).scores().contains_key(x));
                }
            }
        }
        Ok(NodeId::new(h))
    }

    /// Adds an edge from `from` to `to`. Edges are not deduplicated. An edge
    /// with an endpoint that is not a live node is refused, and so is any edge
    /// once the edge indexes have run out; the graph then stays as it is.
    pub fn add_edge(&mut self, from: NodeId, to: NodeId, edge: Edge) -> (out: Result<(), GraphError>)
        requires
            old(self).wf(),
        ensures
            final(self).wf(),
            final(self).nodes() == old(self).nodes(),
            final(self).fqn_table() == old(self).fqn_table(),
            final(self).scores() == old(self).scores(),
            final(self).ids() == old(self).ids(),
            match out {
                Ok(_) => {
                    &&& old(self).nodes().contains_key(from.raw as int)
                    &&& old(self).nodes().contains_key(to.raw as int)
                    &&& old(self).edges().len() < MAX_HANDLE
                    &&& exists|e: int|
                        !old(self).edges().contains_key(e) && final(self).edges() == old(
                            self,
                        ).edges().insert(e, (from.raw as int, to.raw as int, edge))
                },
                Err(GraphError::MissingNode) => !(old(self).nodes().contains_key(from.raw as int) && old(
                    self,
                ).nodes().contains_key(to.raw as int)) && *final(self) == *old(self),
                Err(GraphError::Full) => old(self).nodes().contains_key(from.raw as int) && old(
                    self,
                ).nodes().contains_key(to.raw as int) && old(self).edges().len() >= MAX_HANDLE
                    && *final(self) == *old(self),
                Err(GraphError::DuplicateId) => false,
            },
    {
        if !self.contains(from) || !self.contains(to) {
            return Err(GraphError::MissingNode);
        }
        if topo_edge_count(&self.graph) >= MAX_HANDLE {
            return Err(GraphError::Full);
        }
        let e = topo_add_edge(&mut self.graph, from.raw, to.raw, edge);
        proof {
            assert(self.edges() == old(self).edges().insert(
                e as int,
                (from.raw as int, to.raw as int, edge),
            ));
            Self::lemma_unchanged(*old(self), *self);
        }
        Ok(())
    }

    /// Takes the node under `h` out of the graph and out of every index but
    /// the file index, together with the edges that touch it.
    fn detach(&mut self, h: usize) -> (node: CodeNode)
        requires
            old(self).core_ok(),
            old(self).nodes().contains_key(h as int),
        ensures
            final(self).core_ok(),
            node == old(self).nodes()[h as int],
            final(self).nodes() == old(self).nodes().remove(h as int),
            final(self).edges() == edges_avoiding(old(self).edges(), h as int),
            final(self).file_index == old(self).file_index,
            final(self).fqn_table() == Self::table_without(old(self).fqn_table(), h),
            final(self).scores() == old(self).scores().remove(h),
            final(self).ids() == old(self).ids().remove(old(self).nodes()[h as int].id@),
    {
        let found = topo_remove_node(&mut self.graph, h);
        let node = found.unwrap();
        self.id_index.remove(node.id.as_str());
        self.name_index.remove(node.name.as_str(), h);
        self.symbols.forget(node.qualified_name.as_str(), NodeId::new(h));
        self.search.remove(node.name.as_str(), NodeId::new(h));
        self.centrality.remove(&h);
        proof {
            let o = *old(self);
            assert(o.search_names().contains_key(h));
            assert(self.search_names() == o.search_names().remove(h));
            assert(self.topo_ok()) by {
                assert(self.edges().dom().subset_of(o.edges().dom()));
                vstd::set_lib::lemma_set_subset_finite(o.edges().dom(), self.edges().dom());
                assert forall|e: int| #[trigger] self.edges().contains_key(e) implies 0 <= e
                    < MAX_HANDLE && self.nodes().contains_key(self.edges()[e].0)
                    && self.nodes().contains_key(self.edges()[e].1) by {
                    assert(o.edges().contains_key(e));
                }
            }
            assert(self.ids_ok()) by {
                assert forall|x: int| #[trigger] self.nodes().contains_key(x) implies self.ids().contains_key(
                    self.nodes()[x].id@,
                ) && self.ids()[self.nodes()[x].id@] == x by {
                    assert(o.nodes().contains_key(x));
                    assert(o.nodes().contains_key(h as int));
                }
                assert forall|i: Seq<char>| #[trigger] self.ids().contains_key(i) implies self.nodes().contains_key(
                    self.ids()[i] as int,
                ) && self.nodes()[self.ids()[i] as int].id@ == i by {
                    assert(o.ids().contains_key(i));
                }
            }
            assert(self.names_ok()) by {
                assert forall|n: Seq<char>, x: usize| #[trigger]
                    self.named(n).contains(x) <==> self.nodes().contains_key(x as int)
                        && self.nodes()[x as int].name@ == n by {
                    assert(o.named(n).contains(x) <==> o.nodes().contains_key(x as int)
                        && o.nodes()[x as int].name@ == n);
                }
            }
            assert(self.fqn_table() =~= Self::table_without(o.fqn_table(), h)) by {
                assert forall|q: Seq<char>| #[trigger] o.fqn_table().contains_key(q) && o.fqn_table()[q].raw == h implies q == node.qualified_name@ by {}
            }
            assert(self.symbols_ok()) by {
                assert forall|q: Seq<char>| #[trigger] self.fqn_table().contains_key(q) implies self.nodes().contains_key(
                    self.fqn_table()[q].raw as int,
                ) && self.nodes()[self.fqn_table()[q].raw as int].qualified_name@ == q by {
                    assert(o.fqn_table().contains_key(q));
                }
            }
            assert(self.search_ok()) by {
                assert forall|x: usize| #[trigger]
                    self.search_names().contains_key(x) <==> self.nodes().contains_key(
                        x as int,
                    ) by {
                    assert(o.search_names().contains_key(x) <==> o.nodes().contains_key(x as int));
                }
                assert forall|x: usize| #[trigger]
                    self.search_names().contains_key(x) implies self.search_names()[x] == lowercase(
                    self.nodes()[x as int].name@,
                ) by {
                    assert(o.search_names().contains_key(x));
                }
            }
            assert(self.scores_ok()) by {
                assert forall|x: usize| #[trigger] self.scores().contains_key(x) implies self.nodes().contains_key(
                    x as int,
                ) by {
                    assert(o.scores().contains_key(x));
                }
            }
        }
        node
    }

    /// Evicts `file`: removes the nodes whose file is `file`, their entries in
    /// every index, and every edge that touches one of them. All other nodes
    /// and edges stay, under the handles they had.
    pub fn remove_file(&mut self, file: &str)
        requires
            old(self).wf(),
        ensures
            final(self).wf(),
            final(self).nodes() == Self::nodes_outside(old(self).nodes(), file@),
            final(self).edges() == Self::edges_outside(old(self).nodes(), old(self).edges(), file@),
            final(self).fqn_table() == Self::table_outside(old(self).nodes(), old(self).fqn_table(), file@),
            final(self).scores() == Self::scores_outside(old(self).nodes(), old(self).scores(), file@),
            final(self).ids() == Self::ids_outside(old(self).nodes(), old(self).ids(), file@),
            forall|h: int| #[trigger] final(self).nodes().contains_key(h) ==> final(self).nodes()[h].file@ != file@,
            forall|e: int| #[trigger]
                final(self).edges().contains_key(e) ==> old(self).nodes()[final(self).edges()[e].0].file@ != file@
                    && old(self).nodes()[final(self).edges()[e].1].file@ != file@,
    {
        let handles = self.file_index.take(file);
        self.symbols.forget_file(file);
        let ghost o = *old(self);
        proof {
            Self::lemma_unchanged(o, *self);
        }
        let mut i: usize = 0;
        while i < handles.len()
            invariant
                i <= handles.len(),
                o.wf(),
                self.core_ok(),
                handles@.no_duplicates(),
                handles@.to_set() == o.in_file(file@),
                self.file_index.wf(),
                self.in_file(file@) == Set::<usize>::empty(),
                forall|f: Seq<char>| f != file@ ==> self.in_file(f) == o.in_file(f),
                forall|x: int| #[trigger]
                    self.nodes().contains_key(x) <==> o.nodes().contains_key(x) && !(exists|j: int|
                        0 <= j < i && handles@[j] == x),
                forall|x: int| #[trigger] self.nodes().contains_key(x) ==> self.nodes()[x] == o.nodes()[x],
                forall|e: int| #[trigger]
                    self.edges().contains_key(e) <==> o.edges().contains_key(e) && !(exists|j: int|
                        0 <= j < i && (handles@[j] == o.edges()[e].0 || handles@[j] == o.edges()[e].1)),
                forall|e: int| #[trigger] self.edges().contains_key(e) ==> self.edges()[e] == o.edges()[e],
                forall|q: Seq<char>| #[trigger]
                    self.fqn_table().contains_key(q) <==> o.fqn_table().contains_key(q) && !(exists|j: int|
                        0 <= j < i && handles@[j] == o.fqn_table()[q].raw),
                forall|q: Seq<char>| #[trigger] self.fqn_table().contains_key(q) ==> self.fqn_table()[q] == o.fqn_table()[q],
                forall|x: usize| #[trigger]
                    self.scores().contains_key(x) <==> o.scores().contains_key(x) && !(exists|j: int|
                        0 <= j < i && handles@[j] == x),
                forall|x: usize| #[trigger] self.scores().contains_key(x) ==> self.scores()[x] == o.scores()[x],
                forall|d: Seq<char>| #[trigger]
                    self.ids().contains_key(d) <==> o.ids().contains_key(d) && !(exists|j: int|
                        0 <= j < i && handles@[j] == o.ids()[d]),
                forall|d: Seq<char>| #[trigger] self.ids().contains_key(d) ==> self.ids()[d] == o.ids()[d],
            decreases handles.len() - i,
        {
            let h = handles[i];
            let ghost prev = *self;
            proof {
                assert(handles@.to_set().contains(h));
                assert(o.in_file(file@).contains(h));
                assert(o.nodes().contains_key(h as int));
                if exists|j: int| 0 <= j < i && handles@[j] == h as int {
                    let j = choose|j: int| 0 <= j < i && handles@[j] == h as int;
                    assert(handles@[j] == handles@[i as int]);
                }
                assert(self.nodes().contains_key(h as int));
            }
            let _ = self.detach(h);
            proof {
                assert forall|x: int| #[trigger]
                    self.nodes().contains_key(x) <==> o.nodes().contains_key(x) && !(exists|j: int|
                        0 <= j < i + 1 && handles@[j] == x) by {
                    assert(prev.nodes().contains_key(x) <==> o.nodes().contains_key(x) && !(exists|j: int|
                        0 <= j < i && handles@[j] == x));
                    if x == h {
                        assert(handles@[i as int] == x);
                    }
                }
                assert forall|x: int| #[trigger] self.nodes().contains_key(x) implies self.nodes()[x] == o.nodes()[x] by {
                    assert(prev.nodes().contains_key(x));
                }
                assert forall|e: int| #[trigger]
                    self.edges().contains_key(e) <==> o.edges().contains_key(e) && !(exists|j: int|
                        0 <= j < i + 1 && (handles@[j] == o.edges()[e].0 || handles@[j] == o.edges()[e].1)) by {
                    assert(prev.edges().contains_key(e) <==> o.edges().contains_key(e) && !(exists|j: int|
                        0 <= j < i && (handles@[j] == o.edges()[e].0 || handles@[j] == o.edges()[e].1)));
                    if prev.edges().contains_key(e) {
                        assert(prev.edges()[e] == o.edges()[e]);
                        if o.edges()[e].0 == h || o.edges()[e].1 == h {
                            assert(handles@[i as int] == o.edges()[e].0 || handles@[i as int] == o.edges()[e].1);
                        }
                    }
                }
                assert forall|e: int| #[trigger] self.edges().contains_key(e) implies self.edges()[e] == o.edges()[e] by {
                    assert(prev.edges().contains_key(e));
                }
                assert forall|q: Seq<char>| #[trigger]
                    self.fqn_table().contains_key(q) <==> o.fqn_table().contains_key(q) && !(exists|j: int|
                        0 <= j < i + 1 && handles@[j] == o.fqn_table()[q].raw) by {
                    assert(prev.fqn_table().contains_key(q) <==> o.fqn_table().contains_key(q) && !(exists|j: int|
                        0 <= j < i && handles@[j] == o.fqn_table()[q].raw));
                    if prev.fqn_table().contains_key(q) {
                        assert(prev.fqn_table()[q] == o.fqn_table()[q]);
                        if o.fqn_table()[q].raw == h {
                            assert(handles@[i as int] == o.fqn_table()[q].raw);
                        }
                    }
                }
                assert forall|q: Seq<char>| #[trigger] self.fqn_table().contains_key(q) implies self.fqn_table()[q] == o.fqn_table()[q] by {
                    assert(prev.fqn_table().contains_key(q));
                }
                assert forall|x: usize| #[trigger]
                    self.scores().contains_key(x) <==> o.scores().contains_key(x) && !(exists|j: int|
                        0 <= j < i + 1 && handles@[j] == x) by {
                    assert(prev.scores().contains_key(x) <==> o.scores().contains_key(x) && !(exists|j: int|
                        0 <= j < i && handles@[j] == x));
                    if x == h {
                        assert(handles@[i as int] == x);
                    }
                }
                assert forall|x: usize| #[trigger] self.scores().contains_key(x) implies self.scores()[x] == o.scores()[x] by {
                    assert(prev.scores().contains_key(x));
                }
                assert forall|d: Seq<char>| #[trigger]
                    self.ids().contains_key(d) <==> o.ids().contains_key(d) && !(exists|j: int|
                        0 <= j < i + 1 && handles@[j] == o.ids()[d]) by {
                    assert(prev.ids().contains_key(d) <==> o.ids().contains_key(d) && !(exists|j: int|
                        0 <= j < i && handles@[j] == o.ids()[d]));
                    if prev.ids().contains_key(d) {
                        assert(prev.ids()[d] == o.ids()[d]);
                        assert(prev.nodes().contains_key(prev.ids()[d] as int));
                        if o.ids()[d] == h {
                            assert(handles@[i as int] == o.ids()[d]);
                            assert(prev.nodes()[h as int].id@ == d);
                        } else {
                            assert(prev.nodes()[prev.ids()[d] as int].id@ == d);
                            assert(prev.nodes().contains_key(h as int));
                            assert(prev.ids()[prev.nodes()[h as int].id@] == h);
                        }
                    }
                }
                assert forall|d: Seq<char>| #[trigger] self.ids().contains_key(d) implies self.ids()[d] == o.ids()[d] by {
                    assert(prev.ids().contains_key(d));
                }
            }
            i = i + 1;
        }
        proof {
            assert forall|x: int| o.nodes().contains_key(x) implies ((exists|j: int|
                0 <= j < handles@.len() && handles@[j] == x) <==> o.nodes()[x].file@ == file@) by {
                assert(0 <= x <= MAX_HANDLE);
                let xu = x as usize;
                assert(o.in_file(file@).contains(xu) <==> o.nodes().contains_key(xu as int)
                    && o.nodes()[xu as int].file@ == file@);
                if o.nodes()[x].file@ == file@ {
                    assert(handles@.to_set().contains(xu));
                    assert(handles@.contains(xu));
                    let j = choose|j: int| 0 <= j < handles@.len() && handles@[j] == xu;
                    assert(handles@[j] == x);
                }
                if exists|j: int| 0 <= j < handles@.len() && handles@[j] == x {
                    let j = choose|j: int| 0 <= j < handles@.len() && handles@[j] == x;
                    assert(handles@.to_set().contains(handles@[j]));
                }
            }
            assert(self.nodes() =~= Self::nodes_outside(o.nodes(), file@));
            assert(self.edges() =~= Self::edges_outside(o.nodes(), o.edges(), file@)) by {
                assert forall|e: int| self.edges().contains_key(e) <==> Self::edges_outside(o.nodes(), o.edges(), file@).contains_key(e) by {
                    if o.edges().contains_key(e) {
                        let a = o.edges()[e].0;
                        let b = o.edges()[e].1;
                        assert(o.nodes().contains_key(a) && o.nodes().contains_key(b));
                        if o.nodes()[a].file@ == file@ {
                            let j = choose|j: int| 0 <= j < handles@.len() && handles@[j] == a;
                            assert(handles@[j] == o.edges()[e].0);
                        }
                        if o.nodes()[b].file@ == file@ {
                            let j = choose|j: int| 0 <= j < handles@.len() && handles@[j] == b;
                            assert(handles@[j] == o.edges()[e].1);
                        }
                    }
                }
            }
            assert(self.fqn_table() =~= Self::table_outside(o.nodes(), o.fqn_table(), file@)) by {
                assert forall|q: Seq<char>| self.fqn_table().contains_key(q) <==> Self::table_outside(o.nodes(), o.fqn_table(), file@).contains_key(q) by {
                    if o.fqn_table().contains_key(q) {
                        let a = o.fqn_table()[q].raw as int;
                        assert(o.nodes().contains_key(a));
                        if o.nodes()[a].file@ == file@ {
                            let j = choose|j: int| 0 <= j < handles@.len() && handles@[j] == a;
                            assert(handles@[j] == o.fqn_table()[q].raw);
                        }
                    }
                }
            }
            assert(self.ids() =~= Self::ids_outside(o.nodes(), o.ids(), file@)) by {
                assert forall|d: Seq<char>| self.ids().contains_key(d) <==> Self::ids_outside(o.nodes(), o.ids(), file@).contains_key(d) by {
                    if o.ids().contains_key(d) {
                        let a = o.ids()[d] as int;
                        assert(o.nodes().contains_key(a));
                        if o.nodes()[a].file@ == file@ {
                            let j = choose|j: int| 0 <= j < handles@.len() && handles@[j] == a;
                            assert(handles@[j] == o.ids()[d]);
                        }
                    }
                }
            }
            assert(self.scores() =~= Self::scores_outside(o.nodes(), o.scores(), file@)) by {
                assert forall|x: usize| self.scores().contains_key(x) <==> Self::scores_outside(o.nodes(), o.scores(), file@).contains_key(x) by {
                    if o.scores().contains_key(x) {
                        assert(o.nodes().contains_key(x as int));
                        if o.nodes()[x as int].file@ == file@ {
                            let j = choose|j: int| 0 <= j < handles@.len() && handles@[j] == x as int;
                            assert(handles@[j] == x);
                        }
                    }
                }
            }
            assert(self.files_ok()) by {
                assert forall|f: Seq<char>, x: usize| #[trigger]
                    self.in_file(f).contains(x) <==> self.nodes().contains_key(x as int)
                        && self.nodes()[x as int].file@ == f by {
                    assert(o.in_file(f).contains(x) <==> o.nodes().contains_key(x as int)
                        && o.nodes()[x as int].file@ == f);
                }
            }
        }
    }

    /// Whether `index` is the handle of a live node.
    pub fn contains(&self, index: NodeId) -> (live: bool)
        requires
            self.wf(),
        ensures
            live == self.nodes().contains_key(index.raw as int),
            live ==> index.raw <= MAX_HANDLE,
    {
        self.get(index).is_some()
    }

    /// The node under `index`.
    pub fn get(&self, index: NodeId) -> (out: Option<&CodeNode>)
        requires
            self.wf(),
        ensures
            out.is_some() == self.nodes().contains_key(index.raw as int),
            out.is_some() ==> *out.unwrap() == self.nodes()[index.raw as int] && index.raw
                <= MAX_HANDLE,
    {
        if index.raw > MAX_HANDLE {
            None
        } else {
            topo_node_weight(&self.graph, index.raw)
        }
    }

    /// The node that the qualified name `fqn` resolves to.
    pub fn resolve(&self, fqn: &str) -> (out: Option<NodeId>)
        ensures
            out == (if self.fqn_table().contains_key(fqn@) {
                Some(self.fqn_table()[fqn@])
            } else {
                None
            }),
    {
        self.symbols.resolve(fqn)
    }

    /// The handle of the node whose id is `id`.
    pub fn get_index(&self, id: &str) -> (out: Option<NodeId>)
        ensures
            out.is_some() == self.ids().contains_key(id@),
            out.is_some() ==> out.unwrap().raw == self.ids()[id@],
    {
        match self.id_index.get(id) {
            Some(h) => Some(NodeId::new(*h)),
            None => None,
        }
    }

    /// The node whose id is `id`.
    pub fn get_by_id(&self, id: &str) -> (out: Option<&CodeNode>)
        requires
            self.wf(),
        ensures
            out.is_some() == self.ids().contains_key(id@),
            out.is_some() ==> *out.unwrap() == self.nodes()[self.ids()[id@] as int] && out.unwrap().id@ == id@,
    {
        match self.get_index(id) {
            Some(index) => self.get(index),
            None => None,
        }
    }

    /// The edges that end at `index` (`Upstream`) or start at it
    /// (`Downstream`), each once.
    pub fn incident(&self, index: NodeId, dir: ImpactDirection) -> (out: Vec<EdgeHit>)
        requires
            self.wf(),
        ensures
            forall|i: int|
                0 <= i < out@.len() ==> (#[trigger] out@[i]).is_in(self.edges()) && out@[i].near(dir)
                    == index.raw,
            forall|i: int, j: int| 0 <= i < j < out@.len() ==> out@[i].edge != out@[j].edge,
            forall|e: int|
                self.edges().contains_key(e) && near_end(self.edges()[e], dir) == index.raw
                    ==> exists|i: int| 0 <= i < out@.len() && #[trigger] out@[i].edge == e,
    {
        if index.raw > MAX_HANDLE {
            Vec::new()
        } else {
            topo_edges_directed(&self.graph, index.raw, dir)
        }
    }

    /// How many nodes the graph holds.
    pub fn node_count(&self) -> (n: usize)
        ensures
            n == self.nodes().len(),
    {
        topo_node_count(&self.graph)
    }

    /// How many edges the graph holds.
    pub fn edge_count(&self) -> (n: usize)
        ensures
            n == self.edges().len(),
    {
        topo_edge_count(&self.graph)
    }
}


impl Neighborhood for ArborGraph {
    open spec fn links(&self) -> Map<int, (int, int, Edge)> {
        self.edges()
    }

    open spec fn ok(&self) -> bool {
        self.wf()
    }

    fn arrivals(&self, u: usize, dir: ImpactDirection) -> (out: Vec<Arrival>) {
        let hits = self.incident(NodeId::new(u), dir);
        let mut out: Vec<Arrival> = Vec::new();
        let mut i: usize = 0;
        while i < hits.len()
            invariant
                i <= hits.len(),
                out@.len() == i,
                forall|k: int|
                    0 <= k < hits@.len() ==> (#[trigger] hits@[k]).is_in(self.edges()) && hits@[k].near(dir) == u,
                forall|k: int|
                    0 <= k < i ==> (#[trigger] out@[k]).node == hits@[k].far(dir) && out@[k].kind == hits@[k].kind,
            decreases hits.len() - i,
        {
            let hit = hits[i];
            let node = match dir {
                ImpactDirection::Upstream => hit.source,
                ImpactDirection::Downstream => hit.target,
            };
            out.push(Arrival { node, kind: hit.kind });
            i = i + 1;
        }
        proof {
            let edges = self.edges();
            assert forall|k: int| 0 <= k < out@.len() implies arrives(edges, dir, u as int, #[trigger] out@[k]) by {
                let e = hits@[k].edge as int;
                assert(hits@[k].is_in(edges));
                assert(edges.contains_key(e) && near_end(edges[e], dir) == u as int && far_end(edges[e], dir)
                    == out@[k].node as int && edges[e].2.kind == out@[k].kind);
            }
            assert forall|e: int| #[trigger]
                edges.contains_key(e) && near_end(edges[e], dir) == u as int implies lists_arrival(
                out@,
                far_end(edges[e], dir),
            ) by {
                let k = choose|k: int| 0 <= k < hits@.len() && #[trigger] hits@[k].edge == e;
                assert(hits@[k].is_in(edges));
                assert(out@[k].node == far_end(edges[e], dir));
            }
        }
        out
    }
}

/// Some edge of kind `kind` leads from `from` to `to` when followed in
/// direction `dir`.
pub open spec fn linked(
    edges: Map<int, (int, int, Edge)>,
    dir: ImpactDirection,
    kind: EdgeKind,
    from: int,
    to: int,
) -> bool {
    exists|e: int| #[trigger]
        edges.contains_key(e) && edges[e].2.kind == kind && near_end(edges[e], dir) == from
            && far_end(edges[e], dir) == to
}

/// `out` lists the node `n`.
pub open spec fn lists(out: Seq<&CodeNode>, n: CodeNode) -> bool {
    exists|i: int| 0 <= i < out.len() && *(#[trigger] out[i]) == n
}

/// `n` is a node that `nodes` holds.
pub open spec fn live_node(nodes: Map<int, CodeNode>, n: CodeNode) -> bool {
    exists|h: int| #[trigger] nodes.contains_key(h) && nodes[h] == n
}

/// `n` is a node that an edge of kind `kind` joins to `from` in direction
/// `dir`.
pub open spec fn linked_node(
    edges: Map<int, (int, int, Edge)>,
    nodes: Map<int, CodeNode>,
    dir: ImpactDirection,
    kind: EdgeKind,
    from: int,
    n: CodeNode,
) -> bool {
    exists|h: int| #[trigger] linked(edges, dir, kind, from, h) && nodes[h] == n
}

/// `out` lists the edge weight `w`.
pub open spec fn lists_weight(out: Seq<&Edge>, w: Edge) -> bool {
    exists|i: int| 0 <= i < out.len() && *(#[trigger] out[i]) == w
}

/// `w` is the weight of an edge that `edges` holds.
pub open spec fn live_weight(edges: Map<int, (int, int, Edge)>, w: Edge) -> bool {
    exists|e: int| #[trigger] edges.contains_key(e) && edges[e].2 == w
}

/// `out` holds an export of `edge`.
pub open spec fn lists_export(out: Seq<GraphEdge>, nodes: Map<int, CodeNode>, edge: (int, int, Edge)) -> bool {
    exists|i: int| 0 <= i < out.len() && exports_edge(#[trigger] out[i], nodes, edge)
}

/// `export` is an export of an edge that `edges` holds.
pub open spec fn live_export(
    export: GraphEdge,
    nodes: Map<int, CodeNode>,
    edges: Map<int, (int, int, Edge)>,
) -> bool {
    exists|e: int| #[trigger] edges.contains_key(e) && exports_edge(export, nodes, edges[e])
}

/// The scores that a list of pairs sets: a later pair for a node replaces an
/// earlier one, and pairs for nodes that are not in `nodes` are left out.
pub open spec fn scores_set_by(list: Seq<(NodeId, u64)>, nodes: Map<int, CodeNode>) -> Map<usize, u64>
    decreases list.len(),
{
    if list.len() == 0 {
        Map::empty()
    } else {
        let rest = scores_set_by(list.drop_last(), nodes);
        let last = list.last();
        if nodes.contains_key(last.0.raw as int) {
            rest.insert(last.0.raw, last.1)
        } else {
            rest
        }
    }
}


/// `order` lists every key of `m` once, in ascending order.
pub open spec fn ascending_keys<V>(m: Map<int, V>, order: Seq<int>) -> bool {
    &&& forall|i: int, j: int| 0 <= i < j < order.len() ==> order[i] < order[j]
    &&& forall|i: int| 0 <= i < order.len() ==> m.contains_key(#[trigger] order[i])
    &&& forall|e: int| #[trigger] m.contains_key(e) ==> order.contains(e)
}

/// `out` holds an export of each edge of `edges`, in the order in which
/// `order` lists their indexes.
pub open spec fn exported_in(
    out: Seq<GraphEdge>,
    nodes: Map<int, CodeNode>,
    edges: Map<int, (int, int, Edge)>,
    order: Seq<int>,
) -> bool {
    &&& ascending_keys(edges, order)
    &&& order.len() == out.len()
    &&& forall|i: int| 0 <= i < out.len() ==> exports_edge(#[trigger] out[i], nodes, edges[order[i]])
}

/// `out` holds the weight of each edge of `edges`, in the order in which
/// `order` lists their indexes.
pub open spec fn weights_in(out: Seq<&Edge>, edges: Map<int, (int, int, Edge)>, order: Seq<int>) -> bool {
    &&& ascending_keys(edges, order)
    &&& order.len() == out.len()
    &&& forall|i: int| 0 <= i < out.len() ==> *(#[trigger] out[i]) == edges[order[i]].2
}

/// The edge indexes of a list of hits.
pub open spec fn indexes_of(hits: Seq<EdgeHit>) -> Seq<int> {
    Seq::new(hits.len(), |k: int| hits[k].edge as int)
}

/// How `export` describes an edge from `source` to `target` of kind `kind`.
pub open spec fn exports_edge(export: GraphEdge, nodes: Map<int, CodeNode>, edge: (int, int, Edge)) -> bool {
    &&& export.source@ == nodes[edge.0].id@
    &&& export.target@ == nodes[edge.1].id@
    &&& export.kind == edge.2.kind
}

impl ArborGraph {
    /// The nodes under `handles`, in the same order.
    fn nodes_at(&self, handles: &Vec<usize>) -> (out: Vec<&CodeNode>)
        requires
            self.wf(),
            forall|i: int| 0 <= i < handles@.len() ==> self.nodes().contains_key(#[trigger] handles@[i] as int),
        ensures
            out@.len() == handles@.len(),
            forall|i: int| 0 <= i < out@.len() ==> *(#[trigger] out@[i]) == self.nodes()[handles@[i] as int],
    {
        let mut out: Vec<&CodeNode> = Vec::new();
        let mut i: usize = 0;
        while i < handles.len()
            invariant
                self.wf(),
                i <= handles.len(),
                out@.len() == i,
                forall|k: int| 0 <= k < handles@.len() ==> self.nodes().contains_key(#[trigger] handles@[k] as int),
                forall|k: int| 0 <= k < i ==> *(#[trigger] out@[k]) == self.nodes()[handles@[k] as int],
            decreases handles.len() - i,
        {
            let found = self.get(NodeId::new(handles[i]));
            out.push(found.unwrap());
            i = i + 1;
        }
        out
    }

    /// The nodes whose name is `name`, each once.
    pub fn find_by_name(&self, name: &str) -> (out: Vec<&CodeNode>)
        requires
            self.wf(),
        ensures
            out@.len() == self.named(name@).len(),
            forall|i: int|
                0 <= i < out@.len() ==> (#[trigger] out@[i]).name@ == name@ && live_node(self.nodes(), *out@[i]),
            forall|h: int|
                #[trigger] self.nodes().contains_key(h) && self.nodes()[h].name@ == name@ ==> lists(
                    out@,
                    self.nodes()[h],
                ),
    {
        let handles = self.name_index.get(name);
        proof {
            handles@.unique_seq_to_set();
            assert forall|i: int| 0 <= i < handles@.len() implies self.nodes().contains_key(
                #[trigger] handles@[i] as int,
            ) && self.nodes()[handles@[i] as int].name@ == name@ by {
                let h = handles@[i];
                assert(handles@.to_set().contains(h));
                assert(self.named(name@).contains(h));
            }
        }
        let out = self.nodes_at(&handles);
        proof {
            assert forall|i: int| 0 <= i < out@.len() implies (#[trigger] out@[i]).name@ == name@
                && live_node(self.nodes(), *out@[i]) by {
                assert(self.nodes().contains_key(handles@[i] as int));
            }
            assert forall|h: int| #[trigger]
                self.nodes().contains_key(h) && self.nodes()[h].name@ == name@ implies lists(
                out@,
                self.nodes()[h],
            ) by {
                let hu = h as usize;
                assert(self.named(name@).contains(hu));
                assert(handles@.to_set().contains(hu));
                assert(handles@.contains(hu));
                let i = choose|i: int| 0 <= i < handles@.len() && handles@[i] == hu;
                assert(*out@[i] == self.nodes()[h]);
            }
        }
        out
    }

    /// The nodes whose file is `file`, each once.
    pub fn find_by_file(&self, file: &str) -> (out: Vec<&CodeNode>)
        requires
            self.wf(),
        ensures
            out@.len() == self.in_file(file@).len(),
            forall|i: int|
                0 <= i < out@.len() ==> (#[trigger] out@[i]).file@ == file@ && live_node(self.nodes(), *out@[i]),
            forall|h: int|
                #[trigger] self.nodes().contains_key(h) && self.nodes()[h].file@ == file@ ==> lists(
                    out@,
                    self.nodes()[h],
                ),
    {
        let handles = self.file_index.get(file);
        proof {
            handles@.unique_seq_to_set();
            assert forall|i: int| 0 <= i < handles@.len() implies self.nodes().contains_key(
                #[trigger] handles@[i] as int,
            ) && self.nodes()[handles@[i] as int].file@ == file@ by {
                let h = handles@[i];
                assert(handles@.to_set().contains(h));
                assert(self.in_file(file@).contains(h));
            }
        }
        let out = self.nodes_at(&handles);
        proof {
            assert forall|i: int| 0 <= i < out@.len() implies (#[trigger] out@[i]).file@ == file@
                && live_node(self.nodes(), *out@[i]) by {
                assert(self.nodes().contains_key(handles@[i] as int));
            }
            assert forall|h: int| #[trigger]
                self.nodes().contains_key(h) && self.nodes()[h].file@ == file@ implies lists(
                out@,
                self.nodes()[h],
            ) by {
                let hu = h as usize;
                assert(self.in_file(file@).contains(hu));
                assert(handles@.to_set().contains(hu));
                assert(handles@.contains(hu));
                let i = choose|i: int| 0 <= i < handles@.len() && handles@[i] == hu;
                assert(*out@[i] == self.nodes()[h]);
            }
        }
        out
    }

    /// The handles of the nodes whose names match `query`, in ascending order.
    /// A query of two or more characters matches the names that contain it; a
    /// shorter one matches the names that start with it. Case is ignored. In
    /// either case the lower-case query is a substring of the lower-case name
    /// of every node returned.
    pub fn search(&self, query: &str) -> (out: Vec<NodeId>)
        requires
            self.wf(),
        ensures
            forall|i: int, j: int| 0 <= i < j < out@.len() ==> out@[i].raw < out@[j].raw,
            forall|i: int|
                0 <= i < out@.len() ==> self.nodes().contains_key((#[trigger] out@[i]).raw as int)
                    && query_matches(lowercase(query@), lowercase(self.nodes()[out@[i].raw as int].name@))
                    && is_substring(lowercase(self.nodes()[out@[i].raw as int].name@), lowercase(query@)),
            forall|h: int|
                self.nodes().contains_key(h) && query_matches(lowercase(query@), lowercase(self.nodes()[h].name@))
                    ==> exists|i: int| 0 <= i < out@.len() && (#[trigger] out@[i]).raw == h,
    {
        let out = self.search.search(query);
        proof {
            assert forall|i: int| 0 <= i < out@.len() implies self.nodes().contains_key(
                (#[trigger] out@[i]).raw as int,
            ) && query_matches(lowercase(query@), lowercase(self.nodes()[out@[i].raw as int].name@))
                && is_substring(lowercase(self.nodes()[out@[i].raw as int].name@), lowercase(query@)) by {
                assert(self.search_names().contains_key(out@[i].raw));
            }
            assert forall|h: int|
                self.nodes().contains_key(h) && query_matches(
                    lowercase(query@),
                    lowercase(self.nodes()[h].name@),
                ) implies exists|i: int| 0 <= i < out@.len() && (#[trigger] out@[i]).raw == h by {
                let hu = h as usize;
                assert(self.search_names().contains_key(hu));
            }
        }
        out
    }

    /// The handles of the nodes that an edge of kind `kind` joins to `index`
    /// in direction `dir`, each once.
    pub fn neighbors_by(&self, index: NodeId, dir: ImpactDirection, kind: EdgeKind) -> (out: Vec<usize>)
        requires
            self.wf(),
        ensures
            out@.no_duplicates(),
            forall|h: usize| out@.contains(h) <==> linked(self.edges(), dir, kind, index.raw as int, h as int),
            forall|i: int| 0 <= i < out@.len() ==> self.nodes().contains_key(#[trigger] out@[i] as int),
    {
        let hits = self.incident(index, dir);
        let mut out: Vec<usize> = Vec::new();
        let mut i: usize = 0;
        while i < hits.len()
            invariant
                self.wf(),
                i <= hits.len(),
                forall|k: int|
                    0 <= k < hits@.len() ==> (#[trigger] hits@[k]).is_in(self.edges()) && hits@[k].near(dir)
                        == index.raw,
                out@.no_duplicates(),
                forall|h: usize|
                    out@.contains(h) <==> exists|k: int|
                        0 <= k < i && (#[trigger] hits@[k]).kind == kind && hits@[k].far(dir) == h,
                forall|k: int| 0 <= k < out@.len() ==> self.nodes().contains_key(#[trigger] out@[k] as int),
            decreases hits.len() - i,
        {
            let hit = hits[i];
            let v = match dir {
                ImpactDirection::Upstream => hit.source,
                ImpactDirection::Downstream => hit.target,
            };
            let ghost before = out@;
            let fresh = hit.kind == kind && !crate::postings::list_contains(&out, v);
            if fresh {
                out.push(v);
            }
            proof {
                assert(hit.is_in(self.edges()));
                assert forall|h: usize|
                    out@.contains(h) <==> exists|k: int|
                        0 <= k < i + 1 && (#[trigger] hits@[k]).kind == kind && hits@[k].far(dir) == h by {
                    if out@.contains(h) {
                        let m = choose|m: int| 0 <= m < out@.len() && out@[m] == h;
                        if m < before.len() {
                            assert(before[m] == h);
                            assert(before.contains(h));
                            let k = choose|k: int|
                                0 <= k < i && (#[trigger] hits@[k]).kind == kind && hits@[k].far(dir) == h;
                            assert(0 <= k < i + 1 && hits@[k].kind == kind && hits@[k].far(dir) == h);
                        } else {
                            assert(hits@[i as int].kind == kind && hits@[i as int].far(dir) == h);
                        }
                    }
                    if exists|k: int|
                        0 <= k < i + 1 && (#[trigger] hits@[k]).kind == kind && hits@[k].far(dir) == h {
                        let k = choose|k: int|
                            0 <= k < i + 1 && (#[trigger] hits@[k]).kind == kind && hits@[k].far(dir) == h;
                        if k < i {
                            assert(before.contains(h));
                            let m = choose|m: int| 0 <= m < before.len() && before[m] == h;
                            assert(out@[m] == h);
                        } else if fresh {
                            assert(out@[before.len() as int] == h);
                        } else {
                            assert(before.contains(h));
                            let m = choose|m: int| 0 <= m < before.len() && before[m] == h;
                            assert(out@[m] == h);
                        }
                    }
                }
                assert forall|k: int| 0 <= k < out@.len() implies self.nodes().contains_key(
                    #[trigger] out@[k] as int,
                ) by {
                    if k < before.len() {
                        assert(out@[k] == before[k]);
                    }
                }
            }
            i = i + 1;
        }
        proof {
            let edges = self.edges();
            assert forall|h: usize| out@.contains(h) <==> linked(edges, dir, kind, index.raw as int, h as int) by {
                if out@.contains(h) {
                    let k = choose|k: int|
                        0 <= k < i && (#[trigger] hits@[k]).kind == kind && hits@[k].far(dir) == h;
                    let e = hits@[k].edge as int;
                    assert(hits@[k].is_in(edges));
                    assert(edges.contains_key(e) && edges[e].2.kind == kind && near_end(edges[e], dir)
                        == index.raw as int && far_end(edges[e], dir) == h as int);
                }
                if linked(edges, dir, kind, index.raw as int, h as int) {
                    let e = choose|e: int| #[trigger]
                        edges.contains_key(e) && edges[e].2.kind == kind && near_end(edges[e], dir)
                            == index.raw as int && far_end(edges[e], dir) == h as int;
                    let k = choose|k: int| 0 <= k < hits@.len() && #[trigger] hits@[k].edge == e;
                    assert(hits@[k].is_in(edges));
                    assert(hits@[k].kind == kind && hits@[k].far(dir) == h);
                }
            }
        }
        out
    }

    /// The nodes that call the node under `index`: the sources of the `Calls`
    /// edges that end at it, each once.
    pub fn get_callers(&self, index: NodeId) -> (out: Vec<&CodeNode>)
        requires
            self.wf(),
        ensures
            forall|i: int|
                0 <= i < out@.len() ==> linked_node(
                    self.edges(),
                    self.nodes(),
                    ImpactDirection::Upstream,
                    EdgeKind::Calls,
                    index.raw as int,
                    *#[trigger] out@[i],
                ),
            forall|h: int|
                #[trigger] linked(self.edges(), ImpactDirection::Upstream, EdgeKind::Calls, index.raw as int, h)
                    ==> lists(out@, self.nodes()[h]),
            forall|i: int, j: int| 0 <= i < j < out@.len() ==> out@[i].id@ != out@[j].id@,
    {
        self.linked_nodes(index, ImpactDirection::Upstream, EdgeKind::Calls)
    }

    /// The nodes that the node under `index` calls: the targets of the
    /// `Calls` edges that start at it, each once.
    pub fn get_callees(&self, index: NodeId) -> (out: Vec<&CodeNode>)
        requires
            self.wf(),
        ensures
            forall|i: int|
                0 <= i < out@.len() ==> linked_node(
                    self.edges(),
                    self.nodes(),
                    ImpactDirection::Downstream,
                    EdgeKind::Calls,
                    index.raw as int,
                    *#[trigger] out@[i],
                ),
            forall|h: int|
                #[trigger] linked(self.edges(), ImpactDirection::Downstream, EdgeKind::Calls, index.raw as int, h)
                    ==> lists(out@, self.nodes()[h]),
            forall|i: int, j: int| 0 <= i < j < out@.len() ==> out@[i].id@ != out@[j].id@,
    {
        self.linked_nodes(index, ImpactDirection::Downstream, EdgeKind::Calls)
    }

    /// The nodes that an edge of kind `kind` joins to `index` in direction
    /// `dir`, each once.
    pub fn linked_nodes(&self, index: NodeId, dir: ImpactDirection, kind: EdgeKind) -> (out: Vec<&CodeNode>)
        requires
            self.wf(),
        ensures
            forall|i: int|
                0 <= i < out@.len() ==> linked_node(
                    self.edges(),
                    self.nodes(),
                    dir,
                    kind,
                    index.raw as int,
                    *#[trigger] out@[i],
                ),
            forall|h: int|
                #[trigger] linked(self.edges(), dir, kind, index.raw as int, h) ==> lists(out@, self.nodes()[h]),
            forall|i: int, j: int| 0 <= i < j < out@.len() ==> out@[i].id@ != out@[j].id@,
    {
        let handles = self.neighbors_by(index, dir, kind);
        let out = self.nodes_at(&handles);
        proof {
            let edges = self.edges();
            assert forall|i: int| 0 <= i < out@.len() implies linked_node(
                edges,
                self.nodes(),
                dir,
                kind,
                index.raw as int,
                *#[trigger] out@[i],
            ) by {
                assert(handles@.contains(handles@[i]));
                assert(linked(edges, dir, kind, index.raw as int, handles@[i] as int));
            }
            assert forall|h: int| #[trigger] linked(edges, dir, kind, index.raw as int, h) implies lists(
                out@,
                self.nodes()[h],
            ) by {
                let e = choose|e: int| #[trigger]
                    edges.contains_key(e) && edges[e].2.kind == kind && near_end(edges[e], dir)
                        == index.raw as int && far_end(edges[e], dir) == h;
                assert(self.nodes().contains_key(h));
                let hu = h as usize;
                assert(handles@.contains(hu));
                let i = choose|i: int| 0 <= i < handles@.len() && handles@[i] == hu;
                assert(*out@[i] == self.nodes()[h]);
            }
            assert forall|i: int, j: int| 0 <= i < j < out@.len() implies out@[i].id@ != out@[j].id@ by {
                assert(self.nodes().contains_key(handles@[i] as int));
                assert(self.nodes().contains_key(handles@[j] as int));
            }
        }
        out
    }

    /// The nodes that depend on the node under `index`: those from which a
    /// walk of at most `max_depth` edges leads to it, each with the length of
    /// the shortest such walk, nearest first. A `max_depth` of zero finds
    /// none.
    pub fn get_dependents(&self, index: NodeId, max_depth: usize) -> (out: Vec<(NodeId, usize)>)
        requires
            self.wf(),
        ensures
            forall|i: int|
                0 <= i < out@.len() ==> 1 <= (#[trigger] out@[i]).1 <= max_depth && self.nodes().contains_key(
                    out@[i].0.raw as int,
                ) && at_distance(
                    self.edges(),
                    ImpactDirection::Upstream,
                    index.raw as int,
                    out@[i].0.raw as int,
                    out@[i].1 as nat,
                ),
            forall|i: int, j: int| 0 <= i < j < out@.len() ==> out@[i].0.raw != out@[j].0.raw && out@[i].1 <= out@[j].1,
            forall|v: int, d: nat|
                1 <= d <= max_depth && #[trigger] at_distance(
                    self.edges(),
                    ImpactDirection::Upstream,
                    index.raw as int,
                    v,
                    d,
                ) ==> exists|i: int| 0 <= i < out@.len() && (#[trigger] out@[i]).0.raw == v,
    {
        let found = reach(self, index, ImpactDirection::Upstream, max_depth);
        assert(self.links() == self.edges());
        let mut out: Vec<(NodeId, usize)> = Vec::new();
        let mut i: usize = 0;
        while i < found.len()
            invariant
                i <= found.len(),
                out@.len() == i,
                forall|k: int| 0 <= k < i ==> (#[trigger] out@[k]).0.raw == found@[k].node && out@[k].1 == found@[k].hops,
            decreases found.len() - i,
        {
            out.push((NodeId::new(found[i].node), found[i].hops));
            i = i + 1;
        }
        proof {
            assert forall|v: int, d: nat|
                1 <= d <= max_depth && #[trigger] at_distance(
                    self.edges(),
                    ImpactDirection::Upstream,
                    index.raw as int,
                    v,
                    d,
                ) implies exists|i: int| 0 <= i < out@.len() && (#[trigger] out@[i]).0.raw == v by {
                assert(reports(found@, v));
                let k = choose|k: int| 0 <= k < found@.len() && (#[trigger] found@[k]).node == v;
                assert(out@[k].0.raw == v);
            }
            assert forall|i: int| 0 <= i < out@.len() implies 1 <= (#[trigger] out@[i]).1 <= max_depth
                && self.nodes().contains_key(out@[i].0.raw as int) && at_distance(
                self.edges(),
                ImpactDirection::Upstream,
                index.raw as int,
                out@[i].0.raw as int,
                out@[i].1 as nat,
            ) by {
                assert(found@[i].valid(self.edges(), ImpactDirection::Upstream, index.raw as int));
                self.lemma_reached_is_live(found@[i], ImpactDirection::Upstream, index.raw as int);
            }
        }
        out
    }

    /// A traversal that reports only nodes it reached, and none of them
    /// twice, reports no more nodes than the graph holds, however the edges
    /// cycle.
    pub proof fn lemma_reports_bounded(&self, found: Seq<Reached>, dir: ImpactDirection, start: int)
        requires
            self.wf(),
            forall|i: int| 0 <= i < found.len() ==> (#[trigger] found[i]).valid(self.edges(), dir, start),
            forall|i: int, j: int| 0 <= i < j < found.len() ==> found[i].node != found[j].node,
        ensures
            found.len() <= self.nodes().len(),
    {
        let handles = Seq::new(found.len(), |i: int| found[i].node as int);
        assert(handles.no_duplicates());
        handles.unique_seq_to_set();
        let all = vstd::set_lib::set_int_range(0, MAX_HANDLE as int);
        vstd::set_lib::lemma_int_range(0, MAX_HANDLE as int);
        assert(self.nodes().dom().subset_of(all));
        vstd::set_lib::lemma_len_subset(self.nodes().dom(), all);
        assert forall|h: int| handles.to_set().contains(h) implies self.nodes().dom().contains(h) by {
            let i = choose|i: int| 0 <= i < handles.len() && handles[i] == h;
            self.lemma_reached_is_live(found[i], dir, start);
        }
        vstd::set_lib::lemma_len_subset(handles.to_set(), self.nodes().dom());
    }

    /// A node that a traversal reached is live.
    pub proof fn lemma_reached_is_live(&self, r: Reached, dir: ImpactDirection, start: int)
        requires
            self.wf(),
            r.valid(self.edges(), dir, start),
        ensures
            self.nodes().contains_key(r.node as int),
    {
        let edges = self.edges();
        let e = choose|e: int| #[trigger]
            edges.contains_key(e) && edges[e].2.kind == r.entry && far_end(edges[e], dir) == r.node as int
                && at_distance(edges, dir, start, near_end(edges[e], dir), (r.hops - 1) as nat);
        assert(self.nodes().contains_key(edges[e].0) && self.nodes().contains_key(edges[e].1));
    }

    /// The centrality score of the node under `index`: the score that was
    /// set for it, or zero.
    pub fn centrality(&self, index: NodeId) -> (score: u64)
        ensures
            score == self.score_of(index.raw),
    {
        match self.centrality.get(&index.raw) {
            Some(v) => *v,
            None => 0,
        }
    }

    /// Replaces the centrality scores by those of `scores`. A later pair for
    /// a node replaces an earlier one; pairs for handles that are not live
    /// are left out.
    pub fn set_centrality(&mut self, scores: &Vec<(NodeId, u64)>)
        requires
            old(self).wf(),
        ensures
            final(self).wf(),
            final(self).nodes() == old(self).nodes(),
            final(self).edges() == old(self).edges(),
            final(self).fqn_table() == old(self).fqn_table(),
            final(self).scores() == scores_set_by(scores@, old(self).nodes()),
    {
        let mut fresh: HashMap<usize, u64> = HashMap::new();
        let mut i: usize = 0;
        while i < scores.len()
            invariant
                self.wf(),
                *self == *old(self),
                i <= scores.len(),
                fresh@ == scores_set_by(scores@.subrange(0, i as int), self.nodes()),
                forall|h: usize| #[trigger] fresh@.contains_key(h) ==> self.nodes().contains_key(h as int),
            decreases scores.len() - i,
        {
            let pair = scores[i];
            let ghost before = fresh@;
            if self.contains(pair.0) {
                fresh.insert(pair.0.raw, pair.1);
            }
            proof {
                let upto = scores@.subrange(0, i + 1);
                assert(upto.drop_last() =~= scores@.subrange(0, i as int));
                assert(upto.last() == pair);
            }
            i = i + 1;
        }
        proof {
            assert(scores@.subrange(0, scores@.len() as int) =~= scores@);
        }
        self.centrality = fresh;
        proof {
            Self::lemma_unchanged(*old(self), *self);
        }
    }

    /// The handles of the live nodes, in ascending order.
    pub fn node_indexes(&self) -> (out: Vec<NodeId>)
        requires
            self.wf(),
        ensures
            out@.len() == self.nodes().len(),
            forall|i: int| 0 <= i < out@.len() ==> self.nodes().contains_key((#[trigger] out@[i]).raw as int),
            forall|i: int, j: int| 0 <= i < j < out@.len() ==> out@[i].raw < out@[j].raw,
            forall|h: int|
                self.nodes().contains_key(h) ==> exists|i: int|
                    0 <= i < out@.len() && (#[trigger] out@[i]).raw == h,
    {
        let handles = topo_node_indices(&self.graph);
        let out = crate::search_index::as_node_ids(&handles);
        proof {
            self.lemma_handles_len(handles@);
            assert forall|h: int| self.nodes().contains_key(h) implies exists|i: int|
                0 <= i < out@.len() && (#[trigger] out@[i]).raw == h by {
                let i = choose|i: int| 0 <= i < handles@.len() && #[trigger] handles@[i] == h;
                assert(out@[i].raw == h);
            }
        }
        out
    }

    /// A list that holds each live handle once is as long as the graph has
    /// nodes.
    proof fn lemma_handles_len(&self, handles: Seq<usize>)
        requires
            self.wf(),
            forall|i: int| 0 <= i < handles.len() ==> self.nodes().contains_key(#[trigger] handles[i] as int),
            forall|i: int, j: int| 0 <= i < j < handles.len() ==> handles[i] < handles[j],
            forall|a: int|
                self.nodes().contains_key(a) ==> exists|i: int|
                    0 <= i < handles.len() && #[trigger] handles[i] == a,
        ensures
            handles.len() == self.nodes().len(),
    {
        let ints = handles.map(|i: int, h: usize| h as int);
        assert(ints.no_duplicates());
        ints.unique_seq_to_set();
        assert(ints.to_set() =~= self.nodes().dom()) by {
            assert forall|a: int| ints.to_set().contains(a) <==> self.nodes().dom().contains(a) by {
                if ints.contains(a) {
                    let i = choose|i: int| 0 <= i < ints.len() && ints[i] == a;
                    assert(self.nodes().contains_key(handles[i] as int));
                }
                if self.nodes().contains_key(a) {
                    let i = choose|i: int| 0 <= i < handles.len() && #[trigger] handles[i] == a;
                    assert(ints[i] == a);
                }
            }
        }
    }

    /// The live nodes, in ascending order of handle.
    pub fn nodes_list(&self) -> (out: Vec<&CodeNode>)
        requires
            self.wf(),
        ensures
            out@.len() == self.nodes().len(),
            forall|i: int| 0 <= i < out@.len() ==> live_node(self.nodes(), *#[trigger] out@[i]),
            forall|h: int| #[trigger] self.nodes().contains_key(h) ==> lists(out@, self.nodes()[h]),
            forall|i: int, j: int|
                0 <= i < j < out@.len() ==> self.ids()[out@[i].id@] < self.ids()[out@[j].id@],
    {
        let handles = topo_node_indices(&self.graph);
        let out = self.nodes_at(&handles);
        proof {
            self.lemma_handles_len(handles@);
            assert forall|i: int, j: int| 0 <= i < j < out@.len() implies self.ids()[out@[i].id@] < self.ids()[out@[j].id@] by {
                assert(self.nodes().contains_key(handles@[i] as int));
                assert(self.nodes().contains_key(handles@[j] as int));
                assert(*out@[i] == self.nodes()[handles@[i] as int]);
                assert(*out@[j] == self.nodes()[handles@[j] as int]);
                assert(self.ids()[self.nodes()[handles@[i] as int].id@] == handles@[i]);
                assert(self.ids()[self.nodes()[handles@[j] as int].id@] == handles@[j]);
            }
            assert forall|i: int| 0 <= i < out@.len() implies live_node(self.nodes(), *#[trigger] out@[i]) by {
                assert(self.nodes().contains_key(handles@[i] as int));
            }
            assert forall|h: int| #[trigger] self.nodes().contains_key(h) implies lists(
                out@,
                self.nodes()[h],
            ) by {
                let i = choose|i: int| 0 <= i < handles@.len() && #[trigger] handles@[i] == h;
                assert(*out@[i] == self.nodes()[h]);
            }
        }
        out
    }

    /// The indexes of a list of hits that holds each live edge once, in
    /// ascending order, list the edge indexes in ascending order.
    proof fn lemma_hits_ascend(&self, hits: Seq<EdgeHit>)
        requires
            forall|i: int| 0 <= i < hits.len() ==> (#[trigger] hits[i]).is_in(self.edges()),
            forall|i: int, j: int| 0 <= i < j < hits.len() ==> hits[i].edge < hits[j].edge,
            forall|e: int|
                self.edges().contains_key(e) ==> exists|i: int|
                    0 <= i < hits.len() && #[trigger] hits[i].edge == e,
        ensures
            ascending_keys(self.edges(), indexes_of(hits)),
    {
        let order = indexes_of(hits);
        assert forall|i: int| 0 <= i < order.len() implies self.edges().contains_key(#[trigger] order[i]) by {
            assert(hits[i].is_in(self.edges()));
        }
        assert forall|e: int| #[trigger] self.edges().contains_key(e) implies order.contains(e) by {
            let i = choose|i: int| 0 <= i < hits.len() && #[trigger] hits[i].edge == e;
            assert(order[i] == e);
        }
    }

    /// A list of hits that holds each live edge once is as long as the graph
    /// has edges.
    proof fn lemma_hits_len(&self, hits: Seq<EdgeHit>)
        requires
            forall|i: int| 0 <= i < hits.len() ==> (#[trigger] hits[i]).is_in(self.edges()),
            forall|i: int, j: int| 0 <= i < j < hits.len() ==> hits[i].edge < hits[j].edge,
            forall|e: int|
                self.edges().contains_key(e) ==> exists|i: int|
                    0 <= i < hits.len() && #[trigger] hits[i].edge == e,
        ensures
            hits.len() == self.edges().len(),
    {
        let ints = hits.map(|k: int, h: EdgeHit| h.edge as int);
        assert(ints.no_duplicates());
        ints.unique_seq_to_set();
        assert(ints.to_set() =~= self.edges().dom()) by {
            assert forall|e: int| ints.to_set().contains(e) <==> self.edges().dom().contains(e) by {
                if ints.contains(e) {
                    let k = choose|k: int| 0 <= k < ints.len() && ints[k] == e;
                    assert(hits[k].is_in(self.edges()));
                }
                if self.edges().contains_key(e) {
                    let k = choose|k: int| 0 <= k < hits.len() && #[trigger] hits[k].edge == e;
                    assert(ints[k] == e);
                }
            }
        }
    }

    /// Every edge with the ids of its endpoints, in ascending order of edge
    /// index.
    pub fn export_edges(&self) -> (out: Vec<GraphEdge>)
        requires
            self.wf(),
        ensures
            out@.len() == self.edges().len(),
            forall|i: int| 0 <= i < out@.len() ==> live_export(#[trigger] out@[i], self.nodes(), self.edges()),
            forall|e: int|
                #[trigger] self.edges().contains_key(e) ==> lists_export(out@, self.nodes(), self.edges()[e]),
            exists|order: Seq<int>| #[trigger] exported_in(out@, self.nodes(), self.edges(), order),
    {
        let hits = topo_edge_references(&self.graph);
        let mut out: Vec<GraphEdge> = Vec::new();
        let mut i: usize = 0;
        while i < hits.len()
            invariant
                self.wf(),
                i <= hits.len(),
                out@.len() == i,
                forall|k: int| 0 <= k < hits@.len() ==> (#[trigger] hits@[k]).is_in(self.edges()),
                forall|k: int|
                    0 <= k < i ==> exports_edge(#[trigger] out@[k], self.nodes(), self.edges()[hits@[k].edge as int]),
            decreases hits.len() - i,
        {
            let hit = hits[i];
            proof {
                assert(hit.is_in(self.edges()));
                assert(self.edges().contains_key(hit.edge as int));
            }
            let source = self.get(NodeId::new(hit.source)).unwrap();
            let target = self.get(NodeId::new(hit.target)).unwrap();
            out.push(GraphEdge { source: source.id.clone(), target: target.id.clone(), kind: hit.kind });
            i = i + 1;
        }
        proof {
            self.lemma_hits_len(hits@);
            assert forall|k: int| 0 <= k < out@.len() implies live_export(
                #[trigger] out@[k],
                self.nodes(),
                self.edges(),
            ) by {
                assert(hits@[k].is_in(self.edges()));
                assert(self.edges().contains_key(hits@[k].edge as int));
            }
            assert forall|e: int| #[trigger] self.edges().contains_key(e) implies lists_export(
                out@,
                self.nodes(),
                self.edges()[e],
            ) by {
                let k = choose|k: int| 0 <= k < hits@.len() && #[trigger] hits@[k].edge == e;
                assert(exports_edge(out@[k], self.nodes(), self.edges()[hits@[k].edge as int]));
            }
            self.lemma_hits_ascend(hits@);
            assert(exported_in(out@, self.nodes(), self.edges(), indexes_of(hits@)));
        }
        out
    }

    /// The edge weights, in ascending order of edge index.
    pub fn edges_list(&self) -> (out: Vec<&Edge>)
        requires
            self.wf(),
        ensures
            out@.len() == self.edges().len(),
            forall|i: int| 0 <= i < out@.len() ==> live_weight(self.edges(), *#[trigger] out@[i]),
            forall|e: int| #[trigger] self.edges().contains_key(e) ==> lists_weight(out@, self.edges()[e].2),
            exists|order: Seq<int>| #[trigger] weights_in(out@, self.edges(), order),
    {
        let hits = topo_edge_references(&self.graph);
        let mut out: Vec<&Edge> = Vec::new();
        let mut i: usize = 0;
        while i < hits.len()
            invariant
                self.wf(),
                i <= hits.len(),
                out@.len() == i,
                forall|k: int| 0 <= k < hits@.len() ==> (#[trigger] hits@[k]).is_in(self.edges()),
                forall|k: int| 0 <= k < i ==> *(#[trigger] out@[k]) == self.edges()[hits@[k].edge as int].2,
            decreases hits.len() - i,
        {
            let hit = hits[i];
            proof {
                assert(hit.is_in(self.edges()));
                assert(self.edges().contains_key(hit.edge as int));
            }
            let weight = topo_edge_weight(&self.graph, hit.edge);
            out.push(weight.unwrap());
            i = i + 1;
        }
        proof {
            self.lemma_hits_len(hits@);
            assert forall|k: int| 0 <= k < out@.len() implies live_weight(self.edges(), *#[trigger] out@[k]) by {
                assert(hits@[k].is_in(self.edges()));
                assert(self.edges().contains_key(hits@[k].edge as int));
            }
            assert forall|e: int| #[trigger] self.edges().contains_key(e) implies lists_weight(
                out@,
                self.edges()[e].2,
            ) by {
                let k = choose|k: int| 0 <= k < hits@.len() && #[trigger] hits@[k].edge == e;
                assert(*out@[k] == self.edges()[hits@[k].edge as int].2);
            }
            self.lemma_hits_ascend(hits@);
            assert(weights_in(out@, self.edges(), indexes_of(hits@)));
        }
        out
    }

    /// Every edge of the graph once, in ascending order of edge index.
    pub fn edge_hits(&self) -> (out: Vec<EdgeHit>)
        requires
            self.wf(),
        ensures
            out@.len() == self.edges().len(),
            forall|i: int| 0 <= i < out@.len() ==> (#[trigger] out@[i]).is_in(self.edges()),
            forall|i: int, j: int| 0 <= i < j < out@.len() ==> out@[i].edge < out@[j].edge,
            forall|e: int|
                self.edges().contains_key(e) ==> exists|i: int|
                    0 <= i < out@.len() && #[trigger] out@[i].edge == e,
    {
        let out = topo_edge_references(&self.graph);
        proof {
            self.lemma_hits_len(out@);
        }
        out
    }

    /// The weight of the edge under the edge index `e`.
    pub fn edge_at(&self, e: usize) -> (out: Option<&Edge>)
        requires
            self.wf(),
        ensures
            out.is_some() == self.edges().contains_key(e as int),
            out.is_some() ==> *out.unwrap() == self.edges()[e as int].2,
    {
        if e > MAX_HANDLE {
            None
        } else {
            topo_edge_weight(&self.graph, e)
        }
    }

    /// The counts of nodes, edges and files.
    pub fn stats(&self) -> (out: GraphStats)
        requires
            self.wf(),
        ensures
            out.node_count == self.nodes().len(),
            out.edge_count == self.edges().len(),
            out.files == self.files().len(),
    {
        GraphStats {
            node_count: self.node_count(),
            edge_count: self.edge_count(),
            files: self.file_index.len(),
        }
    }

    /// Every index points to every node: in a well-formed graph the id
    /// index, the name index, the file index and the substring index each
    /// file a live node under its own id, name and file, and whatever the
    /// symbol table and the scores hold belongs to a live node.
    pub proof fn lemma_indexes_point_to_nodes(&self, h: usize)
        requires
            self.wf(),
            self.nodes().contains_key(h as int),
        ensures
            self.ids().contains_key(self.nodes()[h as int].id@),
            self.ids()[self.nodes()[h as int].id@] == h,
            self.named(self.nodes()[h as int].name@).contains(h),
            self.in_file(self.nodes()[h as int].file@).contains(h),
            self.search_names().contains_key(h),
            self.search_names()[h] == lowercase(self.nodes()[h as int].name@),
            forall|x: usize, name: Seq<char>| #[trigger] self.named(name).contains(x) ==> self.nodes().contains_key(x as int),
            forall|x: usize, file: Seq<char>| #[trigger] self.in_file(file).contains(x) ==> self.nodes().contains_key(x as int),
            forall|id: Seq<char>| #[trigger] self.ids().contains_key(id) ==> self.nodes().contains_key(self.ids()[id] as int),
            forall|q: Seq<char>| #[trigger]
                self.fqn_table().contains_key(q) ==> self.nodes().contains_key(self.fqn_table()[q].raw as int),
            forall|x: usize| #[trigger] self.scores().contains_key(x) ==> self.nodes().contains_key(x as int),
    {
        assert(self.search_names().contains_key(h));
        assert(self.search_names()[h] == lowercase(self.nodes()[h as int].name@));
        assert forall|x: usize, name: Seq<char>| #[trigger] self.named(name).contains(x) implies self.nodes().contains_key(
            x as int,
        ) by {}
        assert forall|x: usize, file: Seq<char>| #[trigger] self.in_file(file).contains(x) implies self.nodes().contains_key(
            x as int,
        ) by {}
    }

    /// Every edge joins two live nodes.
    pub proof fn lemma_edges_join_live_nodes(&self, e: int)
        requires
            self.wf(),
            self.edges().contains_key(e),
        ensures
            self.nodes().contains_key(self.edges()[e].0),
            self.nodes().contains_key(self.edges()[e].1),
    {
    }

    /// A well-formed graph holds no more nodes and no more edges than there
    /// are handles.
    pub proof fn lemma_sizes(&self)
        requires
            self.wf(),
        ensures
            self.nodes().len() <= MAX_HANDLE,
            self.edges().len() <= MAX_HANDLE,
    {
        let all = vstd::set_lib::set_int_range(0, MAX_HANDLE as int);
        vstd::set_lib::lemma_int_range(0, MAX_HANDLE as int);
        assert(self.nodes().dom().subset_of(all));
        assert(self.edges().dom().subset_of(all));
        vstd::set_lib::lemma_len_subset(self.nodes().dom(), all);
        vstd::set_lib::lemma_len_subset(self.edges().dom(), all);
    }

    /// A file is counted exactly when some live node is in it.
    pub proof fn lemma_files(&self, file: Seq<char>)
        requires
            self.wf(),
        ensures
            self.files().contains(file) <==> exists|h: int|
                self.nodes().contains_key(h) && (#[trigger] self.nodes()[h]).file@ == file,
    {
        self.file_index.lemma_keys(file);
        if self.files().contains(file) {
            let h = choose|h: usize| self.file_index.members(file).contains(h);
            assert(self.in_file(file).contains(h));
            assert(self.nodes().contains_key(h as int) && self.nodes()[h as int].file@ == file);
        }
        if exists|h: int| self.nodes().contains_key(h) && (#[trigger] self.nodes()[h]).file@ == file {
            let h = choose|h: int| self.nodes().contains_key(h) && (#[trigger] self.nodes()[h]).file@ == file;
            let hu = h as usize;
            assert(self.in_file(file).contains(hu));
        }
    }

    /// A shortest path from `from` to `to` along outgoing edges, as the nodes
    /// it passes, or `None` when `from` is not live or no walk leads from it
    /// to `to`.
    pub fn find_path(&self, from: NodeId, to: NodeId) -> (out: Option<Vec<&CodeNode>>)
        requires
            self.wf(),
        ensures
            out.is_some() <==> self.nodes().contains_key(from.raw as int) && exists|k: nat|
                reach_in(self.edges(), ImpactDirection::Downstream, from.raw as int, to.raw as int, k),
            out.is_some() ==> exists|path: Seq<usize>|
                {
                    &&& #[trigger] is_walk(self.edges(), path)
                    &&& path.len() == out.unwrap()@.len()
                    &&& path.len() >= 1
                    &&& path[0] == from.raw
                    &&& path[path.len() - 1] == to.raw
                    &&& at_distance(
                        self.edges(),
                        ImpactDirection::Downstream,
                        from.raw as int,
                        to.raw as int,
                        (path.len() - 1) as nat,
                    )
                    &&& forall|i: int|
                        0 <= i < path.len() ==> self.nodes().contains_key(path[i] as int) && *out.unwrap()@[i]
                            == self.nodes()[path[i] as int]
                },
    {
        if !self.contains(from) {
            return None;
        }
        if to.raw > MAX_HANDLE {
            proof {
                self.lemma_reach_stays_live(from.raw as int, to.raw as int);
            }
            return None;
        }
        match topo_shortest_path(&self.graph, from.raw, to.raw) {
            Some(path) => {
                proof {
                    assert forall|i: int| 0 <= i < path@.len() implies self.nodes().contains_key(
                        #[trigger] path@[i] as int,
                    ) by {
                        if i > 0 {
                            assert(crate::traverse::step(
                                self.edges(),
                                ImpactDirection::Downstream,
                                path@[i - 1] as int,
                                path@[i - 1 + 1] as int,
                            ));
                        }
                    }
                }
                let out = self.nodes_at(&path);
                proof {
                    assert(is_walk(self.edges(), path@));
                }
                Some(out)
            },
            None => None,
        }
    }

    /// A walk from a live node ends at a live node.
    pub proof fn lemma_reach_stays_live(&self, from: int, to: int)
        requires
            self.wf(),
            self.nodes().contains_key(from),
        ensures
            forall|k: nat|
                #[trigger] reach_in(self.edges(), ImpactDirection::Downstream, from, to, k)
                    ==> self.nodes().contains_key(to),
    {
        assert forall|k: nat| #[trigger]
            reach_in(self.edges(), ImpactDirection::Downstream, from, to, k) implies self.nodes().contains_key(
            to,
        ) by {
            if k > 0 {
                let mid = choose|mid: int|
                    reach_in(self.edges(), ImpactDirection::Downstream, from, mid, (k - 1) as nat)
                        && #[trigger] crate::traverse::step(
                        self.edges(),
                        ImpactDirection::Downstream,
                        mid,
                        to,
                    );
            }
        }
    }
}

} // verus!
