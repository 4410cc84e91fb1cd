//! Blast radius: what a change to one node may affect.
//!
//! The analysis walks the graph breadth-first from the target in both
//! directions. Upstream are the nodes that depend on the target; downstream
//! are the nodes the target depends on.

use vstd::prelude::*;
use vstd::string::*;
use crate::edge::EdgeKind;
use crate::graph::ArborGraph;
use crate::node::NodeId;
use crate::query::NodeInfo;
use crate::text::{decimal, decimal_text, lemma_lex_total, lemma_lex_trans, lex_le, str_le};
use crate::traverse::{Reached, at_distance, reach, reports};

pub use crate::topology::ImpactDirection;

verus! {

/// How strongly a change to the target bears on a node, by its distance.
#[derive(Clone, Copy, Debug, PartialEq, Eq, PartialOrd, Ord, Hash, Structural)]
pub enum ImpactSeverity {
    /// At most one hop away.
    Direct,
    /// Two or three hops away.
    Transitive,
    /// Four or more hops away.
    Distant,
}

/// The severity of an impact at `hops` hops.
pub open spec fn severity_of(hops: nat) -> ImpactSeverity {
    if hops <= 1 {
        ImpactSeverity::Direct
    } else if hops <= 3 {
        ImpactSeverity::Transitive
    } else {
        ImpactSeverity::Distant
    }
}

impl ImpactSeverity {
    /// The place of the severity in the order `Direct`, `Transitive`,
    /// `Distant`.
    pub open spec fn rank(self) -> int {
        match self {
            ImpactSeverity::Direct => 0,
            ImpactSeverity::Transitive => 1,
            ImpactSeverity::Distant => 2,
        }
    }

    /// The lower-case label of the severity.
    pub open spec fn label(self) -> Seq<char> {
        match self {
            ImpactSeverity::Direct => "direct"@,
            ImpactSeverity::Transitive => "transitive"@,
            ImpactSeverity::Distant => "distant"@,
        }
    }

    /// The severity of an impact at `hops` hops.
    pub fn from_hops(hops: usize) -> (out: ImpactSeverity)
        ensures
            out == severity_of(hops as nat),
    {
        if hops <= 1 {
            ImpactSeverity::Direct
        } else if hops <= 3 {
            ImpactSeverity::Transitive
        } else {
            ImpactSeverity::Distant
        }
    }

    pub fn as_str(&self) -> (s: &'static str)
        ensures
            s@ == self.label(),
    {
        match self {
            ImpactSeverity::Direct => "direct",
            ImpactSeverity::Transitive => "transitive",
            ImpactSeverity::Distant => "distant",
        }
    }

    /// The place of the severity in the order `Direct`, `Transitive`,
    /// `Distant`.
    pub fn position(&self) -> (r: u8)
        ensures
            r == self.rank(),
    {
        match self {
            ImpactSeverity::Direct => 0,
            ImpactSeverity::Transitive => 1,
            ImpactSeverity::Distant => 2,
        }
    }
}

/// The lower-case label of a direction.
pub open spec fn direction_label(dir: ImpactDirection) -> Seq<char> {
    match dir {
        ImpactDirection::Upstream => "upstream"@,
        ImpactDirection::Downstream => "downstream"@,
    }
}

/// The lower-case label of `dir`.
pub fn direction_str(dir: ImpactDirection) -> (s: &'static str)
    ensures
        s@ == direction_label(dir),
{
    match dir {
        ImpactDirection::Upstream => "upstream",
        ImpactDirection::Downstream => "downstream",
    }
}

/// A node that a change to the target may affect.
#[derive(Debug)]
pub struct AffectedNode {
    pub node_id: NodeId,
    pub node_info: NodeInfo,
    /// Derived from `hop_distance`.
    pub severity: ImpactSeverity,
    /// The length of the shortest walk between the target and the node.
    pub hop_distance: usize,
    /// The kind of the edge over which the node was first reached.
    pub entry_edge: EdgeKind,
    pub direction: ImpactDirection,
}

impl Clone for AffectedNode {
    fn clone(&self) -> (out: AffectedNode)
        ensures
            out == *self,
    {
        AffectedNode {
            node_id: self.node_id,
            node_info: self.node_info.clone(),
            severity: self.severity,
            hop_distance: self.hop_distance,
            entry_edge: self.entry_edge,
            direction: self.direction,
        }
    }
}

impl AffectedNode {
    /// What the traversal found of this node.
    pub open spec fn as_reached(self) -> Reached {
        Reached { node: self.node_id.raw, hops: self.hop_distance, entry: self.entry_edge }
    }

    /// This record is what an analysis of `target` in direction `dir` reports
    /// of a node of `graph`: the node is live and described with its score,
    /// it lies `hop_distance >= 1` hops from the target, the severity is the
    /// one its distance gives, and an edge of kind `entry_edge` enters it
    /// from a node one hop nearer.
    pub open spec fn valid(self, graph: &ArborGraph, dir: ImpactDirection, target: int) -> bool {
        &&& graph.nodes().contains_key(self.node_id.raw as int)
        &&& self.node_info.describes(
            graph.nodes()[self.node_id.raw as int],
            graph.score_of(self.node_id.raw),
        )
        &&& self.hop_distance >= 1
        &&& self.severity == severity_of(self.hop_distance as nat)
        &&& self.direction == dir
        &&& self.as_reached().valid(graph.edges(), dir, target)
    }
}

/// `a` comes no later than `b` in the order of results: by severity, then
/// by distance, then by id.
pub open spec fn key_le(a: AffectedNode, b: AffectedNode) -> bool {
    if a.severity.rank() != b.severity.rank() {
        a.severity.rank() < b.severity.rank()
    } else if a.hop_distance != b.hop_distance {
        a.hop_distance < b.hop_distance
    } else {
        lex_le(a.node_info.id@, b.node_info.id@)
    }
}

/// The order of results is total.
pub proof fn lemma_key_total(a: AffectedNode, b: AffectedNode)
    ensures
        key_le(a, b) || key_le(b, a),
{
    lemma_lex_total(a.node_info.id@, b.node_info.id@);
}

/// The order of results is transitive.
pub proof fn lemma_key_trans(a: AffectedNode, b: AffectedNode, c: AffectedNode)
    requires
        key_le(a, b),
        key_le(b, c),
    ensures
        key_le(a, c),
{
    if a.severity.rank() == b.severity.rank() && b.severity.rank() == c.severity.rank()
        && a.hop_distance == b.hop_distance && b.hop_distance == c.hop_distance {
        lemma_lex_trans(a.node_info.id@, b.node_info.id@, c.node_info.id@);
    }
}

/// Whether `a` comes no later than `b` in the order of results.
pub fn key_no_later(a: &AffectedNode, b: &AffectedNode) -> (le: bool)
    ensures
        le == key_le(*a, *b),
{
    let ra = a.severity.position();
    let rb = b.severity.position();
    if ra != rb {
        ra < rb
    } else if a.hop_distance != b.hop_distance {
        a.hop_distance < b.hop_distance
    } else {
        str_le(a.node_info.id.as_str(), b.node_info.id.as_str())
    }
}

/// `list` is in the order of results.
pub open spec fn in_order(list: Seq<&AffectedNode>) -> bool {
    forall|i: int, j: int| 0 <= i < j < list.len() ==> key_le(*list[i], *list[j])
}

/// `list` holds the record `x`.
pub open spec fn holds(list: Seq<&AffectedNode>, x: AffectedNode) -> bool {
    exists|k: int| 0 <= k < list.len() && *(#[trigger] list[k]) == x
}

/// No two records of `list` are of the same node.
pub open spec fn distinct_nodes(list: Seq<&AffectedNode>) -> bool {
    forall|i: int, j: int| 0 <= i < j < list.len() ==> list[i].node_id.raw != list[j].node_id.raw
}

/// The records that the references of `list` point to, in the same order.
pub open spec fn records(list: Seq<&AffectedNode>) -> Seq<AffectedNode> {
    Seq::new(list.len(), |i: int| *list[i])
}

/// `list` holds the records of `of`, each as often as `of` holds it, in some
/// order.
pub open spec fn rearranges(list: Seq<&AffectedNode>, of: Seq<AffectedNode>) -> bool {
    records(list).to_multiset() == of.to_multiset()
}

/// The records of `list` in the order of results: by severity, then by
/// distance, then by id. Nothing is dropped and nothing repeated.
pub fn sort_by_key<'a>(list: Vec<&'a AffectedNode>) -> (out: Vec<&'a AffectedNode>)
    ensures
        in_order(out@),
        rearranges(out@, records(list@)),
        out@.len() == list@.len(),
        forall|k: int| 0 <= k < out@.len() ==> holds(list@, *#[trigger] out@[k]),
        forall|k: int| 0 <= k < list@.len() ==> holds(out@, *#[trigger] list@[k]),
        distinct_nodes(list@) ==> distinct_nodes(out@),
{
    let mut rest = list;
    let mut out: Vec<&AffectedNode> = Vec::new();
    proof {
        broadcast use vstd::multiset::group_multiset_axioms;

        assert(records(out@) =~= Seq::<AffectedNode>::empty());
        Seq::<AffectedNode>::empty().to_multiset_ensures();
        assert(Seq::<AffectedNode>::empty().to_multiset() =~= vstd::multiset::Multiset::empty());
        assert(rest@ == list@);
        assert(records(out@).to_multiset().add(records(rest@).to_multiset()) =~= records(list@).to_multiset());
    }
    while rest.len() > 0
        invariant
            rest@.len() <= list@.len(),
            rest@ == list@.subrange(0, rest@.len() as int),
            out@.len() + rest@.len() == list@.len(),
            in_order(out@),
            records(out@).to_multiset().add(records(rest@).to_multiset()) == records(list@).to_multiset(),
            forall|k: int|
                0 <= k < out@.len() ==> exists|j: int|
                    rest@.len() <= j < list@.len() && *(#[trigger] out@[k]) == *list@[j],
            forall|j: int| rest@.len() <= j < list@.len() ==> holds(out@, *#[trigger] list@[j]),
            distinct_nodes(list@) ==> distinct_nodes(out@),
        decreases rest.len(),
    {
        let ghost n = rest@.len() - 1;
        let ghost rest_before = rest@;
        let x = rest.pop().unwrap();
        assert(*x == *list@[n]);
        let mut pos: usize = 0;
        while pos < out.len() && key_no_later(out[pos], x)
            invariant
                pos <= out.len(),
                forall|k: int| 0 <= k < pos ==> key_le(*out@[k], *x),
            decreases out.len() - pos,
        {
            pos = pos + 1;
        }
        let ghost before = out@;
        out.insert(pos, x);
        proof {
            assert(rest_before =~= rest@.push(x));
            lemma_rearranged_step(before, rest@, out@, rest_before, pos as int, x);
            assert forall|a: int, b: int| 0 <= a < b < out@.len() implies key_le(*out@[a], *out@[b]) by {
                let a0 = if a < pos { a } else { a - 1 };
                let b0 = if b < pos { b } else { b - 1 };
                if a == pos {
                    assert(out@[b] == before[b0]);
                    lemma_key_total(*before[pos as int], *x);
                    if b0 > pos {
                        assert(key_le(*before[pos as int], *before[b0]));
                        lemma_key_trans(*x, *before[pos as int], *before[b0]);
                    }
                } else if b == pos {
                    assert(out@[a] == before[a0]);
                } else {
                    assert(out@[a] == before[a0]);
                    assert(out@[b] == before[b0]);
                }
            }
            assert forall|k: int| 0 <= k < out@.len() implies exists|j: int|
                rest@.len() <= j < list@.len() && *(#[trigger] out@[k]) == *list@[j] by {
                if k == pos {
                    assert(*out@[k] == *list@[n]);
                } else {
                    let k0 = if k < pos { k } else { k - 1 };
                    assert(out@[k] == before[k0]);
                    let j = choose|j: int| n + 1 <= j < list@.len() && *before[k0] == *list@[j];
                    assert(rest@.len() <= j < list@.len() && *out@[k] == *list@[j]);
                }
            }
            assert forall|j: int| rest@.len() <= j < list@.len() implies holds(out@, *#[trigger] list@[j]) by {
                if j == n {
                    assert(*out@[pos as int] == *list@[j]);
                } else {
                    assert(holds(before, *list@[j]));
                    let k0 = choose|k0: int| 0 <= k0 < before.len() && *(#[trigger] before[k0]) == *list@[j];
                    let k = if k0 < pos { k0 } else { k0 + 1 };
                    assert(*out@[k] == *list@[j]);
                }
            }
            if distinct_nodes(list@) {
                assert forall|a: int, b: int| 0 <= a < b < out@.len() implies out@[a].node_id.raw
                    != out@[b].node_id.raw by {
                    let a0 = if a < pos { a } else { a - 1 };
                    let b0 = if b < pos { b } else { b - 1 };
                    if a == pos {
                        assert(out@[b] == before[b0]);
                        let j = choose|j: int| n + 1 <= j < list@.len() && *before[b0] == *list@[j];
                        assert(list@[n].node_id.raw != list@[j].node_id.raw);
                    } else if b == pos {
                        assert(out@[a] == before[a0]);
                        let j = choose|j: int| n + 1 <= j < list@.len() && *before[a0] == *list@[j];
                        assert(list@[n].node_id.raw != list@[j].node_id.raw);
                    } else {
                        assert(out@[a] == before[a0]);
                        assert(out@[b] == before[b0]);
                    }
                }
            }
            assert(rest@ =~= list@.subrange(0, rest@.len() as int));
        }
    }
    proof {
        broadcast use vstd::multiset::group_multiset_axioms;

        assert forall|k: int| 0 <= k < out@.len() implies holds(list@, *#[trigger] out@[k]) by {
            let j = choose|j: int| rest@.len() <= j < list@.len() && *out@[k] == *list@[j];
            assert(*list@[j] == *out@[k]);
        }
        assert(records(rest@) =~= Seq::<AffectedNode>::empty());
        Seq::<AffectedNode>::empty().to_multiset_ensures();
        assert(Seq::<AffectedNode>::empty().to_multiset() =~= vstd::multiset::Multiset::empty());
        assert(records(out@).to_multiset() =~= records(list@).to_multiset());
    }
    out
}

/// Moving the last record of `rest` into `sorted` at place `pos` keeps the
/// records that the two lists hold together.
proof fn lemma_rearranged_step(
    sorted: Seq<&AffectedNode>,
    rest: Seq<&AffectedNode>,
    sorted_after: Seq<&AffectedNode>,
    rest_before: Seq<&AffectedNode>,
    pos: int,
    x: &AffectedNode,
)
    requires
        0 <= pos <= sorted.len(),
        sorted_after == sorted.insert(pos, x),
        rest_before == rest.push(x),
    ensures
        records(sorted_after).to_multiset().add(records(rest).to_multiset()) == records(sorted).to_multiset().add(
            records(rest_before).to_multiset(),
        ),
{
    broadcast use vstd::multiset::group_multiset_axioms;

    assert(records(sorted_after) =~= records(sorted).insert(pos, *x));
    assert(records(rest_before) =~= records(rest).push(*x));
    vstd::seq_lib::to_multiset_insert(records(sorted), pos, *x);
    vstd::seq_lib::to_multiset_build(records(rest), *x);
    assert(records(sorted).to_multiset().insert(*x).add(records(rest).to_multiset()) =~= records(
        sorted,
    ).to_multiset().add(records(rest).to_multiset().insert(*x)));
}

/// `list` reports node `v`.
pub open spec fn affects(list: Seq<AffectedNode>, v: int) -> bool {
    exists|k: int| 0 <= k < list.len() && (#[trigger] list[k]).node_id.raw == v
}

/// `list` is what an analysis of `target` in direction `dir` to depth `depth`
/// reports: exactly the nodes between one and `depth` hops from the target,
/// each once and correctly described, in the order of results.
pub open spec fn reports_impact(
    list: Seq<AffectedNode>,
    graph: &ArborGraph,
    dir: ImpactDirection,
    target: int,
    depth: usize,
) -> bool {
    &&& forall|i: int|
        0 <= i < list.len() ==> (#[trigger] list[i]).valid(graph, dir, target) && list[i].hop_distance
            <= depth
    &&& forall|i: int, j: int|
        0 <= i < j < list.len() ==> list[i].node_id.raw != list[j].node_id.raw && key_le(list[i], list[j])
    &&& forall|v: int, d: nat|
        1 <= d <= depth && #[trigger] at_distance(graph.edges(), dir, target, v, d) ==> affects(list, v)
}

/// The depth to which an analysis searches when asked for `max_depth`: zero
/// asks for no limit.
pub open spec fn effective_depth(max_depth: usize) -> usize {
    if max_depth == 0 {
        usize::MAX
    } else {
        max_depth
    }
}

/// The sum of two lengths, or the largest number where the sum does not fit.
pub open spec fn capped_sum(a: nat, b: nat) -> nat {
    if a + b <= usize::MAX {
        a + b
    } else {
        usize::MAX as nat
    }
}

/// The result of an impact analysis.
#[derive(Debug)]
pub struct ImpactAnalysis {
    /// The node that was analysed.
    pub target: NodeInfo,
    /// The nodes that depend on the target.
    pub upstream: Vec<AffectedNode>,
    /// The nodes the target depends on.
    pub downstream: Vec<AffectedNode>,
    /// How many nodes the two lists hold together.
    pub total_affected: usize,
    /// The depth that was asked for.
    pub max_depth: usize,
    /// How long the analysis took, for the caller that timed it to fill in.
    pub query_time_ms: u64,
}

/// How many records of `list` have the severity `severity`.
pub open spec fn count_of(list: Seq<&AffectedNode>, severity: ImpactSeverity) -> nat
    decreases list.len(),
{
    if list.len() == 0 {
        0
    } else {
        count_of(list.drop_last(), severity) + if list.last().severity == severity {
            1nat
        } else {
            0nat
        }
    }
}

/// The records of `list` that have the severity `severity`, in the same
/// order.
pub open spec fn only(list: Seq<&AffectedNode>, severity: ImpactSeverity) -> Seq<&AffectedNode>
    decreases list.len(),
{
    if list.len() == 0 {
        Seq::empty()
    } else if list.last().severity == severity {
        only(list.drop_last(), severity).push(list.last())
    } else {
        only(list.drop_last(), severity)
    }
}

/// The references to the records of two lists, the first list first.
pub open spec fn refs_of(a: Seq<AffectedNode>, b: Seq<AffectedNode>, out: Seq<&AffectedNode>) -> bool {
    &&& out.len() == a.len() + b.len()
    &&& forall|i: int| 0 <= i < a.len() ==> *(#[trigger] out[i]) == a[i]
    &&& forall|i: int| 0 <= i < b.len() ==> *(#[trigger] out[a.len() + i]) == b[i]
}

/// The summary line for `total` affected nodes of which `direct`,
/// `transitive` and `distant` have those severities.
pub open spec fn summary_text(total: nat, direct: nat, transitive: nat, distant: nat) -> Seq<char> {
    "Blast Radius: "@ + decimal_text(total) + " nodes (direct: "@ + decimal_text(direct)
        + ", transitive: "@ + decimal_text(transitive) + ", distant: "@ + decimal_text(distant) + ")"@
}

impl ImpactAnalysis {
    /// References to every record, upstream first, as they are stored.
    pub fn all_refs(&self) -> (out: Vec<&AffectedNode>)
        ensures
            refs_of(self.upstream@, self.downstream@, out@),
    {
        let mut out: Vec<&AffectedNode> = Vec::new();
        let mut i: usize = 0;
        while i < self.upstream.len()
            invariant
                i <= self.upstream.len(),
                out@.len() == i,
                forall|k: int| 0 <= k < i ==> *(#[trigger] out@[k]) == self.upstream@[k],
            decreases self.upstream.len() - i,
        {
            out.push(&self.upstream[i]);
            i = i + 1;
        }
        let mut j: usize = 0;
        while j < self.downstream.len()
            invariant
                j <= self.downstream.len(),
                out@.len() == self.upstream.len() + j,
                forall|k: int| 0 <= k < self.upstream.len() ==> *(#[trigger] out@[k]) == self.upstream@[k],
                forall|k: int| 0 <= k < j ==> *(#[trigger] out@[self.upstream.len() + k]) == self.downstream@[k],
            decreases self.downstream.len() - j,
        {
            out.push(&self.downstream[j]);
            j = j + 1;
        }
        out
    }

    /// Every affected node, upstream and downstream, in the order of
    /// results: the records of the two lists, each once, rearranged.
    pub fn all_affected(&self) -> (out: Vec<&AffectedNode>)
        ensures
            in_order(out@),
            rearranges(out@, self.upstream@ + self.downstream@),
            out@.len() == self.upstream@.len() + self.downstream@.len(),
            forall|k: int| 0 <= k < out@.len() ==> affects_either(self, *#[trigger] out@[k]),
            forall|k: int| 0 <= k < self.upstream@.len() ==> holds(out@, #[trigger] self.upstream@[k]),
            forall|k: int| 0 <= k < self.downstream@.len() ==> holds(out@, #[trigger] self.downstream@[k]),
    {
        let refs = self.all_refs();
        let out = sort_by_key(refs);
        proof {
            assert forall|k: int| 0 <= k < refs@.len() implies records(refs@)[k] == (self.upstream@
                + self.downstream@)[k] by {
                if k < self.upstream@.len() {
                    assert(*refs@[k] == self.upstream@[k]);
                } else {
                    let d = k - self.upstream@.len();
                    assert(*refs@[self.upstream@.len() + d] == self.downstream@[d]);
                }
            }
            assert(records(refs@) =~= self.upstream@ + self.downstream@);
            assert forall|k: int| 0 <= k < out@.len() implies affects_either(self, *#[trigger] out@[k]) by {
                assert(holds(refs@, *out@[k]));
                let m = choose|m: int| 0 <= m < refs@.len() && *(#[trigger] refs@[m]) == *out@[k];
                if m < self.upstream@.len() {
                    assert(*refs@[m] == self.upstream@[m]);
                } else {
                    let d = m - self.upstream@.len();
                    assert(*refs@[self.upstream@.len() + d] == self.downstream@[d]);
                }
            }
            assert forall|k: int| 0 <= k < self.upstream@.len() implies holds(
                out@,
                #[trigger] self.upstream@[k],
            ) by {
                assert(*refs@[k] == self.upstream@[k]);
                assert(holds(out@, *refs@[k]));
            }
            assert forall|k: int| 0 <= k < self.downstream@.len() implies holds(
                out@,
                #[trigger] self.downstream@[k],
            ) by {
                assert(*refs@[self.upstream@.len() + k] == self.downstream@[k]);
                assert(holds(out@, *refs@[self.upstream@.len() + k]));
            }
        }
        out
    }

    /// The affected nodes of severity `Direct`, in the order of results.
    pub fn direct_only(&self) -> (out: Vec<&AffectedNode>)
        ensures
            exists|all: Seq<&AffectedNode>|
                #![trigger only(all, ImpactSeverity::Direct)]
                in_order(all) && rearranges(all, self.upstream@ + self.downstream@) && all.len()
                    == self.upstream@.len() + self.downstream@.len() && (forall|k: int|
                    0 <= k < all.len() ==> affects_either(self, *#[trigger] all[k])) && out@ == only(
                    all,
                    ImpactSeverity::Direct,
                ),
            forall|k: int| 0 <= k < out@.len() ==> (#[trigger] out@[k]).severity == ImpactSeverity::Direct,
    {
        let all = self.all_affected();
        let mut out: Vec<&AffectedNode> = Vec::new();
        let mut i: usize = 0;
        while i < all.len()
            invariant
                i <= all.len(),
                out@ == only(all@.subrange(0, i as int), ImpactSeverity::Direct),
                forall|k: int| 0 <= k < out@.len() ==> (#[trigger] out@[k]).severity == ImpactSeverity::Direct,
            decreases all.len() - i,
        {
            proof {
                let upto = all@.subrange(0, i + 1);
                assert(upto.drop_last() =~= all@.subrange(0, i as int));
                assert(upto.last() == all@[i as int]);
            }
            if all[i].severity.position() == 0 {
                out.push(all[i]);
            }
            i = i + 1;
        }
        proof {
            assert(all@.subrange(0, all@.len() as int) =~= all@);
        }
        out
    }

    /// How many records of `list` have the severity `severity`.
    pub fn count_severity(list: &Vec<&AffectedNode>, severity: ImpactSeverity) -> (n: usize)
        ensures
            n == count_of(list@, severity),
    {
        let mut n: usize = 0;
        let mut i: usize = 0;
        while i < list.len()
            invariant
                i <= list.len(),
                n <= i,
                n == count_of(list@.subrange(0, i as int), severity),
            decreases list.len() - i,
        {
            proof {
                let upto = list@.subrange(0, i + 1);
                assert(upto.drop_last() =~= list@.subrange(0, i as int));
                assert(upto.last() == list@[i as int]);
            }
            if list[i].severity.position() == severity.position() {
                n = n + 1;
            }
            i = i + 1;
        }
        proof {
            assert(list@.subrange(0, list@.len() as int) =~= list@);
        }
        n
    }

    /// One line that says how many nodes are affected, and how many at each
    /// severity.
    pub fn summary(&self) -> (out: String)
        ensures
            exists|all: Seq<&AffectedNode>|
                #![trigger count_of(all, ImpactSeverity::Direct)]
                refs_of(self.upstream@, self.downstream@, all) && out@ == summary_text(
                    self.total_affected as nat,
                    count_of(all, ImpactSeverity::Direct),
                    count_of(all, ImpactSeverity::Transitive),
                    count_of(all, ImpactSeverity::Distant),
                ),
    {
        let all = self.all_refs();
        let direct = Self::count_severity(&all, ImpactSeverity::Direct);
        let transitive = Self::count_severity(&all, ImpactSeverity::Transitive);
        let distant = Self::count_severity(&all, ImpactSeverity::Distant);
        let mut out = String::from_str("Blast Radius: ");
        out.append(decimal(self.total_affected).as_str());
        out.append(" nodes (direct: ");
        out.append(decimal(direct).as_str());
        out.append(", transitive: ");
        out.append(decimal(transitive).as_str());
        out.append(", distant: ");
        out.append(decimal(distant).as_str());
        out.append(")");
        out
    }
}

/// The record `x` is one of the upstream or downstream records of `analysis`.
pub open spec fn affects_either(analysis: &ImpactAnalysis, x: AffectedNode) -> bool {
    (exists|k: int| 0 <= k < analysis.upstream@.len() && #[trigger] analysis.upstream@[k] == x) || (exists|
        k: int,
    | 0 <= k < analysis.downstream@.len() && #[trigger] analysis.downstream@[k] == x)
}

impl ArborGraph {
    /// The nodes between one and `depth` hops from `target` in direction
    /// `dir`, each once, in the order of results.
    pub fn impact_toward(&self, target: NodeId, dir: ImpactDirection, depth: usize) -> (out: Vec<AffectedNode>)
        requires
            self.wf(),
        ensures
            reports_impact(out@, self, dir, target.raw as int, depth),
    {
        let found = reach(self, target, dir, depth);
        assert(crate::traverse::Neighborhood::links(self) == self.edges());
        let mut raw: Vec<AffectedNode> = Vec::new();
        let mut i: usize = 0;
        while i < found.len()
            invariant
                self.wf(),
                i <= found.len(),
                raw@.len() == i,
                forall|k: int|
                    0 <= k < found@.len() ==> (#[trigger] found@[k]).valid(self.edges(), dir, target.raw as int)
                        && found@[k].hops <= depth,
                forall|k: int|
                    0 <= k < i ==> (#[trigger] raw@[k]).valid(self, dir, target.raw as int) && raw@[k].as_reached()
                        == found@[k],
            decreases found.len() - i,
        {
            let r = found[i];
            proof {
                self.lemma_reached_is_live(r, dir, target.raw as int);
            }
            let id = NodeId::new(r.node);
            let node = self.get(id).unwrap();
            let info = NodeInfo::with_score(node, self.centrality(id));
            raw.push(
                AffectedNode {
                    node_id: id,
                    node_info: info,
                    severity: ImpactSeverity::from_hops(r.hops),
                    hop_distance: r.hops,
                    entry_edge: r.entry,
                    direction: dir,
                },
            );
            proof {
                assert(raw@[i as int].as_reached() == found@[i as int]);
                assert(found@[i as int].valid(self.edges(), dir, target.raw as int));
            }
            i = i + 1;
        }
        let mut refs: Vec<&AffectedNode> = Vec::new();
        let mut j: usize = 0;
        while j < raw.len()
            invariant
                j <= raw.len(),
                refs@.len() == j,
                forall|k: int| 0 <= k < j ==> *(#[trigger] refs@[k]) == raw@[k],
            decreases raw.len() - j,
        {
            refs.push(&raw[j]);
            j = j + 1;
        }
        proof {
            assert(distinct_nodes(refs@)) by {
                assert forall|a: int, b: int| 0 <= a < b < refs@.len() implies refs@[a].node_id.raw
                    != refs@[b].node_id.raw by {
                    assert(raw@[a].as_reached() == found@[a]);
                    assert(raw@[b].as_reached() == found@[b]);
                }
            }
        }
        let sorted = sort_by_key(refs);
        let mut out: Vec<AffectedNode> = Vec::new();
        let mut m: usize = 0;
        while m < sorted.len()
            invariant
                m <= sorted.len(),
                out@.len() == m,
                forall|k: int| 0 <= k < m ==> #[trigger] out@[k] == *sorted@[k],
            decreases sorted.len() - m,
        {
            out.push(sorted[m].clone());
            m = m + 1;
        }
        proof {
            let t = target.raw as int;
            assert forall|a: int| 0 <= a < out@.len() implies (#[trigger] out@[a]).valid(self, dir, t)
                && out@[a].hop_distance <= depth by {
                assert(holds(refs@, *sorted@[a]));
                let k = choose|k: int| 0 <= k < refs@.len() && *(#[trigger] refs@[k]) == *sorted@[a];
                assert(raw@[k].valid(self, dir, t));
                assert(raw@[k].as_reached() == found@[k]);
            }
            assert forall|a: int, b: int| 0 <= a < b < out@.len() implies out@[a].node_id.raw
                != out@[b].node_id.raw && key_le(out@[a], out@[b]) by {
                assert(key_le(*sorted@[a], *sorted@[b]));
            }
            assert forall|v: int, d: nat|
                1 <= d <= depth && #[trigger] at_distance(self.edges(), dir, t, v, d) implies affects(
                out@,
                v,
            ) by {
                assert(reports(found@, v));
                let k = choose|k: int| 0 <= k < found@.len() && (#[trigger] found@[k]).node == v;
                assert(raw@[k].as_reached() == found@[k]);
                assert(*refs@[k] == raw@[k]);
                assert(holds(sorted@, *refs@[k]));
                let a = choose|a: int| 0 <= a < sorted@.len() && *(#[trigger] sorted@[a]) == *refs@[k];
                assert(out@[a].node_id.raw == v);
            }
        }
        out
    }

    /// The blast radius of the node under `target`: the nodes that depend on
    /// it and the nodes it depends on, within `max_depth` hops, where a
    /// `max_depth` of zero sets no limit. Every reported node lies at least
    /// one hop away, and its severity is the one its distance gives. For a
    /// target that is not live the analysis is empty.
    pub fn analyze_impact(&self, target: NodeId, max_depth: usize) -> (out: ImpactAnalysis)
        requires
            self.wf(),
        ensures
            out.max_depth == max_depth,
            out.query_time_ms == 0,
            out.total_affected == capped_sum(out.upstream@.len(), out.downstream@.len()),
            !self.nodes().contains_key(target.raw as int) ==> out.target.is_blank() && out.upstream@.len() == 0
                && out.downstream@.len() == 0,
            self.nodes().contains_key(target.raw as int) ==> {
                &&& out.target.describes(self.nodes()[target.raw as int], 0)
                &&& reports_impact(
                    out.upstream@,
                    self,
                    ImpactDirection::Upstream,
                    target.raw as int,
                    effective_depth(max_depth),
                )
                &&& reports_impact(
                    out.downstream@,
                    self,
                    ImpactDirection::Downstream,
                    target.raw as int,
                    effective_depth(max_depth),
                )
            },
            forall|i: int|
                0 <= i < out.upstream@.len() ==> (#[trigger] out.upstream@[i]).hop_distance >= 1
                    && out.upstream@[i].severity == severity_of(out.upstream@[i].hop_distance as nat),
            forall|i: int|
                0 <= i < out.downstream@.len() ==> (#[trigger] out.downstream@[i]).hop_distance >= 1
                    && out.downstream@[i].severity == severity_of(out.downstream@[i].hop_distance as nat),
    {
        let info = match self.get(target) {
            Some(node) => NodeInfo::from_node(node),
            None => {
                return ImpactAnalysis {
                    target: NodeInfo::blank(),
                    upstream: Vec::new(),
                    downstream: Vec::new(),
                    total_affected: 0,
                    max_depth,
                    query_time_ms: 0,
                };
            },
        };
        let depth = if max_depth == 0 {
            usize::MAX
        } else {
            max_depth
        };
        let upstream = self.impact_toward(target, ImpactDirection::Upstream, depth);
        let downstream = self.impact_toward(target, ImpactDirection::Downstream, depth);
        let total = if upstream.len() > usize::MAX - downstream.len() {
            usize::MAX
        } else {
            upstream.len() + downstream.len()
        };
        ImpactAnalysis {
            target: info,
            upstream,
            downstream,
            total_affected: total,
            max_depth,
            query_time_ms: 0,
        }
    }
}

} // verus!
