//! The agent bridge: the methods and tools an agent may call, and the brief
//! it gets back for a symbol.

use vstd::prelude::*;
use vstd::string::*;
use crate::fanout::BroadcastMessage;
use crate::edge::EdgeKind;
use crate::graph::{ArborGraph, linked, linked_node, lists};
use crate::handlers::{INVALID_PARAMS, METHOD_NOT_FOUND, RpcError};
use crate::node::{CodeNode, NodeId};
use crate::text::str_eq;
use crate::topology::ImpactDirection;

verus! {

/// The methods of the agent bridge.
#[derive(Clone, Copy, Debug, PartialEq, Eq, Hash, Structural)]
pub enum AgentMethod {
    Initialize,
    Initialized,
    ToolsList,
    ToolsCall,
}

/// The method that a request names.
pub open spec fn agent_method_of(name: Seq<char>) -> Option<AgentMethod> {
    if name == "initialize"@ {
        Some(AgentMethod::Initialize)
    } else if name == "notifications/initialized"@ {
        Some(AgentMethod::Initialized)
    } else if name == "tools/list"@ {
        Some(AgentMethod::ToolsList)
    } else if name == "tools/call"@ {
        Some(AgentMethod::ToolsCall)
    } else {
        None
    }
}

/// The method that a request names, or the error for a name that is none.
pub fn agent_method(name: &str) -> (out: Result<AgentMethod, RpcError>)
    ensures
        match out {
            Ok(m) => agent_method_of(name@) == Some(m),
            Err(e) => agent_method_of(name@).is_none() && e.code == METHOD_NOT_FOUND && e.message@
                == "Method not found: "@ + name@,
        },
{
    if str_eq(name, "initialize") {
        Ok(AgentMethod::Initialize)
    } else if str_eq(name, "notifications/initialized") {
        Ok(AgentMethod::Initialized)
    } else if str_eq(name, "tools/list") {
        Ok(AgentMethod::ToolsList)
    } else if str_eq(name, "tools/call") {
        Ok(AgentMethod::ToolsCall)
    } else {
        Err(RpcError::method_not_found(name))
    }
}

/// The tools of the agent bridge.
#[derive(Clone, Copy, Debug, PartialEq, Eq, Hash, Structural)]
pub enum Tool {
    GetLogicPath,
    AnalyzeImpact,
}

impl Tool {
    /// The name under which the tool is called.
    pub open spec fn label(self) -> Seq<char> {
        match self {
            Tool::GetLogicPath => "get_logic_path"@,
            Tool::AnalyzeImpact => "analyze_impact"@,
        }
    }

    /// The name of the argument that names the symbol.
    pub open spec fn argument_label(self) -> Seq<char> {
        match self {
            Tool::GetLogicPath => "start_node"@,
            Tool::AnalyzeImpact => "node_id"@,
        }
    }

    /// The name under which the tool is called.
    pub fn name(&self) -> (out: &'static str)
        ensures
            out@ == self.label(),
    {
        match self {
            Tool::GetLogicPath => "get_logic_path",
            Tool::AnalyzeImpact => "analyze_impact",
        }
    }

    /// The name of the argument that names the symbol.
    pub fn argument(&self) -> (out: &'static str)
        ensures
            out@ == self.argument_label(),
    {
        match self {
            Tool::GetLogicPath => "start_node",
            Tool::AnalyzeImpact => "node_id",
        }
    }

    /// What the tool does, in a sentence.
    pub fn description(&self) -> (out: &'static str)
        ensures
            out@ == (match self {
                Tool::GetLogicPath => "Traces the call graph to find dependencies and usage of a function or class."@,
                Tool::AnalyzeImpact => "Analyzes the impact (blast radius) of changing a specific node."@,
            }),
    {
        match self {
            Tool::GetLogicPath => "Traces the call graph to find dependencies and usage of a function or class.",
            Tool::AnalyzeImpact => "Analyzes the impact (blast radius) of changing a specific node.",
        }
    }

    /// What the tool's argument is, in a phrase.
    pub fn argument_description(&self) -> (out: &'static str)
        ensures
            out@ == (match self {
                Tool::GetLogicPath => "Name of the function or class to trace"@,
                Tool::AnalyzeImpact => "ID or name of the node to analyze"@,
            }),
    {
        match self {
            Tool::GetLogicPath => "Name of the function or class to trace",
            Tool::AnalyzeImpact => "ID or name of the node to analyze",
        }
    }
}

/// The tool that a call names.
pub open spec fn tool_of(name: Seq<char>) -> Option<Tool> {
    if name == "get_logic_path"@ {
        Some(Tool::GetLogicPath)
    } else if name == "analyze_impact"@ {
        Some(Tool::AnalyzeImpact)
    } else {
        None
    }
}

/// The tool that a call names: a call without a name is an error, and so is
/// a name that is no tool's.
pub fn tool_named(name: Option<&str>) -> (out: Result<Tool, RpcError>)
    ensures
        match out {
            Ok(t) => name.is_some() && tool_of(name.unwrap()@) == Some(t),
            Err(e) => match name {
                Some(n) => tool_of(n@).is_none() && e.code == METHOD_NOT_FOUND && e.message@
                    == "Tool not found: "@ + n@,
                None => e.code == INVALID_PARAMS && e.message@ == "Missing 'name' parameter"@,
            },
        },
{
    match name {
        Some(n) => {
            if str_eq(n, "get_logic_path") {
                Ok(Tool::GetLogicPath)
            } else if str_eq(n, "analyze_impact") {
                Ok(Tool::AnalyzeImpact)
            } else {
                let mut message = String::from_str("Tool not found: ");
                message.append(n);
                Err(RpcError { code: METHOD_NOT_FOUND, message })
            }
        },
        None => Err(RpcError { code: INVALID_PARAMS, message: String::from_str("Missing 'name' parameter") }),
    }
}

/// The tools that `tools/list` names, in order.
pub fn tool_catalogue() -> (out: Vec<Tool>)
    ensures
        out@ == seq![Tool::GetLogicPath, Tool::AnalyzeImpact],
{
    let mut out: Vec<Tool> = Vec::new();
    out.push(Tool::GetLogicPath);
    out.push(Tool::AnalyzeImpact);
    assert(out@ =~= seq![Tool::GetLogicPath, Tool::AnalyzeImpact]);
    out
}

/// The version of the protocol that `initialize` reports.
pub fn protocol_version() -> (out: &'static str)
    ensures
        out@ == "0.1.0"@,
{
    "0.1.0"
}

/// The name of the server that `initialize` reports.
pub fn server_name() -> (out: &'static str)
    ensures
        out@ == "arbor-mcp"@,
{
    "arbor-mcp"
}

/// The node that an agent means by `name`: the node whose id is `name`, or
/// else a node whose name is `name`.
pub fn resolve_target(graph: &ArborGraph, name: &str) -> (out: Option<NodeId>)
    requires
        graph.wf(),
    ensures
        match out {
            Some(h) => graph.nodes().contains_key(h.raw as int) && (if graph.ids().contains_key(name@) {
                h.raw == graph.ids()[name@]
            } else {
                graph.nodes()[h.raw as int].name@ == name@
            }),
            None => !graph.ids().contains_key(name@) && forall|h: int| #[trigger]
                graph.nodes().contains_key(h) ==> graph.nodes()[h].name@ != name@,
        },
{
    match graph.get_index(name) {
        Some(h) => Some(h),
        None => {
            let named = graph.find_by_name(name);
            if named.len() > 0 {
                let first = named[0];
                proof {
                    assert(crate::graph::live_node(graph.nodes(), *named@[0]));
                    let h = choose|h: int| #[trigger] graph.nodes().contains_key(h) && graph.nodes()[h] == *named@[0];
                    assert(graph.ids().contains_key(first.id@) && graph.ids()[first.id@] == h);
                }
                graph.get_index(first.id.as_str())
            } else {
                proof {
                    assert forall|h: int| #[trigger] graph.nodes().contains_key(h) implies graph.nodes()[h].name@
                        != name@ by {
                        if graph.nodes()[h].name@ == name@ {
                            assert(lists(named@, graph.nodes()[h]));
                        }
                    }
                }
                None
            }
        },
    }
}

/// The command to show the node that an agent means by `name`, if there is
/// such a node.
pub fn spotlight_for(graph: &ArborGraph, name: &str) -> (out: Option<BroadcastMessage>)
    requires
        graph.wf(),
    ensures
        out.is_some() <==> graph.ids().contains_key(name@) || exists|h: int| #[trigger]
            graph.nodes().contains_key(h) && graph.nodes()[h].name@ == name@,
        out.is_some() ==> exists|h: int| #[trigger] focuses(graph, name@, h, out.unwrap()),
{
    match resolve_target(graph, name) {
        Some(h) => {
            let node = graph.get(h).unwrap();
            let message = BroadcastMessage::focus(node.id.as_str(), node.file.as_str(), node.line_start);
            let out = Some(message);
            proof {
                assert(graph.nodes().contains_key(h.raw as int));
                assert(focuses(graph, name@, h.raw as int, out.unwrap()));
            }
            out
        },
        None => None,
    }
}

/// `message` is the command to show the node under `h`, which is the node
/// that an agent means by `name`.
pub open spec fn focuses(graph: &ArborGraph, name: Seq<char>, h: int, message: BroadcastMessage) -> bool {
    &&& graph.nodes().contains_key(h)
    &&& if graph.ids().contains_key(name) {
        h == graph.ids()[name]
    } else {
        graph.nodes()[h].name@ == name
    }
    &&& message matches BroadcastMessage::FocusNode(p) && p.node_id@ == graph.nodes()[h].id@ && p.file@
        == graph.nodes()[h].file@ && p.line == graph.nodes()[h].line_start
}

/// One row of a brief's tables: a callee or a caller.
#[derive(Debug)]
pub struct BriefRow {
    pub id: String,
    pub name: String,
    /// The label of the node's kind.
    pub kind: String,
    /// The node's centrality score.
    pub impact: u64,
    /// The score as it is to be shown; empty until the caller sets it.
    pub impact_text: String,
    pub file: String,
}

impl BriefRow {
    /// The row reports `node` with the score `score`, and its score has no
    /// text yet.
    pub open spec fn describes(&self, node: CodeNode, score: u64) -> bool {
        &&& self.id@ == node.id@
        &&& self.name@ == node.name@
        &&& self.kind@ == node.kind.label()
        &&& self.impact == score
        &&& self.impact_text@.len() == 0
        &&& self.file@ == node.file@
    }
}

/// What an agent is told of a symbol.
#[derive(Debug)]
pub struct Brief {
    pub name: String,
    /// The label of the node's kind.
    pub kind: String,
    pub file: String,
    /// The node's centrality score.
    pub centrality: u64,
    /// The score as it is to be shown; empty until the caller sets it.
    pub centrality_text: String,
    pub signature: Option<String>,
    pub callees: Vec<BriefRow>,
    pub callers: Vec<BriefRow>,
}

/// `rows` reports exactly the nodes that a `Calls` edge joins to `target` in
/// direction `dir`, each once.
pub open spec fn rows_report(graph: &ArborGraph, dir: ImpactDirection, target: int, rows: Seq<BriefRow>) -> bool {
    &&& forall|i: int| 0 <= i < rows.len() ==> row_of_linked(graph, dir, target, #[trigger] rows[i])
    &&& forall|h: int| #[trigger]
        linked(graph.edges(), dir, EdgeKind::Calls, target, h) ==> has_row(graph, rows, h)
    &&& forall|i: int, j: int| 0 <= i < j < rows.len() ==> rows[i].id@ != rows[j].id@
}

/// `row` reports a node that a `Calls` edge joins to `target` in direction
/// `dir`.
pub open spec fn row_of_linked(graph: &ArborGraph, dir: ImpactDirection, target: int, row: BriefRow) -> bool {
    exists|h: int| #[trigger]
        linked(graph.edges(), dir, EdgeKind::Calls, target, h) && 0 <= h <= usize::MAX && row.describes(
            graph.nodes()[h],
            graph.score_of(h as usize),
        )
}

/// `rows` holds a row for the node under `h`.
pub open spec fn has_row(graph: &ArborGraph, rows: Seq<BriefRow>, h: int) -> bool {
    exists|i: int|
        0 <= i < rows.len() && 0 <= h <= usize::MAX && (#[trigger] rows[i]).describes(
            graph.nodes()[h],
            graph.score_of(h as usize),
        )
}

/// The rows for `found`, the callers or callees of the node under `target`.
fn rows_for(graph: &ArborGraph, found: &Vec<&CodeNode>, Ghost(dir): Ghost<ImpactDirection>, Ghost(target): Ghost<
    int,
>) -> (out: Vec<BriefRow>)
    requires
        graph.wf(),
        forall|i: int|
            0 <= i < found@.len() ==> linked_node(
                graph.edges(),
                graph.nodes(),
                dir,
                EdgeKind::Calls,
                target,
                *#[trigger] found@[i],
            ),
        forall|h: int| #[trigger]
            linked(graph.edges(), dir, EdgeKind::Calls, target, h) ==> lists(found@, graph.nodes()[h]),
        forall|i: int, j: int| 0 <= i < j < found@.len() ==> found@[i].id@ != found@[j].id@,
    ensures
        rows_report(graph, dir, target, out@),
{
    let mut out: Vec<BriefRow> = Vec::new();
    let mut i: usize = 0;
    while i < found.len()
        invariant
            graph.wf(),
            i <= found.len(),
            out@.len() == i,
            forall|k: int|
                0 <= k < found@.len() ==> linked_node(
                    graph.edges(),
                    graph.nodes(),
                    dir,
                    EdgeKind::Calls,
                    target,
                    *#[trigger] found@[k],
                ),
            forall|k: int|
                0 <= k < i ==> (#[trigger] out@[k]).id@ == found@[k].id@ && row_of_linked(graph, dir, target, out@[k])
                    && exists|h: int| #[trigger]
                    graph.nodes().contains_key(h) && graph.nodes()[h] == *found@[k] && out@[k].describes(
                        graph.nodes()[h],
                        graph.score_of(h as usize),
                    ),
        decreases found.len() - i,
    {
        let node = found[i];
        proof {
            assert(linked_node(graph.edges(), graph.nodes(), dir, EdgeKind::Calls, target, *found@[i as int]));
            let h = choose|h: int| #[trigger]
                linked(graph.edges(), dir, EdgeKind::Calls, target, h) && graph.nodes()[h] == *found@[i as int];
            let e = choose|e: int| #[trigger]
                graph.edges().contains_key(e) && graph.edges()[e].2.kind == EdgeKind::Calls
                    && crate::topology::near_end(graph.edges()[e], dir) == target && crate::topology::far_end(
                    graph.edges()[e],
                    dir,
                ) == h;
            assert(graph.nodes().contains_key(h));
            assert(graph.ids()[node.id@] == h);
        }
        let score = match graph.get_index(node.id.as_str()) {
            Some(h) => graph.centrality(h),
            None => 0,
        };
        out.push(
            BriefRow {
                id: node.id.clone(),
                name: node.name.clone(),
                kind: String::from_str(node.kind.as_str()),
                impact: score,
                impact_text: String::new(),
                file: node.file.clone(),
            },
        );
        proof {
            let h = choose|h: int| #[trigger]
                linked(graph.edges(), dir, EdgeKind::Calls, target, h) && graph.nodes()[h] == *found@[i as int];
            assert(out@[i as int].describes(graph.nodes()[h], graph.score_of(h as usize)));
            assert(graph.nodes().contains_key(h) && graph.nodes()[h] == *found@[i as int]);
        }
        i = i + 1;
    }
    proof {
        assert forall|h: int| #[trigger] linked(graph.edges(), dir, EdgeKind::Calls, target, h) implies has_row(
            graph,
            out@,
            h,
        ) by {
            assert(lists(found@, graph.nodes()[h]));
            let k = choose|k: int| 0 <= k < found@.len() && *(#[trigger] found@[k]) == graph.nodes()[h];
            let h2 = choose|h2: int| #[trigger]
                graph.nodes().contains_key(h2) && graph.nodes()[h2] == *found@[k] && out@[k].describes(
                    graph.nodes()[h2],
                    graph.score_of(h2 as usize),
                );
            let e = choose|e: int| #[trigger]
                graph.edges().contains_key(e) && graph.edges()[e].2.kind == EdgeKind::Calls
                    && crate::topology::near_end(graph.edges()[e], dir) == target && crate::topology::far_end(
                    graph.edges()[e],
                    dir,
                ) == h;
            assert(graph.nodes().contains_key(h));
            assert(graph.ids()[graph.nodes()[h].id@] == h);
            assert(graph.ids()[graph.nodes()[h2].id@] == h2);
            assert(h == h2);
        }
    }
    out
}

/// What an agent is told of the node it means by `name`, or `None` if it
/// means none.
pub fn brief_for(graph: &ArborGraph, name: &str) -> (out: Option<Brief>)
    requires
        graph.wf(),
    ensures
        out.is_some() <==> graph.ids().contains_key(name@) || exists|h: int| #[trigger]
            graph.nodes().contains_key(h) && graph.nodes()[h].name@ == name@,
        out.is_some() ==> exists|h: int| #[trigger] briefs(graph, name@, h, out.unwrap()),
{
    let index = match resolve_target(graph, name) {
        Some(index) => index,
        None => {
            return None;
        },
    };
    let node = graph.get(index).unwrap();
    let callers = graph.get_callers(index);
    let callees = graph.get_callees(index);
    let brief = Brief {
        name: node.name.clone(),
        kind: String::from_str(node.kind.as_str()),
        file: node.file.clone(),
        centrality: graph.centrality(index),
        centrality_text: String::new(),
        signature: match &node.signature {
            Some(s) => Some(s.clone()),
            None => None,
        },
        callees: rows_for(graph, &callees, Ghost(ImpactDirection::Downstream), Ghost(index.raw as int)),
        callers: rows_for(graph, &callers, Ghost(ImpactDirection::Upstream), Ghost(index.raw as int)),
    };
    let out = Some(brief);
    proof {
        assert(graph.nodes().contains_key(index.raw as int));
        assert(briefs(graph, name@, index.raw as int, out.unwrap()));
    }
    out
}

/// `brief` is what an agent that means the node under `h` by `name` is told.
pub open spec fn briefs(graph: &ArborGraph, name: Seq<char>, h: int, brief: Brief) -> bool {
    &&& graph.nodes().contains_key(h)
    &&& 0 <= h <= usize::MAX
    &&& if graph.ids().contains_key(name) {
        h == graph.ids()[name]
    } else {
        graph.nodes()[h].name@ == name
    }
    &&& brief.name@ == graph.nodes()[h].name@
    &&& brief.kind@ == graph.nodes()[h].kind.label()
    &&& brief.file@ == graph.nodes()[h].file@
    &&& brief.centrality == graph.score_of(h as usize)
    &&& brief.centrality_text@.len() == 0
    &&& brief.signature.is_some() == graph.nodes()[h].signature.is_some()
    &&& brief.signature.is_some() ==> brief.signature.unwrap()@ == graph.nodes()[h].signature.unwrap()@
    &&& rows_report(graph, ImpactDirection::Downstream, h, brief.callees@)
    &&& rows_report(graph, ImpactDirection::Upstream, h, brief.callers@)
}

/// The text of one row of a table.
pub open spec fn row_text(row: BriefRow) -> Seq<char> {
    "| `"@ + row.name@ + "` | "@ + row.kind@ + " | "@ + row.impact_text@ + " | `"@ + row.file@ + "` |\n"@
}

/// The text of the rows of a table.
pub open spec fn rows_text(rows: Seq<BriefRow>) -> Seq<char>
    decreases rows.len(),
{
    if rows.len() == 0 {
        Seq::empty()
    } else {
        rows_text(rows.drop_last()) + row_text(rows.last())
    }
}

/// The text of a table of callees or callers, or `none` for an empty one.
pub open spec fn table_text(rows: Seq<BriefRow>, none: Seq<char>) -> Seq<char> {
    if rows.len() == 0 {
        none
    } else {
        "| Symbol | Type | Impact | File |\n"@ + "|--------|------|--------|------|\n"@ + rows_text(rows)
    }
}

/// The text of the head of a brief: the symbol and its properties.
pub open spec fn head_text(brief: Brief) -> Seq<char> {
    "# Architectural Brief: `"@ + brief.name@ + "`\n\n"@ + "| Property | Value |\n"@
        + "|----------|-------|\n"@ + "| **Type** | "@ + brief.kind@ + " |\n"@ + "| **File** | `"@ + brief.file@
        + "` |\n"@ + "| **Impact Level** | "@ + brief.centrality_text@ + " |\n"@ + (match brief.signature {
        Some(s) => "| **Signature** | `"@ + s@ + "` |\n"@,
        None => Seq::empty(),
    })
}

/// The text of a brief, in Markdown.
pub open spec fn brief_text(brief: Brief) -> Seq<char> {
    head_text(brief) + "\n## Dependencies (Callees)\n\n"@ + table_text(
        brief.callees@,
        "*None - This is a leaf node.*\n"@,
    ) + "\n## Usage (Callers)\n\n"@ + table_text(
        brief.callers@,
        "*None - Potential entry point or dead code.*\n"@,
    )
}

/// Appends the table of `rows` to `out`, or `none` for an empty table.
pub fn append_table(out: &mut String, rows: &Vec<BriefRow>, none: &str)
    ensures
        final(out)@ == old(out)@ + table_text(rows@, none@),
{
    if rows.len() == 0 {
        out.append(none);
        return ;
    }
    out.append("| Symbol | Type | Impact | File |\n");
    out.append("|--------|------|--------|------|\n");
    let ghost base = out@;
    let mut i: usize = 0;
    proof {
        assert(rows@.subrange(0, 0) =~= Seq::<BriefRow>::empty());
        assert(base + Seq::<char>::empty() =~= base);
    }
    while i < rows.len()
        invariant
            i <= rows.len(),
            out@ == base + rows_text(rows@.subrange(0, i as int)),
        decreases rows.len() - i,
    {
        let row = &rows[i];
        let ghost before = out@;
        out.append("| `");
        out.append(row.name.as_str());
        out.append("` | ");
        out.append(row.kind.as_str());
        out.append(" | ");
        out.append(row.impact_text.as_str());
        out.append(" | `");
        out.append(row.file.as_str());
        out.append("` |\n");
        proof {
            let upto = rows@.subrange(0, i + 1);
            assert(upto.drop_last() =~= rows@.subrange(0, i as int));
            assert(upto.last() == rows@[i as int]);
            assert(out@ =~= before + row_text(rows@[i as int]));
            assert(base + (rows_text(upto.drop_last()) + row_text(upto.last())) =~= base + rows_text(
                upto.drop_last(),
            ) + row_text(upto.last()));
        }
        i = i + 1;
    }
    proof {
        assert(rows@.subrange(0, rows@.len() as int) =~= rows@);
        assert(old(out)@ + ("| Symbol | Type | Impact | File |\n"@ + "|--------|------|--------|------|\n"@
            + rows_text(rows@)) =~= base + rows_text(rows@));
    }
}

/// The text of a brief, in Markdown.
pub fn render_brief(brief: &Brief) -> (out: String)
    ensures
        out@ == brief_text(*brief),
{
    let mut out = String::from_str("# Architectural Brief: `");
    out.append(brief.name.as_str());
    out.append("`\n\n");
    out.append("| Property | Value |\n");
    out.append("|----------|-------|\n");
    out.append("| **Type** | ");
    out.append(brief.kind.as_str());
    out.append(" |\n");
    out.append("| **File** | `");
    out.append(brief.file.as_str());
    out.append("` |\n");
    out.append("| **Impact Level** | ");
    out.append(brief.centrality_text.as_str());
    out.append(" |\n");
    match &brief.signature {
        Some(s) => {
            out.append("| **Signature** | `");
            out.append(s.as_str());
            out.append("` |\n");
        },
        None => {},
    }
    proof {
        assert(out@ =~= head_text(*brief));
    }
    out.append("\n## Dependencies (Callees)\n\n");
    append_table(&mut out, &brief.callees, "*None - This is a leaf node.*\n");
    out.append("\n## Usage (Callers)\n\n");
    append_table(&mut out, &brief.callers, "*None - Potential entry point or dead code.*\n");
    out
}

/// What an agent is told when it means no node by `name`.
pub fn not_found_text(name: &str) -> (out: String)
    ensures
        out@ == "Node '"@ + name@ + "' not found in the graph. Check the name or ID."@,
{
    let mut out = String::from_str("Node '");
    out.append(name);
    out.append("' not found in the graph. Check the name or ID.");
    out
}

/// What the impact tool answers for `node_id`, given the brief's text.
pub fn impact_answer(node_id: &str, brief: &str) -> (out: String)
    ensures
        out@ == "Impact analysis for "@ + node_id@ + ":\n\n"@ + brief@,
{
    let mut out = String::from_str("Impact analysis for ");
    out.append(node_id);
    out.append(":\n\n");
    out.append(brief);
    out
}

} // verus!
