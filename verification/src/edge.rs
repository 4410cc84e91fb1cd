//! Edges: the resolved relationships of the code graph.

use vstd::prelude::*;
use vstd::string::*;

verus! {

/// The relationship an edge stands for.
#[derive(Clone, Copy, Debug, PartialEq, Eq, Hash, Structural)]
pub enum EdgeKind {
    /// A function calls another.
    Calls,
    /// A module imports from another.
    Imports,
    /// A class extends another.
    Extends,
    /// A class implements an interface.
    Implements,
    /// A type mentions another type.
    UsesType,
    /// Any other mention of a symbol.
    References,
    /// A container holds a member.
    Contains,
    /// Control flows from one statement to the next.
    FlowsTo,
    /// A use depends on a definition.
    DataDependency,
}

impl EdgeKind {
    /// The lower-case label of the kind.
    pub open spec fn label(self) -> Seq<char> {
        match self {
            EdgeKind::Calls => "calls"@,
            EdgeKind::Imports => "imports"@,
            EdgeKind::Extends => "extends"@,
            EdgeKind::Implements => "implements"@,
            EdgeKind::UsesType => "uses_type"@,
            EdgeKind::References => "references"@,
            EdgeKind::Contains => "contains"@,
            EdgeKind::FlowsTo => "flows_to"@,
            EdgeKind::DataDependency => "data_dependency"@,
        }
    }

    pub fn as_str(&self) -> (s: &'static str)
        ensures
            s@ == self.label(),
    {
        match self {
            EdgeKind::Calls => "calls",
            EdgeKind::Imports => "imports",
            EdgeKind::Extends => "extends",
            EdgeKind::Implements => "implements",
            EdgeKind::UsesType => "uses_type",
            EdgeKind::References => "references",
            EdgeKind::Contains => "contains",
            EdgeKind::FlowsTo => "flows_to",
            EdgeKind::DataDependency => "data_dependency",
        }
    }
}

/// An edge of the graph: its kind, and where in the source it arises.
#[derive(Debug)]
pub struct Edge {
    pub kind: EdgeKind,
    pub file: Option<String>,
    pub line: Option<u32>,
}

impl Clone for Edge {
    fn clone(&self) -> (out: Edge)
        ensures
            out == *self,
    {
        Edge {
            kind: self.kind,
            file: match &self.file {
                Some(f) => Some(f.clone()),
                None => None,
            },
            line: self.line,
        }
    }
}

impl Edge {
    /// An edge of the given kind with no location.
    pub fn new(kind: EdgeKind) -> (edge: Edge)
        ensures
            edge == (Edge { kind: kind, file: None, line: None }),
    {
        Edge { kind, file: None, line: None }
    }

    /// An edge of the given kind that arises at `line` of `file`.
    pub fn with_location(kind: EdgeKind, file: &str, line: u32) -> (edge: Edge)
        ensures
            edge.kind == kind,
            edge.file.is_some(),
            edge.file.unwrap()@ == file@,
            edge.line == Some(line),
    {
        Edge { kind, file: Some(String::from_str(file)), line: Some(line) }
    }
}

/// An edge as it is exported: the ids of its endpoints and its kind.
#[derive(Debug)]
pub struct GraphEdge {
    pub source: String,
    pub target: String,
    pub kind: EdgeKind,
}

impl Clone for GraphEdge {
    fn clone(&self) -> (out: GraphEdge)
        ensures
            out == *self,
    {
        GraphEdge { source: self.source.clone(), target: self.target.clone(), kind: self.kind }
    }
}

} // verus!
