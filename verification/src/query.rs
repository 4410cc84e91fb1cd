//! What a query reports of a node.

use vstd::prelude::*;
use vstd::string::*;
use crate::node::CodeNode;

verus! {

/// A node as queries report it.
#[derive(Debug)]
pub struct NodeInfo {
    pub id: String,
    pub name: String,
    pub qualified_name: String,
    /// The label of the node's kind.
    pub kind: String,
    pub file: String,
    pub line_start: u32,
    pub line_end: u32,
    pub signature: Option<String>,
    /// The node's centrality score: the bit pattern of a non-negative
    /// double, so that scores compare as the numbers they stand for.
    pub centrality: u64,
}

impl Clone for NodeInfo {
    fn clone(&self) -> (out: NodeInfo)
        ensures
            out == *self,
    {
        NodeInfo {
            id: self.id.clone(),
            name: self.name.clone(),
            qualified_name: self.qualified_name.clone(),
            kind: self.kind.clone(),
            file: self.file.clone(),
            line_start: self.line_start,
            line_end: self.line_end,
            signature: match &self.signature {
                Some(s) => Some(s.clone()),
                None => None,
            },
            centrality: self.centrality,
        }
    }
}

impl NodeInfo {
    /// This record reports `node` with the score `centrality`.
    pub open spec fn describes(&self, node: CodeNode, centrality: u64) -> bool {
        &&& self.id@ == node.id@
        &&& self.name@ == node.name@
        &&& self.qualified_name@ == node.qualified_name@
        &&& self.kind@ == node.kind.label()
        &&& self.file@ == node.file@
        &&& self.line_start == node.line_start
        &&& self.line_end == node.line_end
        &&& self.signature.is_some() == node.signature.is_some()
        &&& self.signature.is_some() ==> self.signature.unwrap()@ == node.signature.unwrap()@
        &&& self.centrality == centrality
    }

    /// This record reports no node: its texts are empty and its numbers zero.
    pub open spec fn is_blank(&self) -> bool {
        &&& self.id@.len() == 0
        &&& self.name@.len() == 0
        &&& self.qualified_name@.len() == 0
        &&& self.kind@.len() == 0
        &&& self.file@.len() == 0
        &&& self.line_start == 0
        &&& self.line_end == 0
        &&& self.signature.is_none()
        &&& self.centrality == 0
    }

    /// The report of `node`, with a score of zero.
    pub fn from_node(node: &CodeNode) -> (out: NodeInfo)
        ensures
            out.describes(*node, 0),
    {
        Self::with_score(node, 0)
    }

    /// The report of `node` with the score `centrality`.
    pub fn with_score(node: &CodeNode, centrality: u64) -> (out: NodeInfo)
        ensures
            out.describes(*node, centrality),
    {
        NodeInfo {
            id: node.id.clone(),
            name: node.name.clone(),
            qualified_name: node.qualified_name.clone(),
            kind: String::from_str(node.kind.as_str()),
            file: node.file.clone(),
            line_start: node.line_start,
            line_end: node.line_end,
            signature: match &node.signature {
                Some(s) => Some(s.clone()),
                None => None,
            },
            centrality,
        }
    }

    /// The report of no node.
    pub fn blank() -> (out: NodeInfo)
        ensures
            out.is_blank(),
    {
        NodeInfo {
            id: String::new(),
            name: String::new(),
            qualified_name: String::new(),
            kind: String::new(),
            file: String::new(),
            line_start: 0,
            line_end: 0,
            signature: None,
            centrality: 0,
        }
    }
}

} // verus!
