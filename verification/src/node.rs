//! Symbols: the nodes of the code graph.

use vstd::prelude::*;
use vstd::string::*;

verus! {

/// A handle to a node of the graph. Handles stay valid until their node is
/// removed; removing one node never changes the handle of another.
#[derive(Clone, Copy, Debug, PartialEq, Eq, Hash, PartialOrd, Ord, Structural)]
pub struct NodeId {
    pub raw: usize,
}

impl NodeId {
    pub fn new(x: usize) -> (id: NodeId)
        ensures
            id.raw == x,
    {
        NodeId { raw: x }
    }

    pub fn index(&self) -> (x: usize)
        ensures
            x == self.raw,
    {
        self.raw
    }
}

/// What kind of code entity a symbol is.
#[derive(Clone, Copy, Debug, PartialEq, Eq, Hash, Structural)]
pub enum NodeKind {
    Function,
    Method,
    Class,
    Struct,
    Interface,
    Enum,
    Constant,
    Variable,
    Field,
    Constructor,
    Module,
    Import,
    TypeAlias,
}

impl NodeKind {
    /// The lower-case label of the kind.
    pub open spec fn label(self) -> Seq<char> {
        match self {
            NodeKind::Function => "function"@,
            NodeKind::Method => "method"@,
            NodeKind::Class => "class"@,
            NodeKind::Struct => "struct"@,
            NodeKind::Interface => "interface"@,
            NodeKind::Enum => "enum"@,
            NodeKind::Constant => "constant"@,
            NodeKind::Variable => "variable"@,
            NodeKind::Field => "field"@,
            NodeKind::Constructor => "constructor"@,
            NodeKind::Module => "module"@,
            NodeKind::Import => "import"@,
            NodeKind::TypeAlias => "type_alias"@,
        }
    }

    pub fn as_str(&self) -> (s: &'static str)
        ensures
            s@ == self.label(),
    {
        match self {
            NodeKind::Function => "function",
            NodeKind::Method => "method",
            NodeKind::Class => "class",
            NodeKind::Struct => "struct",
            NodeKind::Interface => "interface",
            NodeKind::Enum => "enum",
            NodeKind::Constant => "constant",
            NodeKind::Variable => "variable",
            NodeKind::Field => "field",
            NodeKind::Constructor => "constructor",
            NodeKind::Module => "module",
            NodeKind::Import => "import",
            NodeKind::TypeAlias => "type_alias",
        }
    }
}

/// Who may use a symbol.
#[derive(Clone, Copy, Debug, PartialEq, Eq, Hash, Structural)]
pub enum Visibility {
    Public,
    Protected,
    Private,
    Internal,
}

/// The id of the symbol that `file` defines under the qualified name `qualified`.
pub open spec fn symbol_id(file: Seq<char>, qualified: Seq<char>) -> Seq<char> {
    file + seq![':'] + qualified
}

/// A named code entity extracted from a source file.
#[derive(Debug)]
pub struct CodeNode {
    /// Unique within a live graph.
    pub id: String,
    pub name: String,
    pub qualified_name: String,
    pub kind: NodeKind,
    pub file: String,
    /// 1-based.
    pub line_start: u32,
    pub line_end: u32,
    pub column: u32,
    pub byte_start: u32,
    pub byte_end: u32,
    pub visibility: Visibility,
    /// The first line of the definition, verbatim.
    pub signature: Option<String>,
    /// Names this symbol refers to, not yet resolved to nodes.
    pub references: Vec<String>,
}

/// The mathematical value of a symbol.
pub struct CodeNodeView {
    pub id: Seq<char>,
    pub name: Seq<char>,
    pub qualified_name: Seq<char>,
    pub kind: NodeKind,
    pub file: Seq<char>,
    pub line_start: u32,
    pub line_end: u32,
    pub column: u32,
    pub byte_start: u32,
    pub byte_end: u32,
    pub visibility: Visibility,
    pub signature: Option<Seq<char>>,
    pub references: Seq<Seq<char>>,
}

/// The character sequences of a list of strings.
pub open spec fn strings_view(v: Seq<String>) -> Seq<Seq<char>> {
    Seq::new(v.len(), |i: int| v[i]@)
}

/// A copy of a list of strings.
pub fn clone_strings(v: &Vec<String>) -> (out: Vec<String>)
    ensures
        out@ == v@,
{
    let mut out: Vec<String> = Vec::new();
    let mut i: usize = 0;
    while i < v.len()
        invariant
            i <= v.len(),
            out@ == v@.subrange(0, i as int),
        decreases v.len() - i,
    {
        out.push(v[i].clone());
        i = i + 1;
        assert(out@ =~= v@.subrange(0, i as int));
    }
    assert(v@.subrange(0, v.len() as int) =~= v@);
    out
}

/// The nodes of `list` in reverse order.
pub fn reversed(list: Vec<CodeNode>) -> (out: Vec<CodeNode>)
    ensures
        out@.len() == list@.len(),
        forall|k: int| 0 <= k < out@.len() ==> #[trigger] out@[k] == list@[list@.len() - 1 - k],
{
    let mut rest = list;
    let mut out: Vec<CodeNode> = Vec::new();
    while rest.len() > 0
        invariant
            rest@.len() <= list@.len(),
            rest@ == list@.subrange(0, rest@.len() as int),
            out@.len() + rest@.len() == list@.len(),
            forall|k: int| 0 <= k < out@.len() ==> #[trigger] out@[k] == list@[list@.len() - 1 - k],
        decreases rest.len(),
    {
        let x = rest.pop().unwrap();
        out.push(x);
    }
    out
}

impl View for CodeNode {
    type V = CodeNodeView;

    open spec fn view(&self) -> CodeNodeView {
        CodeNodeView {
            id: self.id@,
            name: self.name@,
            qualified_name: self.qualified_name@,
            kind: self.kind,
            file: self.file@,
            line_start: self.line_start,
            line_end: self.line_end,
            column: self.column,
            byte_start: self.byte_start,
            byte_end: self.byte_end,
            visibility: self.visibility,
            signature: match self.signature {
                Some(s) => Some(s@),
                None => None,
            },
            references: strings_view(self.references@),
        }
    }
}

/// The values of a list of symbols.
pub open spec fn node_views(list: Seq<CodeNode>) -> Seq<CodeNodeView> {
    Seq::new(list.len(), |i: int| list[i]@)
}

impl Clone for CodeNode {
    fn clone(&self) -> (out: CodeNode)
        ensures
            out@ == self@,
    {
        CodeNode {
            id: self.id.clone(),
            name: self.name.clone(),
            qualified_name: self.qualified_name.clone(),
            kind: self.kind,
            file: self.file.clone(),
            line_start: self.line_start,
            line_end: self.line_end,
            column: self.column,
            byte_start: self.byte_start,
            byte_end: self.byte_end,
            visibility: self.visibility,
            signature: match &self.signature {
                Some(s) => Some(s.clone()),
                None => None,
            },
            references: clone_strings(&self.references),
        }
    }
}

impl CodeNode {
    /// A symbol with the given names, kind and file. Its id is
    /// `file:qualified_name`; it spans no lines, is `Internal`, and has no
    /// signature and no references.
    pub fn new(name: &str, qualified_name: &str, kind: NodeKind, file: &str) -> (node: CodeNode)
        ensures
            node@ == (CodeNodeView {
                id: symbol_id(file@, qualified_name@),
                name: name@,
                qualified_name: qualified_name@,
                kind: kind,
                file: file@,
                line_start: 0,
                line_end: 0,
                column: 0,
                byte_start: 0,
                byte_end: 0,
                visibility: Visibility::Internal,
                signature: None,
                references: Seq::empty(),
            }),
    {
        let mut id = String::from_str(file);
        id.append(":");
        id.append(qualified_name);
        proof {
            reveal_strlit(":");
            assert(":"@ =~= seq![':']);
        }
        let node = CodeNode {
            id,
            name: String::from_str(name),
            qualified_name: String::from_str(qualified_name),
            kind,
            file: String::from_str(file),
            line_start: 0,
            line_end: 0,
            column: 0,
            byte_start: 0,
            byte_end: 0,
            visibility: Visibility::Internal,
            signature: None,
            references: Vec::new(),
        };
        assert(node@.references =~= Seq::empty());
        node
    }

    /// The same symbol spanning lines `start` to `end` (1-based).
    pub fn with_lines(self, start: u32, end: u32) -> (node: CodeNode)
        ensures
            node@ == (CodeNodeView { line_start: start, line_end: end, ..self@ }),
    {
        let mut node = self;
        node.line_start = start;
        node.line_end = end;
        node
    }

    /// The same symbol spanning bytes `start` to `end` of its file.
    pub fn with_bytes(self, start: u32, end: u32) -> (node: CodeNode)
        ensures
            node@ == (CodeNodeView { byte_start: start, byte_end: end, ..self@ }),
    {
        let mut node = self;
        node.byte_start = start;
        node.byte_end = end;
        node
    }

    /// The same symbol with its name starting at `column`.
    pub fn with_column(self, column: u32) -> (node: CodeNode)
        ensures
            node@ == (CodeNodeView { column: column, ..self@ }),
    {
        let mut node = self;
        node.column = column;
        node
    }

    /// The same symbol with the given signature.
    pub fn with_signature(self, signature: String) -> (node: CodeNode)
        ensures
            node@ == (CodeNodeView { signature: Some(signature@), ..self@ }),
    {
        let mut node = self;
        node.signature = Some(signature);
        node
    }

    /// The same symbol with the given visibility.
    pub fn with_visibility(self, visibility: Visibility) -> (node: CodeNode)
        ensures
            node@ == (CodeNodeView { visibility: visibility, ..self@ }),
    {
        let mut node = self;
        node.visibility = visibility;
        node
    }

    /// The same symbol with the given unresolved references.
    pub fn with_references(self, references: Vec<String>) -> (node: CodeNode)
        ensures
            node@ == (CodeNodeView { references: strings_view(references@), ..self@ }),
    {
        let mut node = self;
        node.references = references;
        node
    }
}

} // verus!
