//! From the captures of a syntax query to symbols and relations.
//!
//! A query over a syntax tree yields matches, and each match a list of
//! captures: named pieces of the source. This module decides what a match
//! means. It reads captures as plain values, so it does not depend on the
//! parser that produced them.

use vstd::prelude::*;
use vstd::string::*;
use crate::extract::{
    RelationType, SymbolRelation, SymbolRelationView, callee_name, enclosing_in, file_id_text,
    file_symbol_id, find_enclosing_symbol, one_based, qualified_in_file, tail_after, trim_quotes,
    without_quotes,
};
use crate::node::{CodeNode, CodeNodeView, NodeKind, Visibility, node_views, symbol_id};
use crate::syntax::LanguageTag;
use crate::text::str_eq;

verus! {

/// One capture of a query match.
#[derive(Debug)]
pub struct Capture {
    /// The name the query gives the capture.
    pub name: String,
    /// The source text of the captured node.
    pub text: String,
    /// 0-based.
    pub start_row: usize,
    /// 0-based.
    pub end_row: usize,
    pub start_column: usize,
    pub start_byte: usize,
    pub end_byte: usize,
    /// The source line on which the node starts, trimmed, if the source has
    /// that line.
    pub first_line: Option<String>,
}

/// The mathematical value of a capture.
pub struct CaptureView {
    pub name: Seq<char>,
    pub text: Seq<char>,
    pub start_row: usize,
    pub end_row: usize,
    pub start_column: usize,
    pub start_byte: usize,
    pub end_byte: usize,
    pub first_line: Option<Seq<char>>,
}

impl View for Capture {
    type V = CaptureView;

    open spec fn view(&self) -> CaptureView {
        CaptureView {
            name: self.name@,
            text: self.text@,
            start_row: self.start_row,
            end_row: self.end_row,
            start_column: self.start_column,
            start_byte: self.start_byte,
            end_byte: self.end_byte,
            first_line: match self.first_line {
                Some(line) => Some(line@),
                None => None,
            },
        }
    }
}

/// The values of a list of captures.
pub open spec fn capture_views(list: Seq<Capture>) -> Seq<CaptureView> {
    Seq::new(list.len(), |i: int| list[i]@)
}

/// What a capture contributes to a symbol.
#[derive(Clone, Copy, Debug, PartialEq, Eq, Structural)]
pub enum CaptureRole {
    /// The capture holds the symbol's name.
    Name,
    /// The capture spans the symbol's definition, which is of this kind.
    Definition(NodeKind),
    /// The capture contributes nothing.
    Other,
}

/// The role of a capture by its name.
pub open spec fn role_of(name: Seq<char>) -> CaptureRole {
    if name == "name"@ || name == "function.name"@ || name == "class.name"@ || name == "interface.name"@
        || name == "method.name"@ {
        CaptureRole::Name
    } else if name == "function"@ || name == "function_def"@ {
        CaptureRole::Definition(NodeKind::Function)
    } else if name == "class"@ || name == "class_def"@ {
        CaptureRole::Definition(NodeKind::Class)
    } else if name == "interface"@ || name == "interface_def"@ {
        CaptureRole::Definition(NodeKind::Interface)
    } else if name == "method"@ || name == "method_def"@ {
        CaptureRole::Definition(NodeKind::Method)
    } else if name == "struct"@ || name == "struct_def"@ {
        CaptureRole::Definition(NodeKind::Struct)
    } else if name == "enum"@ || name == "enum_def"@ {
        CaptureRole::Definition(NodeKind::Enum)
    } else if name == "trait"@ || name == "trait_def"@ {
        CaptureRole::Definition(NodeKind::Interface)
    } else {
        CaptureRole::Other
    }
}

/// The role of a capture by its name.
pub fn capture_role(name: &str) -> (out: CaptureRole)
    ensures
        out == role_of(name@),
{
    if str_eq(name, "name") || str_eq(name, "function.name") || str_eq(name, "class.name") || str_eq(
        name,
        "interface.name",
    ) || str_eq(name, "method.name") {
        CaptureRole::Name
    } else if str_eq(name, "function") || str_eq(name, "function_def") {
        CaptureRole::Definition(NodeKind::Function)
    } else if str_eq(name, "class") || str_eq(name, "class_def") {
        CaptureRole::Definition(NodeKind::Class)
    } else if str_eq(name, "interface") || str_eq(name, "interface_def") {
        CaptureRole::Definition(NodeKind::Interface)
    } else if str_eq(name, "method") || str_eq(name, "method_def") {
        CaptureRole::Definition(NodeKind::Method)
    } else if str_eq(name, "struct") || str_eq(name, "struct_def") {
        CaptureRole::Definition(NodeKind::Struct)
    } else if str_eq(name, "enum") || str_eq(name, "enum_def") {
        CaptureRole::Definition(NodeKind::Enum)
    } else if str_eq(name, "trait") || str_eq(name, "trait_def") {
        CaptureRole::Definition(NodeKind::Interface)
    } else {
        CaptureRole::Other
    }
}

/// Which captures a search over a match looks for.
#[derive(Clone, Copy, Debug, PartialEq, Eq, Structural)]
pub enum Wanted {
    /// The capture that names a symbol.
    SymbolName,
    /// The capture that spans a symbol's definition.
    SymbolDefinition,
    /// The capture that names what an import brings in.
    ImportSource,
    /// The capture that names what a call calls.
    Callee,
}

/// Whether a capture named `name` is one that `wanted` looks for.
pub open spec fn is_wanted(wanted: Wanted, name: Seq<char>) -> bool {
    match wanted {
        Wanted::SymbolName => role_of(name) == CaptureRole::Name,
        Wanted::SymbolDefinition => role_of(name) != CaptureRole::Name && role_of(name) != CaptureRole::Other,
        Wanted::ImportSource => name == "source"@ || name == "module"@ || name == "import.source"@,
        Wanted::Callee => name == "callee"@ || name == "function"@ || name == "call.function"@,
    }
}

/// Whether a capture named `name` is one that `wanted` looks for.
pub fn wants(wanted: Wanted, name: &str) -> (out: bool)
    ensures
        out == is_wanted(wanted, name@),
{
    match wanted {
        Wanted::SymbolName => match capture_role(name) {
            CaptureRole::Name => true,
            _ => false,
        },
        Wanted::SymbolDefinition => match capture_role(name) {
            CaptureRole::Definition(_) => true,
            _ => false,
        },
        Wanted::ImportSource => str_eq(name, "source") || str_eq(name, "module") || str_eq(
            name,
            "import.source",
        ),
        Wanted::Callee => str_eq(name, "callee") || str_eq(name, "function") || str_eq(
            name,
            "call.function",
        ),
    }
}

/// The place of the last of the captures `captures` that `wanted` looks
/// for, if there is one.
pub open spec fn last_wanted_in(captures: Seq<CaptureView>, wanted: Wanted) -> Option<int>
    decreases captures.len(),
{
    if captures.len() == 0 {
        None
    } else if is_wanted(wanted, captures.last().name) {
        Some(captures.len() - 1)
    } else {
        last_wanted_in(captures.drop_last(), wanted)
    }
}

/// The last wanted capture is a capture, and it is wanted.
pub proof fn lemma_last_wanted(captures: Seq<CaptureView>, wanted: Wanted)
    ensures
        last_wanted_in(captures, wanted).is_some() ==> 0 <= last_wanted_in(captures, wanted).unwrap()
            < captures.len() && is_wanted(
            wanted,
            captures[last_wanted_in(captures, wanted).unwrap()].name,
        ),
    decreases captures.len(),
{
    if captures.len() > 0 && !is_wanted(wanted, captures.last().name) {
        lemma_last_wanted(captures.drop_last(), wanted);
    }
}

/// The place of the last capture that `wanted` looks for.
pub fn last_wanted(captures: &Vec<Capture>, wanted: Wanted) -> (out: Option<usize>)
    ensures
        last_wanted_in(capture_views(captures@), wanted) == (match out {
            Some(i) => Some(i as int),
            None => None,
        }),
        out.is_some() ==> out.unwrap() < captures@.len(),
{
    let ghost views = capture_views(captures@);
    let mut i: usize = captures.len();
    proof {
        assert(views.subrange(0, i as int) =~= views);
    }
    while i > 0
        invariant
            i <= captures.len(),
            views == capture_views(captures@),
            last_wanted_in(views, wanted) == last_wanted_in(views.subrange(0, i as int), wanted),
        decreases i,
    {
        let ghost upto = views.subrange(0, i as int);
        proof {
            assert(upto.last() == captures@[i - 1]@);
            assert(upto.drop_last() =~= views.subrange(0, i - 1));
        }
        if wants(wanted, captures[i - 1].name.as_str()) {
            return Some(i - 1);
        }
        i = i - 1;
    }
    None
}

/// The low 32 bits of a position.
pub open spec fn low32(x: usize) -> u32 {
    (x as int % 0x1_0000_0000) as u32
}

/// The low 32 bits of a position.
pub fn position32(x: usize) -> (out: u32)
    ensures
        out == low32(x),
{
    ((x as u64) % 0x1_0000_0000u64) as u32
}

/// The line of a row: the row plus one, or the largest line for a row
/// beyond it.
pub open spec fn line_of(row: usize) -> u32 {
    if row < u32::MAX {
        (row + 1) as u32
    } else {
        u32::MAX
    }
}

/// The symbol that the name capture `name` and the definition capture `def`
/// define in the file `file_path`, whose last path segment is `file_name`.
pub open spec fn defined_by(
    name: CaptureView,
    def: CaptureView,
    file_path: Seq<char>,
    file_name: Seq<char>,
) -> CodeNodeView {
    CodeNodeView {
        id: symbol_id(file_path, symbol_id(file_name, name.text)),
        name: name.text,
        qualified_name: symbol_id(file_name, name.text),
        kind: match role_of(def.name) {
            CaptureRole::Definition(kind) => kind,
            _ => NodeKind::Function,
        },
        file: file_path,
        line_start: line_of(def.start_row),
        line_end: line_of(def.end_row),
        column: low32(def.start_column),
        byte_start: low32(def.start_byte),
        byte_end: low32(def.end_byte),
        visibility: Visibility::Internal,
        signature: def.first_line,
        references: Seq::empty(),
    }
}

/// The symbol that a match of a symbol query defines: named by the last
/// capture that holds a name, of the kind and with the span of the last
/// capture that spans a definition, with the first line of the definition as
/// its signature. A match that lacks either capture defines nothing.
pub open spec fn symbol_of(captures: Seq<CaptureView>, file_path: Seq<char>, file_name: Seq<char>) -> Option<
    CodeNodeView,
> {
    match (last_wanted_in(captures, Wanted::SymbolName), last_wanted_in(captures, Wanted::SymbolDefinition)) {
        (Some(n), Some(d)) => Some(defined_by(captures[n], captures[d], file_path, file_name)),
        _ => None,
    }
}

/// The symbol that a match of a symbol query defines.
pub fn symbol_from_match(captures: &Vec<Capture>, file_path: &str, file_name: &str) -> (out: Option<CodeNode>)
    ensures
        symbol_of(capture_views(captures@), file_path@, file_name@) == (match out {
            Some(symbol) => Some(symbol@),
            None => None,
        }),
{
    let n = match last_wanted(captures, Wanted::SymbolName) {
        Some(n) => n,
        None => {
            return None;
        },
    };
    let d = match last_wanted(captures, Wanted::SymbolDefinition) {
        Some(d) => d,
        None => {
            return None;
        },
    };
    let name = &captures[n];
    let def = &captures[d];
    let kind = match capture_role(def.name.as_str()) {
        CaptureRole::Definition(kind) => kind,
        _ => NodeKind::Function,
    };
    let qualified = qualified_in_file(file_name, name.text.as_str());
    let symbol = CodeNode::new(name.text.as_str(), qualified.as_str(), kind, file_path).with_lines(
        one_based(def.start_row),
        one_based(def.end_row),
    ).with_column(position32(def.start_column)).with_bytes(
        position32(def.start_byte),
        position32(def.end_byte),
    );
    let symbol = match &def.first_line {
        Some(line) => symbol.with_signature(line.clone()),
        None => symbol,
    };
    proof {
        assert(symbol@.references =~= Seq::empty());
        assert(capture_views(captures@)[n as int] == captures@[n as int]@);
        assert(capture_views(captures@)[d as int] == captures@[d as int]@);
        assert(symbol@ == defined_by(captures@[n as int]@, captures@[d as int]@, file_path@, file_name@));
    }
    Some(symbol)
}

/// The relation that a match of an import query yields: the file imports
/// what the last capture of the import's source names, without its quotes.
pub open spec fn import_of(captures: Seq<CaptureView>, file_path: Seq<char>) -> Option<SymbolRelationView> {
    match last_wanted_in(captures, Wanted::ImportSource) {
        Some(i) => Some(
            SymbolRelationView {
                from_id: file_id_text(file_path),
                to_name: without_quotes(captures[i].text),
                kind: RelationType::Imports,
                line: line_of(captures[i].start_row),
            },
        ),
        None => None,
    }
}

/// The relation that a match of an import query yields.
pub fn import_from_match(captures: &Vec<Capture>, file_path: &str) -> (out: Option<SymbolRelation>)
    ensures
        import_of(capture_views(captures@), file_path@) == (match out {
            Some(relation) => Some(relation@),
            None => None,
        }),
{
    match last_wanted(captures, Wanted::ImportSource) {
        Some(i) => {
            let source = &captures[i];
            proof {
                assert(capture_views(captures@)[i as int] == captures@[i as int]@);
            }
            Some(
                SymbolRelation {
                    from_id: file_symbol_id(file_path),
                    to_name: trim_quotes(source.text.as_str()),
                    kind: RelationType::Imports,
                    line: one_based(source.start_row),
                },
            )
        },
        None => None,
    }
}

/// The id of the symbol to which a call on `line` belongs: the symbol of
/// `symbols` that encloses the line most closely, or the file itself when
/// none does.
pub open spec fn caller_of(line: u32, symbols: Seq<CodeNodeView>, file_path: Seq<char>) -> Seq<char> {
    match enclosing_in(symbols, line, symbols.len() as int) {
        Some(i) => symbols[i].id,
        None => file_id_text(file_path),
    }
}

/// The id of the symbol to which a call on `line` belongs.
pub fn caller_id(line: u32, symbols: &Vec<CodeNode>, file_path: &str) -> (out: String)
    ensures
        out@ == caller_of(line, node_views(symbols@), file_path@),
{
    match find_enclosing_symbol(line, symbols) {
        Some(i) => {
            proof {
                assert(node_views(symbols@)[i as int] == symbols@[i as int]@);
            }
            symbols[i].id.clone()
        },
        None => file_symbol_id(file_path),
    }
}

/// The relation that a match of a call query yields: the symbol that
/// encloses the call, or the file, calls what the last capture of the callee
/// names, without the receiver.
pub open spec fn call_of(captures: Seq<CaptureView>, file_path: Seq<char>, symbols: Seq<CodeNodeView>) -> Option<
    SymbolRelationView,
> {
    match last_wanted_in(captures, Wanted::Callee) {
        Some(i) => Some(
            SymbolRelationView {
                from_id: caller_of(line_of(captures[i].start_row), symbols, file_path),
                to_name: tail_after(captures[i].text, '.'),
                kind: RelationType::Calls,
                line: line_of(captures[i].start_row),
            },
        ),
        None => None,
    }
}

/// The relation that a match of a call query yields.
pub fn call_from_match(captures: &Vec<Capture>, file_path: &str, symbols: &Vec<CodeNode>) -> (out: Option<
    SymbolRelation,
>)
    ensures
        call_of(capture_views(captures@), file_path@, node_views(symbols@)) == (match out {
            Some(relation) => Some(relation@),
            None => None,
        }),
{
    match last_wanted(captures, Wanted::Callee) {
        Some(i) => {
            let callee = &captures[i];
            let line = one_based(callee.start_row);
            proof {
                assert(capture_views(captures@)[i as int] == captures@[i as int]@);
            }
            Some(
                SymbolRelation {
                    from_id: caller_id(line, symbols, file_path),
                    to_name: callee_name(callee.text.as_str()),
                    kind: RelationType::Calls,
                    line,
                },
            )
        },
        None => None,
    }
}

/// The language of the files with the extension `ext`.
pub open spec fn language_of(ext: Seq<char>) -> Option<LanguageTag> {
    if ext == "ts"@ || ext == "tsx"@ || ext == "js"@ || ext == "jsx"@ {
        Some(LanguageTag::TypeScript)
    } else if ext == "rs"@ {
        Some(LanguageTag::Rust)
    } else if ext == "py"@ {
        Some(LanguageTag::Python)
    } else if ext == "go"@ {
        Some(LanguageTag::Go)
    } else if ext == "java"@ {
        Some(LanguageTag::Java)
    } else if ext == "c"@ || ext == "h"@ {
        Some(LanguageTag::C)
    } else if ext == "cpp"@ || ext == "hpp"@ || ext == "cc"@ || ext == "hh"@ || ext == "cxx"@ {
        Some(LanguageTag::Cpp)
    } else if ext == "cs"@ {
        Some(LanguageTag::CSharp)
    } else {
        None
    }
}

/// The language of the files with the extension `ext`.
pub fn language_for(ext: &str) -> (out: Option<LanguageTag>)
    ensures
        out == language_of(ext@),
{
    if str_eq(ext, "ts") || str_eq(ext, "tsx") || str_eq(ext, "js") || str_eq(ext, "jsx") {
        Some(LanguageTag::TypeScript)
    } else if str_eq(ext, "rs") {
        Some(LanguageTag::Rust)
    } else if str_eq(ext, "py") {
        Some(LanguageTag::Python)
    } else if str_eq(ext, "go") {
        Some(LanguageTag::Go)
    } else if str_eq(ext, "java") {
        Some(LanguageTag::Java)
    } else if str_eq(ext, "c") || str_eq(ext, "h") {
        Some(LanguageTag::C)
    } else if str_eq(ext, "cpp") || str_eq(ext, "hpp") || str_eq(ext, "cc") || str_eq(ext, "hh") || str_eq(
        ext,
        "cxx",
    ) {
        Some(LanguageTag::Cpp)
    } else if str_eq(ext, "cs") {
        Some(LanguageTag::CSharp)
    } else {
        None
    }
}

} // verus!
