//! The syntax side of parsing: what this crate takes on trust about
//! `tree-sitter` and its grammars.
//!
//! Verus does not read `tree-sitter`. The functions below parse a source
//! text and run a query over it, and hand back plain values. What comes back
//! depends on the grammar, the source and the query alone, so it is given a
//! name, and everything built on it is proved from that name.

use vstd::prelude::*;
use vstd::string::*;

verus! {

#[verifier::external_type_specification]
#[verifier::external_body]
pub struct ExLanguage(tree_sitter::Language);

#[verifier::external_type_specification]
#[verifier::external_body]
pub struct ExNode<'a>(tree_sitter::Node<'a>);

/// A source language that has a grammar.
#[derive(Clone, Copy, Debug, PartialEq, Eq, Hash, Structural)]
pub enum LanguageTag {
    TypeScript,
    Rust,
    Python,
    Go,
    Java,
    C,
    Cpp,
    CSharp,
    Dart,
}

/// The language that a grammar is for.
pub uninterp spec fn grammar_of(g: tree_sitter::Language) -> LanguageTag;

/// One capture of a query match, as the query yields it.
#[derive(Debug)]
pub struct RawCapture {
    /// The name the query gives the capture.
    pub name: String,
    /// The source text of the captured node.
    pub text: String,
    /// 0-based.
    pub start_row: usize,
    /// 0-based.
    pub end_row: usize,
    pub start_column: usize,
    pub start_byte: usize,
    pub end_byte: usize,
}

/// What kept a query from running.
#[derive(Clone, Copy, Debug, PartialEq, Eq, Structural)]
pub enum QueryFailure {
    /// The parser did not accept the grammar.
    Grammar,
    /// The parser returned no tree.
    NoTree,
    /// The query did not compile.
    Query,
}

/// A failure with what the parser said of it.
#[derive(Debug)]
pub struct SyntaxFailure {
    pub kind: QueryFailure,
    pub detail: String,
}

/// A failure of kind `kind` with the detail `detail`.
pub fn syntax_failure(kind: QueryFailure, detail: String) -> (out: SyntaxFailure)
    ensures
        out.kind == kind,
        out.detail == detail,
{
    SyntaxFailure { kind, detail }
}

/// The matches of a list of matches, each as a sequence of captures.
pub open spec fn match_seqs(matches: Seq<Vec<RawCapture>>) -> Seq<Seq<RawCapture>> {
    Seq::new(matches.len(), |i: int| matches[i]@)
}

/// The captures of the matches of `query` over `source` parsed as
/// `language`, in the order the query yields them; or why there are none.
pub uninterp spec fn query_captures(language: LanguageTag, source: Seq<char>, query: Seq<char>) -> Result<
    Seq<Seq<RawCapture>>,
    QueryFailure,
>;

/// A node of a syntax tree, with the nodes below it.
#[derive(Debug)]
pub struct SyntaxNode {
    /// The kind of the node, as the grammar names it.
    pub kind: String,
    /// The source text that the node spans.
    pub text: String,
    /// The name of the field that the node fills in its parent, if any.
    pub field: Option<String>,
    /// 0-based.
    pub start_row: usize,
    /// 0-based.
    pub end_row: usize,
    pub start_column: usize,
    pub start_byte: usize,
    pub end_byte: usize,
    pub children: Vec<SyntaxNode>,
}

/// The syntax tree of `source` parsed as `language`, if the parser yields
/// one.
pub uninterp spec fn syntax_tree(language: LanguageTag, source: Seq<char>) -> Option<SyntaxNode>;

/// The accessors of `tree_sitter::Node`: `node` and the nodes below it as
/// plain values, where `field` is the field that `node` fills in its parent.
#[verifier::external_body]
pub(crate) fn syntax_node(node: tree_sitter::Node, source: &str, field: Option<&str>) -> (out: SyntaxNode) {
    SyntaxNode {
        kind: node.kind().to_string(),
        text: source.get(node.byte_range()).unwrap_or("").to_string(),
        field: field.map(|f| f.to_string()),
        start_row: node.start_position().row,
        end_row: node.end_position().row,
        start_column: node.start_position().column,
        start_byte: node.start_byte(),
        end_byte: node.end_byte(),
        children: (0..node.child_count()).filter_map(|i| node.child(i).map(|c| syntax_node(c, source, node.field_name_for_child(i as u32)))).collect(),
    }
}

/// `Parser::parse`: the syntax tree of `source` parsed with `grammar`, as
/// plain values, or `None` if the parser yields no tree.
#[verifier::external_body]
pub(crate) fn parse_tree(grammar: &tree_sitter::Language, source: &str) -> (out: Option<SyntaxNode>)
    ensures
        out == syntax_tree(grammar_of(*grammar), source@),
{
    let mut parser = tree_sitter::Parser::new();
    parser.set_language(grammar).ok()?;
    let tree = parser.parse(source, None)?;
    Some(syntax_node(tree.root_node(), source, None))
}

/// The grammars' `language` functions: the grammar for `language`.
#[verifier::external_body]
pub(crate) fn grammar_for(language: LanguageTag) -> (g: tree_sitter::Language)
    ensures
        grammar_of(g) == language,
{
    match language {
        LanguageTag::TypeScript => tree_sitter_typescript::language_typescript(),
        LanguageTag::Rust => tree_sitter_rust::language(),
        LanguageTag::Python => tree_sitter_python::language(),
        LanguageTag::Go => tree_sitter_go::language(),
        LanguageTag::Java => tree_sitter_java::language(),
        LanguageTag::C => tree_sitter_c::language(),
        LanguageTag::Cpp => tree_sitter_cpp::language(),
        LanguageTag::CSharp => tree_sitter_c_sharp::language(),
        LanguageTag::Dart => tree_sitter_dart::language(),
    }
}

/// The accessors of `tree_sitter::Node`: the capture named `name` of `node`,
/// with the node's text in `source` and its position.
#[verifier::external_body]
pub(crate) fn raw_capture(name: &str, node: tree_sitter::Node, source: &str) -> (out: RawCapture) {
    RawCapture {
        name: name.to_string(),
        text: node.utf8_text(source.as_bytes()).unwrap_or("").to_string(),
        start_row: node.start_position().row,
        end_row: node.end_position().row,
        start_column: node.start_position().column,
        start_byte: node.start_byte(),
        end_byte: node.end_byte(),
    }
}

/// `Parser::parse`, `Query::new` and `QueryCursor::matches`: parses `source`
/// with `grammar`, compiles `query` and runs it over the whole tree. The
/// result is the captures of each match, or the step that failed.
#[verifier::external_body]
pub(crate) fn run_query(grammar: &tree_sitter::Language, source: &str, query: &str) -> (out: Result<
    Vec<Vec<RawCapture>>,
    SyntaxFailure,
>)
    ensures
        query_captures(grammar_of(*grammar), source@, query@) == (match out {
            Ok(matches) => Ok(match_seqs(matches@)),
            Err(failure) => Err(failure.kind),
        }),
{
    let mut parser = tree_sitter::Parser::new();
    parser.set_language(grammar).map_err(|e| syntax_failure(QueryFailure::Grammar, e.to_string()))?;
    let tree = parser.parse(source, None).ok_or_else(|| syntax_failure(QueryFailure::NoTree, String::new()))?;
    let compiled = tree_sitter::Query::new(grammar, query).map_err(|e| syntax_failure(QueryFailure::Query, e.to_string()))?;
    let names = compiled.capture_names();
    let mut cursor = tree_sitter::QueryCursor::new();
    let found = cursor.matches(&compiled, tree.root_node(), source.as_bytes());
    Ok(found.map(|m| m.captures.iter().map(|c| raw_capture(names[c.index as usize], c.node, source)).collect()).collect())
}

} // verus!
