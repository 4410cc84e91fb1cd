//! Parsing a source text into symbols and relations with syntax queries.
//!
//! Each language has three queries: one for the symbols a file defines, one
//! for what it imports, and one for the calls it makes. The matches of each
//! query become symbols and relations by the rules of the `captures` module.

use vstd::prelude::*;
use vstd::string::*;
use crate::captures::{
    Capture, CaptureView, call_from_match, call_of, capture_views, import_from_match, import_of,
    language_for, language_of, symbol_from_match, symbol_of,
};
use crate::extract::{ParseResult, SymbolRelation, SymbolRelationView};
use crate::node::{CodeNode, CodeNodeView, node_views, strings_view};
use crate::syntax::{
    LanguageTag, QueryFailure, RawCapture, SyntaxFailure, grammar_for, grammar_of, match_seqs,
    query_captures, run_query,
};
use crate::text::{is_substring, lines_of, path_file_name, split_lines, str_eq, str_trim, trimmed};

verus! {

/// The query for the symbols of a TypeScript file.
pub const TYPESCRIPT_SYMBOLS: &'static str = "
            (function_declaration name: (identifier) @name) @function_def
            (class_declaration name: (type_identifier) @name) @class_def
            (method_definition name: (property_identifier) @name) @method_def
            (interface_declaration name: (type_identifier) @name) @interface_def
            (type_alias_declaration name: (type_identifier) @name) @interface_def
        ";

/// The query for the imports of a TypeScript file.
pub const TYPESCRIPT_IMPORTS: &'static str = "
            (import_statement
                source: (string) @source)
        ";

/// The query for the calls of a TypeScript file.
pub const TYPESCRIPT_CALLS: &'static str = "
            (call_expression
                function: (identifier) @callee)

            (call_expression
                function: (member_expression
                    property: (property_identifier) @callee))
        ";

/// The query for the symbols of a Rust file.
pub const RUST_SYMBOLS: &'static str = "
            (function_item name: (identifier) @name) @function_def
            (struct_item name: (type_identifier) @name) @struct_def
            (enum_item name: (type_identifier) @name) @enum_def
            (trait_item name: (type_identifier) @name) @trait_def
        ";

/// The query for the imports of a Rust file.
pub const RUST_IMPORTS: &'static str = "
            (use_declaration) @source
        ";

/// The query for the calls of a Rust file.
pub const RUST_CALLS: &'static str = "
            (call_expression function: (identifier) @callee)
            (call_expression function: (field_expression field: (field_identifier) @callee))
        ";

/// The query for the symbols of a Python file.
pub const PYTHON_SYMBOLS: &'static str = "
            (function_definition name: (identifier) @name) @function_def
            (class_definition name: (identifier) @name) @class_def
        ";

/// The query for the imports of a Python file.
pub const PYTHON_IMPORTS: &'static str = "
            (import_statement) @source
            (import_from_statement) @source
        ";

/// The query for the calls of a Python file.
pub const PYTHON_CALLS: &'static str = "
            (call function: (identifier) @callee)
            (call function: (attribute attribute: (identifier) @callee))
        ";

/// The query for the symbols of a Go file.
pub const GO_SYMBOLS: &'static str = "
            (function_declaration name: (identifier) @name) @function_def
            (method_declaration name: (field_identifier) @name) @method_def
            (type_declaration (type_spec name: (type_identifier) @name type: (struct_type))) @struct_def
            (type_declaration (type_spec name: (type_identifier) @name type: (interface_type))) @interface_def
        ";

/// The query for the imports of a Go file.
pub const GO_IMPORTS: &'static str = "
            (import_spec path: (interpreted_string_literal) @source)
        ";

/// The query for the calls of a Go file.
pub const GO_CALLS: &'static str = "
            (call_expression function: (identifier) @callee)
            (call_expression function: (selector_expression field: (field_identifier) @callee))
        ";

/// The query for the symbols of a Java file.
pub const JAVA_SYMBOLS: &'static str = "
            (method_declaration name: (identifier) @name) @method_def
            (class_declaration name: (identifier) @name) @class_def
            (interface_declaration name: (identifier) @name) @interface_def
            (constructor_declaration name: (identifier) @name) @function_def
        ";

/// The query for the imports of a Java file.
pub const JAVA_IMPORTS: &'static str = "
            (import_declaration) @source
        ";

/// The query for the calls of a Java file.
pub const JAVA_CALLS: &'static str = "
            (method_invocation name: (identifier) @callee)
        ";

/// The query for the symbols of a C file.
pub const C_SYMBOLS: &'static str = "
            (function_definition declarator: (function_declarator declarator: (identifier) @name)) @function_def
            (struct_specifier name: (type_identifier) @name) @struct_def
            (enum_specifier name: (type_identifier) @name) @enum_def
        ";

/// The query for the imports of a C file.
pub const C_IMPORTS: &'static str = "
            (preproc_include path: (string_literal) @source)
            (preproc_include path: (system_lib_string) @source)
        ";

/// The query for the calls of a C file.
pub const C_CALLS: &'static str = "
            (call_expression function: (identifier) @callee)
        ";

/// The query for the symbols of a Cpp file.
pub const CPP_SYMBOLS: &'static str = "
            (function_definition declarator: (function_declarator declarator: (identifier) @name)) @function_def
            (function_definition declarator: (function_declarator declarator: (qualified_identifier name: (identifier) @name))) @method_def
            (class_specifier name: (type_identifier) @name) @class_def
            (struct_specifier name: (type_identifier) @name) @struct_def
        ";

/// The query for the imports of a Cpp file.
pub const CPP_IMPORTS: &'static str = "
            (preproc_include path: (string_literal) @source)
            (preproc_include path: (system_lib_string) @source)
        ";

/// The query for the calls of a Cpp file.
pub const CPP_CALLS: &'static str = "
            (call_expression function: (identifier) @callee)
            (call_expression function: (field_expression field: (field_identifier) @callee))
        ";

/// The query for the symbols of a CSharp file.
pub const CSHARP_SYMBOLS: &'static str = "
            (method_declaration name: (identifier) @name) @method_def
            (class_declaration name: (identifier) @name) @class_def
            (interface_declaration name: (identifier) @name) @interface_def
            (struct_declaration name: (identifier) @name) @struct_def
            (constructor_declaration name: (identifier) @name) @function_def
            (property_declaration name: (identifier) @name) @method_def
        ";

/// The query for the imports of a CSharp file.
pub const CSHARP_IMPORTS: &'static str = "
            (using_directive (identifier) @source)
            (using_directive (qualified_name) @source)
        ";

/// The query for the calls of a CSharp file.
pub const CSHARP_CALLS: &'static str = "
            (invocation_expression function: (identifier) @callee)
            (invocation_expression function: (member_access_expression name: (identifier) @callee))
        ";

/// The query for the symbols of a file in `language`; Dart has none.
pub open spec fn symbols_query_text(language: LanguageTag) -> Seq<char> {
    match language {
        LanguageTag::TypeScript => TYPESCRIPT_SYMBOLS@,
        LanguageTag::Rust => RUST_SYMBOLS@,
        LanguageTag::Python => PYTHON_SYMBOLS@,
        LanguageTag::Go => GO_SYMBOLS@,
        LanguageTag::Java => JAVA_SYMBOLS@,
        LanguageTag::C => C_SYMBOLS@,
        LanguageTag::Cpp => CPP_SYMBOLS@,
        LanguageTag::CSharp => CSHARP_SYMBOLS@,
        LanguageTag::Dart => Seq::empty(),
    }
}

/// The query for the symbols of a file in `language`; Dart has none.
pub fn symbols_query(language: LanguageTag) -> (out: &'static str)
    ensures
        out@ == symbols_query_text(language),
{
    match language {
        LanguageTag::TypeScript => TYPESCRIPT_SYMBOLS,
        LanguageTag::Rust => RUST_SYMBOLS,
        LanguageTag::Python => PYTHON_SYMBOLS,
        LanguageTag::Go => GO_SYMBOLS,
        LanguageTag::Java => JAVA_SYMBOLS,
        LanguageTag::C => C_SYMBOLS,
        LanguageTag::Cpp => CPP_SYMBOLS,
        LanguageTag::CSharp => CSHARP_SYMBOLS,
        LanguageTag::Dart => {
            proof {
                reveal_strlit("");
            }
            ""
        },
    }
}

/// The query for the imports of a file in `language`; Dart has none.
pub open spec fn imports_query_text(language: LanguageTag) -> Seq<char> {
    match language {
        LanguageTag::TypeScript => TYPESCRIPT_IMPORTS@,
        LanguageTag::Rust => RUST_IMPORTS@,
        LanguageTag::Python => PYTHON_IMPORTS@,
        LanguageTag::Go => GO_IMPORTS@,
        LanguageTag::Java => JAVA_IMPORTS@,
        LanguageTag::C => C_IMPORTS@,
        LanguageTag::Cpp => CPP_IMPORTS@,
        LanguageTag::CSharp => CSHARP_IMPORTS@,
        LanguageTag::Dart => Seq::empty(),
    }
}

/// The query for the imports of a file in `language`; Dart has none.
pub fn imports_query(language: LanguageTag) -> (out: &'static str)
    ensures
        out@ == imports_query_text(language),
{
    match language {
        LanguageTag::TypeScript => TYPESCRIPT_IMPORTS,
        LanguageTag::Rust => RUST_IMPORTS,
        LanguageTag::Python => PYTHON_IMPORTS,
        LanguageTag::Go => GO_IMPORTS,
        LanguageTag::Java => JAVA_IMPORTS,
        LanguageTag::C => C_IMPORTS,
        LanguageTag::Cpp => CPP_IMPORTS,
        LanguageTag::CSharp => CSHARP_IMPORTS,
        LanguageTag::Dart => {
            proof {
                reveal_strlit("");
            }
            ""
        },
    }
}

/// The query for the calls of a file in `language`; Dart has none.
pub open spec fn calls_query_text(language: LanguageTag) -> Seq<char> {
    match language {
        LanguageTag::TypeScript => TYPESCRIPT_CALLS@,
        LanguageTag::Rust => RUST_CALLS@,
        LanguageTag::Python => PYTHON_CALLS@,
        LanguageTag::Go => GO_CALLS@,
        LanguageTag::Java => JAVA_CALLS@,
        LanguageTag::C => C_CALLS@,
        LanguageTag::Cpp => CPP_CALLS@,
        LanguageTag::CSharp => CSHARP_CALLS@,
        LanguageTag::Dart => Seq::empty(),
    }
}

/// The query for the calls of a file in `language`; Dart has none.
pub fn calls_query(language: LanguageTag) -> (out: &'static str)
    ensures
        out@ == calls_query_text(language),
{
    match language {
        LanguageTag::TypeScript => TYPESCRIPT_CALLS,
        LanguageTag::Rust => RUST_CALLS,
        LanguageTag::Python => PYTHON_CALLS,
        LanguageTag::Go => GO_CALLS,
        LanguageTag::Java => JAVA_CALLS,
        LanguageTag::C => C_CALLS,
        LanguageTag::Cpp => CPP_CALLS,
        LanguageTag::CSharp => CSHARP_CALLS,
        LanguageTag::Dart => {
            proof {
                reveal_strlit("");
            }
            ""
        },
    }
}


/// Why a source could not be parsed.
#[derive(Clone, Copy, Debug, PartialEq, Eq, Structural)]
pub enum ParseFailure {
    /// The source is empty.
    EmptyFile,
    /// No grammar is known for the language.
    UnsupportedLanguage,
    /// The parser refused the grammar or returned no tree.
    Parser,
    /// A query did not compile.
    Query,
}

/// An error of parsing, with what it concerns.
#[derive(Debug)]
pub enum ParseError {
    /// The file at this path is empty.
    EmptyFile(String),
    /// No grammar is known for the file at this path.
    UnsupportedLanguage(String),
    /// The parser failed, with this message.
    ParserError(String),
    /// A query did not compile, with this message.
    QueryError(String),
}

impl ParseError {
    /// The failure that the error reports.
    pub open spec fn kind(&self) -> ParseFailure {
        match self {
            ParseError::EmptyFile(_) => ParseFailure::EmptyFile,
            ParseError::UnsupportedLanguage(_) => ParseFailure::UnsupportedLanguage,
            ParseError::ParserError(_) => ParseFailure::Parser,
            ParseError::QueryError(_) => ParseFailure::Query,
        }
    }

    /// The failure that the error reports.
    pub fn failure(&self) -> (out: ParseFailure)
        ensures
            out == self.kind(),
    {
        match self {
            ParseError::EmptyFile(_) => ParseFailure::EmptyFile,
            ParseError::UnsupportedLanguage(_) => ParseFailure::UnsupportedLanguage,
            ParseError::ParserError(_) => ParseFailure::Parser,
            ParseError::QueryError(_) => ParseFailure::Query,
        }
    }

    /// What the error says.
    pub fn message(&self) -> (out: String)
        ensures
            out@ == (match self {
                ParseError::EmptyFile(path) => "File is empty: "@ + path@,
                ParseError::UnsupportedLanguage(path) => "Unsupported language: "@ + path@,
                ParseError::ParserError(detail) => "Parser error: "@ + detail@,
                ParseError::QueryError(detail) => "Query error: "@ + detail@,
            }),
    {
        let (head, tail) = match self {
            ParseError::EmptyFile(path) => ("File is empty: ", path),
            ParseError::UnsupportedLanguage(path) => ("Unsupported language: ", path),
            ParseError::ParserError(detail) => ("Parser error: ", detail),
            ParseError::QueryError(detail) => ("Query error: ", detail),
        };
        let mut out = String::from_str(head);
        out.append(tail.as_str());
        out
    }
}

/// The failure of parsing that a failure of a query amounts to.
pub open spec fn parse_failure_of(failure: QueryFailure) -> ParseFailure {
    match failure {
        QueryFailure::Grammar => ParseFailure::Parser,
        QueryFailure::NoTree => ParseFailure::Parser,
        QueryFailure::Query => ParseFailure::Query,
    }
}

/// The error of parsing that a failure of a query amounts to.
pub fn parse_error_of(failure: SyntaxFailure) -> (out: ParseError)
    ensures
        out.kind() == parse_failure_of(failure.kind),
        match failure.kind {
            QueryFailure::Grammar => out matches ParseError::ParserError(m) && m@ == "Failed to set language: "@
                + failure.detail@,
            QueryFailure::NoTree => out matches ParseError::ParserError(m) && m@ == "Tree-sitter returned no tree"@,
            QueryFailure::Query => out matches ParseError::QueryError(m) && m@ == failure.detail@,
        },
{
    match failure.kind {
        QueryFailure::Grammar => {
            let mut message = String::from_str("Failed to set language: ");
            message.append(failure.detail.as_str());
            ParseError::ParserError(message)
        },
        QueryFailure::NoTree => ParseError::ParserError(String::from_str("Tree-sitter returned no tree")),
        QueryFailure::Query => ParseError::QueryError(failure.detail),
    }
}

/// The mathematical value of what parsing one file yields.
pub struct ParseResultView {
    pub symbols: Seq<CodeNodeView>,
    pub relations: Seq<SymbolRelationView>,
    pub file_path: Seq<char>,
}

/// The values of a list of relations.
pub open spec fn relation_views(list: Seq<SymbolRelation>) -> Seq<SymbolRelationView> {
    Seq::new(list.len(), |i: int| list[i]@)
}

impl View for ParseResult {
    type V = ParseResultView;

    open spec fn view(&self) -> ParseResultView {
        ParseResultView {
            symbols: node_views(self.symbols@),
            relations: relation_views(self.relations@),
            file_path: self.file_path@,
        }
    }
}

/// The capture that the raw capture `raw` becomes: its first line is the
/// line of `lines` on which it starts, trimmed, if there is such a line.
pub open spec fn with_line(raw: RawCapture, lines: Seq<Seq<char>>) -> CaptureView {
    CaptureView {
        name: raw.name@,
        text: raw.text@,
        start_row: raw.start_row,
        end_row: raw.end_row,
        start_column: raw.start_column,
        start_byte: raw.start_byte,
        end_byte: raw.end_byte,
        first_line: if raw.start_row < lines.len() {
            Some(trimmed(lines[raw.start_row as int]))
        } else {
            None
        },
    }
}

/// The captures that the raw captures `raw` become.
pub open spec fn with_lines(raw: Seq<RawCapture>, lines: Seq<Seq<char>>) -> Seq<CaptureView> {
    Seq::new(raw.len(), |i: int| with_line(raw[i], lines))
}

/// The captures that the raw captures of one match become.
pub fn captures_of(raw: Vec<RawCapture>, lines: &Vec<String>) -> (out: Vec<Capture>)
    ensures
        capture_views(out@) == with_lines(raw@, strings_view(lines@)),
{
    let mut held = raw;
    let mut back: Vec<Capture> = Vec::new();
    while held.len() > 0
        invariant
            held@.len() <= raw@.len(),
            held@ == raw@.subrange(0, held@.len() as int),
            back@.len() + held@.len() == raw@.len(),
            forall|k: int|
                0 <= k < back@.len() ==> (#[trigger] back@[k])@ == with_line(
                    raw@[raw@.len() - 1 - k],
                    strings_view(lines@),
                ),
        decreases held.len(),
    {
        let r = held.pop().unwrap();
        let first_line = if r.start_row < lines.len() {
            Some(str_trim(lines[r.start_row].as_str()))
        } else {
            None
        };
        back.push(
            Capture {
                name: r.name,
                text: r.text,
                start_row: r.start_row,
                end_row: r.end_row,
                start_column: r.start_column,
                start_byte: r.start_byte,
                end_byte: r.end_byte,
                first_line,
            },
        );
    }
    let mut out: Vec<Capture> = Vec::new();
    while back.len() > 0
        invariant
            out@.len() + back@.len() == raw@.len(),
            forall|k: int|
                0 <= k < back@.len() ==> (#[trigger] back@[k])@ == with_line(
                    raw@[raw@.len() - 1 - k],
                    strings_view(lines@),
                ),
            forall|k: int| 0 <= k < out@.len() ==> (#[trigger] out@[k])@ == with_line(raw@[k], strings_view(lines@)),
        decreases back.len(),
    {
        let c = back.pop().unwrap();
        out.push(c);
    }
    assert(capture_views(out@) =~= with_lines(raw@, strings_view(lines@)));
    out
}

/// The symbols that the matches `matches` of a symbol query define, in
/// order.
pub open spec fn symbols_from(
    matches: Seq<Seq<RawCapture>>,
    lines: Seq<Seq<char>>,
    file_path: Seq<char>,
    file_name: Seq<char>,
) -> Seq<CodeNodeView>
    decreases matches.len(),
{
    if matches.len() == 0 {
        Seq::empty()
    } else {
        let before = symbols_from(matches.drop_last(), lines, file_path, file_name);
        match symbol_of(with_lines(matches.last(), lines), file_path, file_name) {
            Some(symbol) => before.push(symbol),
            None => before,
        }
    }
}

/// The relations that the matches `matches` of an import query yield, in
/// order.
pub open spec fn imports_from(matches: Seq<Seq<RawCapture>>, lines: Seq<Seq<char>>, file_path: Seq<char>) -> Seq<
    SymbolRelationView,
>
    decreases matches.len(),
{
    if matches.len() == 0 {
        Seq::empty()
    } else {
        let before = imports_from(matches.drop_last(), lines, file_path);
        match import_of(with_lines(matches.last(), lines), file_path) {
            Some(relation) => before.push(relation),
            None => before,
        }
    }
}

/// The relations that the matches `matches` of a call query yield, in
/// order, for a file that defines `symbols`.
pub open spec fn calls_from(
    matches: Seq<Seq<RawCapture>>,
    lines: Seq<Seq<char>>,
    file_path: Seq<char>,
    symbols: Seq<CodeNodeView>,
) -> Seq<SymbolRelationView>
    decreases matches.len(),
{
    if matches.len() == 0 {
        Seq::empty()
    } else {
        let before = calls_from(matches.drop_last(), lines, file_path, symbols);
        match call_of(with_lines(matches.last(), lines), file_path, symbols) {
            Some(relation) => before.push(relation),
            None => before,
        }
    }
}

/// The name under which the symbols of a file are qualified: the final
/// component of its path, or `unknown` for a path that has none.
pub open spec fn file_name_text(found: Option<Seq<char>>) -> Seq<char> {
    match found {
        Some(name) => name,
        None => "unknown"@,
    }
}

/// The name under which the symbols of a file are qualified, given the
/// final component of its path, if it has one.
pub fn name_or_unknown(found: Option<String>) -> (out: String)
    ensures
        out@ == file_name_text(
            match found {
                Some(name) => Some(name@),
                None => None,
            },
        ),
{
    match found {
        Some(name) => name,
        None => String::from_str("unknown"),
    }
}

/// `name` may be the name of the file at `path`: it is a part of the path,
/// or it is `unknown`.
pub open spec fn names_file(path: Seq<char>, name: Seq<char>) -> bool {
    name == "unknown"@ || is_substring(path, name)
}

/// The name of the file at `path`: the final component of the path as the
/// platform reads it, or `unknown` for a path that has none.
pub fn file_name_of(path: &str) -> (out: String)
    ensures
        names_file(path@, out@),
{
    name_or_unknown(path_file_name(path))
}

/// What the matches of the three queries over one file amount to: the
/// symbols of the symbol matches, then the relations of the import matches
/// and of the call matches.
pub open spec fn assembled(
    symbol_matches: Seq<Seq<RawCapture>>,
    import_matches: Seq<Seq<RawCapture>>,
    call_matches: Seq<Seq<RawCapture>>,
    lines: Seq<Seq<char>>,
    file_path: Seq<char>,
    file_name: Seq<char>,
) -> ParseResultView {
    let symbols = symbols_from(symbol_matches, lines, file_path, file_name);
    ParseResultView {
        symbols: symbols,
        relations: imports_from(import_matches, lines, file_path) + calls_from(
            call_matches,
            lines,
            file_path,
            symbols,
        ),
        file_path: file_path,
    }
}

/// The matches of a list of matches in reverse order.
fn reversed_matches(list: Vec<Vec<RawCapture>>) -> (out: Vec<Vec<RawCapture>>)
    ensures
        out@.len() == list@.len(),
        forall|k: int| 0 <= k < out@.len() ==> #[trigger] out@[k] == list@[list@.len() - 1 - k],
{
    let mut rest = list;
    let mut out: Vec<Vec<RawCapture>> = Vec::new();
    while rest.len() > 0
        invariant
            rest@.len() <= list@.len(),
            rest@ == list@.subrange(0, rest@.len() as int),
            out@.len() + rest@.len() == list@.len(),
            forall|k: int| 0 <= k < out@.len() ==> #[trigger] out@[k] == list@[list@.len() - 1 - k],
        decreases rest.len(),
    {
        let x = rest.pop().unwrap();
        out.push(x);
    }
    out
}

/// The symbols that the matches of a symbol query define.
pub fn symbols_in(matches: Vec<Vec<RawCapture>>, lines: &Vec<String>, file_path: &str, file_name: &str) -> (out:
    Vec<CodeNode>)
    ensures
        node_views(out@) == symbols_from(match_seqs(matches@), strings_view(lines@), file_path@, file_name@),
{
    let ghost all = match_seqs(matches@);
    let ghost ls = strings_view(lines@);
    let total = matches.len();
    let mut held = reversed_matches(matches);
    let mut out: Vec<CodeNode> = Vec::new();
    let mut i: usize = 0;
    proof {
        assert(all.subrange(0, 0) =~= Seq::<Seq<RawCapture>>::empty());
        assert(node_views(out@) =~= Seq::<CodeNodeView>::empty());
    }
    while held.len() > 0
        invariant
            all == match_seqs(matches@),
            ls == strings_view(lines@),
            total == matches@.len(),
            i + held@.len() == matches@.len(),
            forall|k: int| 0 <= k < held@.len() ==> #[trigger] held@[k] == matches@[matches@.len() - 1 - k],
            node_views(out@) == symbols_from(all.subrange(0, i as int), ls, file_path@, file_name@),
        decreases held.len(),
    {
        assert(i < matches@.len());
        let raw = held.pop().unwrap();
        let captures = captures_of(raw, lines);
        let ghost before = node_views(out@);
        let found = symbol_from_match(&captures, file_path, file_name);
        proof {
            let upto = all.subrange(0, i + 1);
            assert(upto.drop_last() =~= all.subrange(0, i as int));
            assert(upto.last() == matches@[i as int]@);
        }
        match found {
            Some(symbol) => {
                out.push(symbol);
                proof {
                    assert(node_views(out@) =~= before.push(symbol@));
                }
            },
            None => {},
        }
        i = i + 1;
    }
    proof {
        assert(all.subrange(0, all.len() as int) =~= all);
    }
    out
}

/// The relations that the matches of an import query yield.
pub fn imports_in(matches: Vec<Vec<RawCapture>>, lines: &Vec<String>, file_path: &str) -> (out: Vec<
    SymbolRelation,
>)
    ensures
        relation_views(out@) == imports_from(match_seqs(matches@), strings_view(lines@), file_path@),
{
    let ghost all = match_seqs(matches@);
    let ghost ls = strings_view(lines@);
    let total = matches.len();
    let mut held = reversed_matches(matches);
    let mut out: Vec<SymbolRelation> = Vec::new();
    let mut i: usize = 0;
    proof {
        assert(all.subrange(0, 0) =~= Seq::<Seq<RawCapture>>::empty());
        assert(relation_views(out@) =~= Seq::<SymbolRelationView>::empty());
    }
    while held.len() > 0
        invariant
            all == match_seqs(matches@),
            ls == strings_view(lines@),
            total == matches@.len(),
            i + held@.len() == matches@.len(),
            forall|k: int| 0 <= k < held@.len() ==> #[trigger] held@[k] == matches@[matches@.len() - 1 - k],
            relation_views(out@) == imports_from(all.subrange(0, i as int), ls, file_path@),
        decreases held.len(),
    {
        assert(i < matches@.len());
        let raw = held.pop().unwrap();
        let captures = captures_of(raw, lines);
        let ghost before = relation_views(out@);
        let found = import_from_match(&captures, file_path);
        proof {
            let upto = all.subrange(0, i + 1);
            assert(upto.drop_last() =~= all.subrange(0, i as int));
            assert(upto.last() == matches@[i as int]@);
        }
        match found {
            Some(relation) => {
                out.push(relation);
                proof {
                    assert(relation_views(out@) =~= before.push(relation@));
                }
            },
            None => {},
        }
        i = i + 1;
    }
    proof {
        assert(all.subrange(0, all.len() as int) =~= all);
    }
    out
}

/// The relations that the matches of a call query yield, for a file that
/// defines `symbols`.
pub fn calls_in(matches: Vec<Vec<RawCapture>>, lines: &Vec<String>, file_path: &str, symbols: &Vec<CodeNode>) -> (out:
    Vec<SymbolRelation>)
    ensures
        relation_views(out@) == calls_from(
            match_seqs(matches@),
            strings_view(lines@),
            file_path@,
            node_views(symbols@),
        ),
{
    let ghost all = match_seqs(matches@);
    let ghost ls = strings_view(lines@);
    let total = matches.len();
    let mut held = reversed_matches(matches);
    let mut out: Vec<SymbolRelation> = Vec::new();
    let mut i: usize = 0;
    proof {
        assert(all.subrange(0, 0) =~= Seq::<Seq<RawCapture>>::empty());
        assert(relation_views(out@) =~= Seq::<SymbolRelationView>::empty());
    }
    while held.len() > 0
        invariant
            all == match_seqs(matches@),
            ls == strings_view(lines@),
            total == matches@.len(),
            i + held@.len() == matches@.len(),
            forall|k: int| 0 <= k < held@.len() ==> #[trigger] held@[k] == matches@[matches@.len() - 1 - k],
            relation_views(out@) == calls_from(all.subrange(0, i as int), ls, file_path@, node_views(symbols@)),
        decreases held.len(),
    {
        assert(i < matches@.len());
        let raw = held.pop().unwrap();
        let captures = captures_of(raw, lines);
        let ghost before = relation_views(out@);
        let found = call_from_match(&captures, file_path, symbols);
        proof {
            let upto = all.subrange(0, i + 1);
            assert(upto.drop_last() =~= all.subrange(0, i as int));
            assert(upto.last() == matches@[i as int]@);
        }
        match found {
            Some(relation) => {
                out.push(relation);
                proof {
                    assert(relation_views(out@) =~= before.push(relation@));
                }
            },
            None => {},
        }
        i = i + 1;
    }
    proof {
        assert(all.subrange(0, all.len() as int) =~= all);
    }
    out
}

/// Puts the matches of the three queries over the file at `file_path`
/// together; its symbols are qualified by `file_name`.
pub fn assemble(
    symbol_matches: Vec<Vec<RawCapture>>,
    import_matches: Vec<Vec<RawCapture>>,
    call_matches: Vec<Vec<RawCapture>>,
    lines: &Vec<String>,
    file_path: &str,
    file_name: &str,
) -> (out: ParseResult)
    ensures
        out@ == assembled(
            match_seqs(symbol_matches@),
            match_seqs(import_matches@),
            match_seqs(call_matches@),
            strings_view(lines@),
            file_path@,
            file_name@,
        ),
{
    let symbols = symbols_in(symbol_matches, lines, file_path, file_name);
    let mut relations = imports_in(import_matches, lines, file_path);
    let ghost imports = relation_views(relations@);
    let mut calls = calls_in(call_matches, lines, file_path, &symbols);
    let ghost called = relation_views(calls@);
    relations.append(&mut calls);
    proof {
        assert(relation_views(relations@) =~= imports + called);
    }
    ParseResult { symbols, relations, file_path: String::from_str(file_path) }
}

/// What parsing `source`, the text of the file at `file_path` with the
/// name `file_name`, as the language with the extension `language` yields:
/// an empty source and an unknown language are errors; otherwise the three
/// queries of the language are run in turn, the first failure is the error,
/// and their matches are put together.
pub open spec fn parse_of(
    source: Seq<char>,
    file_path: Seq<char>,
    file_name: Seq<char>,
    language: Seq<char>,
) -> Result<ParseResultView, ParseFailure> {
    if source.len() == 0 {
        Err(ParseFailure::EmptyFile)
    } else {
        match language_of(language) {
            None => Err(ParseFailure::UnsupportedLanguage),
            Some(tag) => match query_captures(tag, source, symbols_query_text(tag)) {
                Err(f) => Err(parse_failure_of(f)),
                Ok(symbol_matches) => match query_captures(tag, source, imports_query_text(tag)) {
                    Err(f) => Err(parse_failure_of(f)),
                    Ok(import_matches) => match query_captures(tag, source, calls_query_text(tag)) {
                        Err(f) => Err(parse_failure_of(f)),
                        Ok(call_matches) => Ok(
                            assembled(
                                symbol_matches,
                                import_matches,
                                call_matches,
                                lines_of(source),
                                file_path,
                                file_name,
                            ),
                        ),
                    },
                },
            },
        }
    }
}

/// The languages that are parsed by queries, in the order in which a new
/// parser tries their queries.
pub open spec fn queried_languages() -> Seq<LanguageTag> {
    seq![
        LanguageTag::TypeScript,
        LanguageTag::Rust,
        LanguageTag::Python,
        LanguageTag::Go,
        LanguageTag::Java,
        LanguageTag::C,
        LanguageTag::Cpp,
        LanguageTag::CSharp,
    ]
}

/// Whether the three queries of `language` compile, which shows when they
/// are run over an empty text.
pub open spec fn queries_run(language: LanguageTag) -> bool {
    &&& query_captures(language, ""@, symbols_query_text(language)).is_ok()
    &&& query_captures(language, ""@, imports_query_text(language)).is_ok()
    &&& query_captures(language, ""@, calls_query_text(language)).is_ok()
}

/// Whether the queries of every language compile.
pub open spec fn all_queries_run() -> bool {
    forall|i: int| 0 <= i < queried_languages().len() ==> queries_run(#[trigger] queried_languages()[i])
}

/// The outcome of parsing as a mathematical value: the value of the result,
/// or the kind of the error.
pub open spec fn outcome(out: Result<ParseResult, ParseError>) -> Result<ParseResultView, ParseFailure> {
    match out {
        Ok(result) => Ok(result@),
        Err(error) => Err(error.kind()),
    }
}

/// `out` is what parsing yields when `name` is taken for the name of the
/// file at `file_path`, and `name` may be that name.
pub open spec fn parsed_as(
    source: Seq<char>,
    file_path: Seq<char>,
    name: Seq<char>,
    language: Seq<char>,
    out: Result<ParseResultView, ParseFailure>,
) -> bool {
    names_file(file_path, name) && parse_of(source, file_path, name, language) == out
}

/// A count of calls after one more call; it stops at the largest number.
pub open spec fn counted(n: u64) -> u64 {
    if n < u64::MAX {
        (n + 1) as u64
    } else {
        n
    }
}

/// A parser of source files.
#[derive(Debug)]
pub struct ArborParser {
    /// How many sources the parser has parsed.
    pub parsed: u64,
}

impl ArborParser {
    /// A parser, if the queries of every language compile; otherwise the
    /// error of the first query that does not, in the order of the
    /// languages.
    pub fn new() -> (out: Result<ArborParser, ParseError>)
        ensures
            out.is_ok() <==> all_queries_run(),
            out.is_ok() ==> out.unwrap().parsed == 0,
            out.is_err() ==> out.unwrap_err().kind() != ParseFailure::EmptyFile && out.unwrap_err().kind()
                != ParseFailure::UnsupportedLanguage,
    {
        let mut tags: Vec<LanguageTag> = Vec::new();
        tags.push(LanguageTag::TypeScript);
        tags.push(LanguageTag::Rust);
        tags.push(LanguageTag::Python);
        tags.push(LanguageTag::Go);
        tags.push(LanguageTag::Java);
        tags.push(LanguageTag::C);
        tags.push(LanguageTag::Cpp);
        tags.push(LanguageTag::CSharp);
        assert(tags@ =~= queried_languages());
        let mut i: usize = 0;
        while i < tags.len()
            invariant
                i <= tags.len(),
                tags@ == queried_languages(),
                forall|j: int| 0 <= j < i ==> queries_run(#[trigger] tags@[j]),
            decreases tags.len() - i,
        {
            let grammar = grammar_for(tags[i]);
            match run_query(&grammar, "", symbols_query(tags[i])) {
                Err(failure) => {
                    assert(!queries_run(queried_languages()[i as int]));
                    return Err(parse_error_of(failure));
                },
                Ok(_) => {},
            }
            match run_query(&grammar, "", imports_query(tags[i])) {
                Err(failure) => {
                    assert(!queries_run(queried_languages()[i as int]));
                    return Err(parse_error_of(failure));
                },
                Ok(_) => {},
            }
            match run_query(&grammar, "", calls_query(tags[i])) {
                Err(failure) => {
                    assert(!queries_run(queried_languages()[i as int]));
                    return Err(parse_error_of(failure));
                },
                Ok(_) => {},
            }
            i = i + 1;
        }
        Ok(ArborParser { parsed: 0 })
    }

    /// Parses `source`, the text of the file at `file_path`, as the language
    /// with the extension `language`. The symbols are qualified by the name
    /// of the file, which is the final component of `file_path` as the
    /// platform reads it. The parser counts the call.
    pub fn parse_source(&mut self, source: &str, file_path: &str, language: &str) -> (out: Result<
        ParseResult,
        ParseError,
    >)
        ensures
            exists|name: Seq<char>| #[trigger]
                parsed_as(source@, file_path@, name, language@, outcome(out)),
            out matches Err(ParseError::EmptyFile(path)) ==> path@ == file_path@,
            out matches Err(ParseError::UnsupportedLanguage(path)) ==> path@ == file_path@,
            final(self).parsed == counted(old(self).parsed),
    {
        let file_name = file_name_of(file_path);
        let out = self.parse_named(source, file_path, file_name.as_str(), language);
        proof {
            assert(parsed_as(source@, file_path@, file_name@, language@, outcome(out)));
        }
        out
    }

    /// Parses `source`, the text of the file at `file_path` with the name
    /// `file_name`, as the language with the extension `language`. The
    /// parser counts the call.
    pub fn parse_named(&mut self, source: &str, file_path: &str, file_name: &str, language: &str) -> (out:
        Result<ParseResult, ParseError>)
        ensures
            parse_of(source@, file_path@, file_name@, language@) == outcome(out),
            out matches Err(ParseError::EmptyFile(path)) ==> path@ == file_path@,
            out matches Err(ParseError::UnsupportedLanguage(path)) ==> path@ == file_path@,
            final(self).parsed == counted(old(self).parsed),
    {
        if self.parsed < u64::MAX {
            self.parsed = self.parsed + 1;
        }
        if source.unicode_len() == 0 {
            return Err(ParseError::EmptyFile(String::from_str(file_path)));
        }
        let tag = match language_for(language) {
            Some(tag) => tag,
            None => {
                return Err(ParseError::UnsupportedLanguage(String::from_str(file_path)));
            },
        };
        let grammar = grammar_for(tag);
        let symbol_matches = match run_query(&grammar, source, symbols_query(tag)) {
            Ok(m) => m,
            Err(failure) => {
                return Err(parse_error_of(failure));
            },
        };
        let import_matches = match run_query(&grammar, source, imports_query(tag)) {
            Ok(m) => m,
            Err(failure) => {
                return Err(parse_error_of(failure));
            },
        };
        let call_matches = match run_query(&grammar, source, calls_query(tag)) {
            Ok(m) => m,
            Err(failure) => {
                return Err(parse_error_of(failure));
            },
        };
        let lines = split_lines(source);
        Ok(assemble(symbol_matches, import_matches, call_matches, &lines, file_path, file_name))
    }
}

} // verus!
