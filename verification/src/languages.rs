//! Choosing the extractor for a file by its extension. Most languages are
//! parsed by queries; Dart has no queries and is parsed by walking its
//! syntax tree, which yields symbols with their references and no
//! relations.

use vstd::prelude::*;
use vstd::string::*;
use crate::captures::{language_for, language_of};
use crate::dart::dart_symbols;
use crate::extract::{DartParser, ParseResult, SymbolRelation, SymbolRelationView};
use crate::parser::{
    ArborParser, ParseError, ParseFailure, ParseResultView, counted, file_name_of, names_file, outcome, parse_of,
    relation_views,
};
use crate::syntax::{LanguageTag, syntax_tree};

verus! {

/// Whether files with the extension `ext` are in a language that can be
/// parsed.
pub open spec fn is_source(ext: Seq<char>) -> bool {
    language_of(ext).is_some() || ext == "dart"@
}

/// Whether files with the extension `ext` are in a language that can be
/// parsed.
pub fn parses(ext: &str) -> (out: bool)
    ensures
        out == is_source(ext@),
{
    language_for(ext).is_some() || DartParser::handles(ext)
}

/// What extracting from `source`, the text of the file at `file_path` with
/// the name `file_name` and the extension `ext`, yields. An empty source is
/// an error. A Dart file yields the symbols of its syntax tree and no
/// relations, or an error if the parser yields no tree. Any other file
/// yields what its language's queries find.
pub open spec fn extraction(
    source: Seq<char>,
    file_path: Seq<char>,
    file_name: Seq<char>,
    ext: Seq<char>,
) -> Result<ParseResultView, ParseFailure> {
    if walks_tree(source, ext) {
        match syntax_tree(LanguageTag::Dart, source) {
            Some(tree) => Ok(
                ParseResultView {
                    symbols: dart_symbols(tree, file_path, None),
                    relations: Seq::<SymbolRelationView>::empty(),
                    file_path,
                },
            ),
            None => Err(ParseFailure::Parser),
        }
    } else {
        parse_of(source, file_path, file_name, ext)
    }
}

/// Whether a source with the extension `ext` is parsed by walking its
/// syntax tree, without the queries of `ArborParser`.
pub open spec fn walks_tree(source: Seq<char>, ext: Seq<char>) -> bool {
    source.len() > 0 && ext == "dart"@
}

/// `out` is what extracting yields when `name` is taken for the name of the
/// file at `file_path`, and `name` may be that name.
pub open spec fn extracted_as(
    source: Seq<char>,
    file_path: Seq<char>,
    name: Seq<char>,
    ext: Seq<char>,
    out: Result<ParseResultView, ParseFailure>,
) -> bool {
    names_file(file_path, name) && extraction(source, file_path, name, ext) == out
}

/// Extracts the symbols and relations of `source`, the text of the file at
/// `file_path` with the extension `ext`. Symbols that queries find are
/// qualified by the name of the file, which is the final component of
/// `file_path` as the platform reads it. The parser counts the call if its
/// queries are used.
pub fn extract(parser: &mut ArborParser, source: &str, file_path: &str, ext: &str) -> (out: Result<
    ParseResult,
    ParseError,
>)
    ensures
        exists|name: Seq<char>| #[trigger] extracted_as(source@, file_path@, name, ext@, outcome(out)),
        out matches Err(ParseError::EmptyFile(path)) ==> path@ == file_path@,
        out matches Err(ParseError::UnsupportedLanguage(path)) ==> path@ == file_path@,
        final(parser).parsed == (if walks_tree(source@, ext@) {
            old(parser).parsed
        } else {
            counted(old(parser).parsed)
        }),
{
    let file_name = file_name_of(file_path);
    let out = extract_named(parser, source, file_path, file_name.as_str(), ext);
    proof {
        assert(extracted_as(source@, file_path@, file_name@, ext@, outcome(out)));
    }
    out
}

/// Extracts the symbols and relations of `source`, the text of the file at
/// `file_path` with the name `file_name` and the extension `ext`. The
/// parser counts the call if its queries are used.
pub fn extract_named(parser: &mut ArborParser, source: &str, file_path: &str, file_name: &str, ext: &str) -> (out:
    Result<ParseResult, ParseError>)
    ensures
        extraction(source@, file_path@, file_name@, ext@) == outcome(out),
        out matches Err(ParseError::EmptyFile(path)) ==> path@ == file_path@,
        out matches Err(ParseError::UnsupportedLanguage(path)) ==> path@ == file_path@,
        final(parser).parsed == (if walks_tree(source@, ext@) {
            old(parser).parsed
        } else {
            counted(old(parser).parsed)
        }),
{
    if source.unicode_len() > 0 && DartParser::handles(ext) {
        match DartParser::parse(source, file_path) {
            Some(symbols) => {
                let relations: Vec<SymbolRelation> = Vec::new();
                proof {
                    assert(relation_views(relations@) =~= Seq::<SymbolRelationView>::empty());
                }
                Ok(ParseResult { symbols, relations, file_path: String::from_str(file_path) })
            },
            None => Err(ParseError::ParserError(String::from_str("Tree-sitter returned no tree"))),
        }
    } else {
        parser.parse_named(source, file_path, file_name, ext)
    }
}

} // verus!
