use arbor::captures::{
    call_from_match, capture_role, import_from_match, language_for, symbol_from_match, Capture,
    CaptureRole,
};
use arbor::syntax::LanguageTag;
use arbor::edge::EdgeKind;
use arbor::extract::{
    after_last, callee_name, edge_kind_of, file_symbol_id, find_enclosing_symbol, is_qualified,
    one_based, qualified_in_file, qualify, trim_quotes, CppParser, DartParser, GoParser,
    JavaParser, RelationType,
};
use arbor::node::{CodeNode, NodeKind, Visibility};

fn capture(name: &str, text: &str, start_row: usize, end_row: usize) -> Capture {
    Capture {
        name: name.to_string(),
        text: text.to_string(),
        start_row,
        end_row,
        start_column: 4,
        start_byte: 100,
        end_byte: 180,
        first_line: Some(format!("function {}() {{", text)),
    }
}

#[test]
fn visibility_rules_by_language() {
    assert_eq!(DartParser::detect_visibility("_privateMethod"), Visibility::Private);
    assert_eq!(DartParser::detect_visibility("publicMethod"), Visibility::Public);
    assert_eq!(DartParser::detect_visibility(""), Visibility::Public);
    assert_eq!(GoParser::detect_visibility("PublicFunc"), Visibility::Public);
    assert_eq!(GoParser::detect_visibility("privateFunc"), Visibility::Private);
    assert_eq!(GoParser::detect_visibility("Édition"), Visibility::Public);
    assert_eq!(GoParser::detect_visibility("_x"), Visibility::Private);
    assert_eq!(GoParser::detect_visibility(""), Visibility::Private);
    assert_eq!(JavaParser::detect_visibility(Some("public static")), Visibility::Public);
    assert_eq!(JavaParser::detect_visibility(Some("protected")), Visibility::Protected);
    assert_eq!(JavaParser::detect_visibility(Some("private final")), Visibility::Private);
    assert_eq!(JavaParser::detect_visibility(Some("static")), Visibility::Internal);
    assert_eq!(JavaParser::detect_visibility(None), Visibility::Internal);
    assert_eq!(CppParser::detect_visibility(Some("public:")), Visibility::Public);
    assert_eq!(CppParser::detect_visibility(Some("protected:")), Visibility::Protected);
    assert_eq!(CppParser::detect_visibility(None), Visibility::Private);
    assert_eq!(CppParser::detect_visibility(Some("friend")), Visibility::Private);
}

#[test]
fn extensions_by_language() {
    for ext in ["cpp", "hpp", "cc", "hh", "cxx", "hxx"] {
        assert!(CppParser::handles(ext));
    }
    assert!(!CppParser::handles("c"));
    assert!(GoParser::handles("go"));
    assert!(!GoParser::handles("GO"));
    assert!(JavaParser::handles("java"));
    assert!(DartParser::handles("dart"));
    assert_eq!(language_for("tsx"), Some(LanguageTag::TypeScript));
    assert_eq!(language_for("js"), Some(LanguageTag::TypeScript));
    assert_eq!(language_for("rs"), Some(LanguageTag::Rust));
    assert_eq!(language_for("py"), Some(LanguageTag::Python));
    assert_eq!(language_for("go"), Some(LanguageTag::Go));
    assert_eq!(language_for("java"), Some(LanguageTag::Java));
    assert_eq!(language_for("h"), Some(LanguageTag::C));
    assert_eq!(language_for("hh"), Some(LanguageTag::Cpp));
    assert_eq!(language_for("cs"), Some(LanguageTag::CSharp));
    assert_eq!(language_for("dart"), None);
    assert_eq!(language_for(""), None);
}

#[test]
fn names_and_signatures() {
    assert_eq!(GoParser::method_name("User", "Greet"), "User.Greet");
    assert_eq!(GoParser::method_name("", "Greet"), "Greet");
    assert_eq!(GoParser::signature("Hello", Some("(name string)"), Some("string")), "func Hello(name string) string");
    assert_eq!(GoParser::signature("Hello", None, None), "func Hello()");
    assert_eq!(GoParser::signature("Hello", Some("(a int)"), Some("")), "func Hello(a int)");
    assert_eq!(CppParser::member_name(Some("MyClass"), "hello"), "MyClass::hello");
    assert_eq!(CppParser::member_name(None, "main"), "main");
    assert_eq!(CppParser::signature(Some("int"), "main", Some("(int argc)")), "int main(int argc)");
    assert_eq!(CppParser::signature(None, "f", None), "void f()");
    assert_eq!(CppParser::function_kind(true), NodeKind::Method);
    assert_eq!(CppParser::function_kind(false), NodeKind::Function);
    assert_eq!(JavaParser::signature(Some("String"), "greet", Some("(String name)")), "String greet(String name)");
    assert_eq!(DartParser::signature(None, "hello", None), "void hello()");
    assert_eq!(qualify(Some("Outer.Inner"), ".", "method"), "Outer.Inner.method");
    assert_eq!(qualified_in_file("test.ts", "greet"), "test.ts:greet");
    assert_eq!(file_symbol_id("src/test.ts"), "src/test.ts:__file__");
}

#[test]
fn lines_are_one_based() {
    assert_eq!(one_based(0), 1);
    assert_eq!(one_based(41), 42);
    assert_eq!(one_based(u32::MAX as usize - 1), u32::MAX);
    assert_eq!(one_based(u32::MAX as usize), u32::MAX);
}

#[test]
fn call_names_lose_their_receiver() {
    assert_eq!(callee_name("obj.method"), "method");
    assert_eq!(callee_name("a.b.c"), "c");
    assert_eq!(callee_name("plain"), "plain");
    assert_eq!(callee_name("trailing."), "");
    assert_eq!(callee_name(""), "");
    assert_eq!(after_last("std::vec::Vec", ':'), "Vec");
    assert_eq!(after_last("é.ü", '.'), "ü");
    assert!(is_qualified("pkg.Utils.helper"));
    assert!(is_qualified("Type::method"));
    assert!(!is_qualified("helper"));
    assert!(!is_qualified("a:b"));
}

#[test]
fn quotes_are_trimmed_at_both_ends() {
    assert_eq!(trim_quotes("'react'"), "react");
    assert_eq!(trim_quotes("\"lodash\""), "lodash");
    assert_eq!(trim_quotes("\"'x'\""), "x");
    assert_eq!(trim_quotes("it's"), "it's");
    assert_eq!(trim_quotes("''"), "");
    assert_eq!(trim_quotes(""), "");
    assert_eq!(trim_quotes("plain"), "plain");
}

#[test]
fn relations_map_to_edge_kinds() {
    assert_eq!(edge_kind_of(RelationType::Calls), EdgeKind::Calls);
    assert_eq!(edge_kind_of(RelationType::Imports), EdgeKind::Imports);
    assert_eq!(edge_kind_of(RelationType::Extends), EdgeKind::Extends);
    assert_eq!(edge_kind_of(RelationType::Implements), EdgeKind::Implements);
}

#[test]
fn the_smallest_enclosing_symbol_owns_a_line() {
    let symbols = vec![
        CodeNode::new("outer", "outer", NodeKind::Class, "a.ts").with_lines(1, 50),
        CodeNode::new("inner", "inner", NodeKind::Method, "a.ts").with_lines(10, 20),
        CodeNode::new("twin", "twin", NodeKind::Method, "a.ts").with_lines(12, 22),
        CodeNode::new("other", "other", NodeKind::Function, "a.ts").with_lines(60, 70),
    ];
    assert_eq!(find_enclosing_symbol(15, &symbols), Some(1));
    assert_eq!(find_enclosing_symbol(21, &symbols), Some(2));
    assert_eq!(find_enclosing_symbol(5, &symbols), Some(0));
    assert_eq!(find_enclosing_symbol(60, &symbols), Some(3));
    assert_eq!(find_enclosing_symbol(55, &symbols), None);
    assert_eq!(find_enclosing_symbol(1, &Vec::new()), None);
}

#[test]
fn capture_names_have_roles() {
    assert_eq!(capture_role("name"), CaptureRole::Name);
    assert_eq!(capture_role("method.name"), CaptureRole::Name);
    assert_eq!(capture_role("function_def"), CaptureRole::Definition(NodeKind::Function));
    assert_eq!(capture_role("class"), CaptureRole::Definition(NodeKind::Class));
    assert_eq!(capture_role("interface_def"), CaptureRole::Definition(NodeKind::Interface));
    assert_eq!(capture_role("method_def"), CaptureRole::Definition(NodeKind::Method));
    assert_eq!(capture_role("struct_def"), CaptureRole::Definition(NodeKind::Struct));
    assert_eq!(capture_role("enum_def"), CaptureRole::Definition(NodeKind::Enum));
    assert_eq!(capture_role("trait_def"), CaptureRole::Definition(NodeKind::Interface));
    assert_eq!(capture_role("callee"), CaptureRole::Other);
}

#[test]
fn a_symbol_match_becomes_a_symbol() {
    let captures = vec![capture("name", "greet", 3, 3), capture("function_def", "function greet() {}", 3, 5)];
    let symbol = symbol_from_match(&captures, "src/test.ts", "test.ts").unwrap();
    assert_eq!(symbol.name, "greet");
    assert_eq!(symbol.qualified_name, "test.ts:greet");
    assert_eq!(symbol.id, "src/test.ts:test.ts:greet");
    assert_eq!(symbol.kind, NodeKind::Function);
    assert_eq!(symbol.file, "src/test.ts");
    assert_eq!((symbol.line_start, symbol.line_end), (4, 6));
    assert_eq!(symbol.column, 4);
    assert_eq!((symbol.byte_start, symbol.byte_end), (100, 180));
    assert_eq!(symbol.signature.as_deref(), Some("function function greet() {}() {"));
    assert!(symbol_from_match(&vec![capture("name", "greet", 3, 3)], "a", "a").is_none());
    assert!(symbol_from_match(&vec![capture("class_def", "x", 3, 3)], "a", "a").is_none());
    assert!(symbol_from_match(&Vec::new(), "a", "a").is_none());
}

#[test]
fn import_and_call_matches_become_relations() {
    let import = import_from_match(&vec![capture("source", "'react'", 1, 1)], "test.ts").unwrap();
    assert_eq!(import.from_id, "test.ts:__file__");
    assert_eq!(import.to_name, "react");
    assert_eq!(import.kind, RelationType::Imports);
    assert_eq!(import.line, 2);
    assert!(import_from_match(&vec![capture("name", "x", 1, 1)], "test.ts").is_none());

    let symbols = vec![
        CodeNode::new("outer", "outer", NodeKind::Function, "test.ts").with_lines(1, 20),
        CodeNode::new("inner", "inner", NodeKind::Function, "test.ts").with_lines(5, 8),
    ];
    let call = call_from_match(&vec![capture("callee", "console.log", 5, 5)], "test.ts", &symbols).unwrap();
    assert_eq!(call.from_id, "test.ts:inner");
    assert_eq!(call.to_name, "log");
    assert_eq!(call.kind, RelationType::Calls);
    assert_eq!(call.line, 6);
    let call = call_from_match(&vec![capture("callee", "process", 30, 30)], "test.ts", &symbols).unwrap();
    assert_eq!(call.from_id, "test.ts:__file__");
    assert_eq!(call.to_name, "process");
    assert!(call_from_match(&Vec::new(), "test.ts", &symbols).is_none());
}
