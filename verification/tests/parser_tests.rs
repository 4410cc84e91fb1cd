use arbor::extract::RelationType;
use arbor::node::NodeKind;
use arbor::parser::{file_name_of, name_or_unknown, ArborParser, ParseError, ParseFailure};

#[test]
fn test_parser_initialization() {
    match ArborParser::new() {
        Ok(_) => println!("Parser initialized successfully!"),
        Err(e) => panic!("Parser failed to initialize: {}", e.message()),
    }
}

#[test]
fn test_parse_typescript_symbols() {
    let mut parser = ArborParser::new().unwrap();

    let source = r#"
            function greet(name: string): string {
                return `Hello, ${name}!`;
            }

            export class UserService {
                validate(user: User): boolean {
                    return true;
                }
            }

            interface User {
                name: string;
                email: string;
            }
        "#;

    let result = parser.parse_source(source, "test.ts", "ts").unwrap();

    assert!(result.symbols.iter().any(|s| s.name == "greet"));
    assert!(result.symbols.iter().any(|s| s.name == "UserService"));
    assert!(result.symbols.iter().any(|s| s.name == "validate"));
    assert!(result.symbols.iter().any(|s| s.name == "User"));
}

#[test]
fn test_parse_typescript_imports() {
    let mut parser = ArborParser::new().unwrap();

    let source = r#"
            import { useState } from 'react';
            import lodash from 'lodash';

            function Component() {
                const [count, setCount] = useState(0);
            }
        "#;

    let result = parser.parse_source(source, "test.ts", "ts").unwrap();

    let imports: Vec<_> = result.relations.iter().filter(|r| r.kind == RelationType::Imports).collect();

    assert!(imports.iter().any(|i| i.to_name.contains("react")));
    assert!(imports.iter().any(|i| i.to_name.contains("lodash")));
}

#[test]
fn test_parse_typescript_calls() {
    let mut parser = ArborParser::new().unwrap();

    let source = r#"
            function outer() {
                inner();
                helper.process();
            }

            function inner() {
                console.log("Hello");
            }
        "#;

    let result = parser.parse_source(source, "test.ts", "ts").unwrap();

    let calls: Vec<_> = result.relations.iter().filter(|r| r.kind == RelationType::Calls).collect();

    assert!(calls.iter().any(|c| c.to_name == "inner"));
    assert!(calls.iter().any(|c| c.to_name == "process"));
    assert!(calls.iter().any(|c| c.to_name == "log"));
}

#[test]
fn test_parse_rust_symbols() {
    let mut parser = ArborParser::new().unwrap();

    let source = r#"
            fn main() {
                println!("Hello!");
            }

            pub struct User {
                name: String,
            }

            impl User {
                fn new(name: &str) -> Self {
                    Self { name: name.to_string() }
                }
            }

            enum Status {
                Active,
                Inactive,
            }
        "#;

    let result = parser.parse_source(source, "test.rs", "rs").unwrap();

    assert!(result.symbols.iter().any(|s| s.name == "main"));
    assert!(result.symbols.iter().any(|s| s.name == "User"));
    assert!(result.symbols.iter().any(|s| s.name == "new"));
    assert!(result.symbols.iter().any(|s| s.name == "Status"));
}

#[test]
fn test_parse_python_symbols() {
    let mut parser = ArborParser::new().unwrap();

    let source = r#"
def greet(name):
    return f"Hello, {name}!"

class UserService:
    def validate(self, user):
        return True
        "#;

    let result = parser.parse_source(source, "test.py", "py").unwrap();

    assert!(result.symbols.iter().any(|s| s.name == "greet"));
    assert!(result.symbols.iter().any(|s| s.name == "UserService"));
    assert!(result.symbols.iter().any(|s| s.name == "validate"));
}

#[test]
fn parsed_symbols_carry_lines_ids_and_signatures() {
    let mut parser = ArborParser::new().unwrap();
    let source = "function outer() {\n    inner();\n}\n\n  function inner() {\n    console.log('x');\n}\n";
    let result = parser.parse_source(source, "src/app/test.ts", "ts").unwrap();
    assert_eq!(result.file_path, "src/app/test.ts");
    let got: Vec<(&str, &str, &str, NodeKind, u32, u32, u32)> = result
        .symbols
        .iter()
        .map(|s| (s.name.as_str(), s.qualified_name.as_str(), s.id.as_str(), s.kind, s.line_start, s.line_end, s.column))
        .collect();
    assert_eq!(
        got,
        vec![
            ("outer", "test.ts:outer", "src/app/test.ts:test.ts:outer", NodeKind::Function, 1, 3, 0),
            ("inner", "test.ts:inner", "src/app/test.ts:test.ts:inner", NodeKind::Function, 5, 7, 2),
        ]
    );
    assert_eq!(result.symbols[0].signature.as_deref(), Some("function outer() {"));
    assert_eq!(result.symbols[1].signature.as_deref(), Some("function inner() {"));
    assert_eq!(result.symbols[1].byte_start, 37);
    let calls: Vec<(&str, &str, u32)> = result
        .relations
        .iter()
        .map(|r| (r.from_id.as_str(), r.to_name.as_str(), r.line))
        .collect();
    assert_eq!(
        calls,
        vec![
            ("src/app/test.ts:test.ts:outer", "inner", 2),
            ("src/app/test.ts:test.ts:inner", "log", 6),
        ]
    );
}

#[test]
fn empty_sources_and_unknown_languages_are_errors() {
    let mut parser = ArborParser::new().unwrap();
    match parser.parse_source("", "a.ts", "ts") {
        Err(ParseError::EmptyFile(path)) => assert_eq!(path, "a.ts"),
        _ => panic!("an empty source is an error"),
    }
    match parser.parse_source("x", "a.dart", "dart") {
        Err(e) => {
            assert_eq!(e.failure(), ParseFailure::UnsupportedLanguage);
            assert_eq!(e.message(), "Unsupported language: a.dart");
        }
        _ => panic!("a language without queries is an error"),
    }
    assert!(parser.parse_source("int main() { return f(); }", "a.c", "c").is_ok());
    assert!(parser.parse_source("package main\nfunc F() { g() }\n", "a.go", "go").is_ok());
    assert!(parser.parse_source("class A { void f() { g(); } }", "A.java", "java").is_ok());
    assert!(parser.parse_source("class A { void F() { G(); } }", "A.cs", "cs").is_ok());
    assert!(parser.parse_source("struct P { int x; };", "p.hpp", "hpp").is_ok());
    assert!(parser.parse_source("def f(:\n  pass", "broken.py", "py").is_ok());
    assert_eq!(parser.parsed, 8);
}

#[test]
fn symbols_are_qualified_by_the_final_component_of_the_path() {
    assert_eq!(file_name_of("src/app/test.ts"), "test.ts");
    assert_eq!(file_name_of("test.ts"), "test.ts");
    assert_eq!(file_name_of("src/app/"), "app");
    assert_eq!(file_name_of("src/app/."), "app");
    assert_eq!(file_name_of("src/app/.."), "unknown");
    assert_eq!(file_name_of("/"), "unknown");
    assert_eq!(file_name_of(""), "unknown");
    assert_eq!(name_or_unknown(Some("lib.rs".to_string())), "lib.rs");
    assert_eq!(name_or_unknown(Some(String::new())), "");
    assert_eq!(name_or_unknown(None), "unknown");

    let mut parser = ArborParser::new().unwrap();
    let result = parser.parse_source("fn f() {}\n", "pkg/lib.rs/", "rs").unwrap();
    assert_eq!(result.symbols[0].qualified_name, "lib.rs:f");
    let result = parser.parse_source("fn f() {}\n", "pkg/..", "rs").unwrap();
    assert_eq!(result.symbols[0].qualified_name, "unknown:f");
    assert_eq!(result.file_path, "pkg/..");
}

#[test]
fn a_source_parsed_under_a_given_name_is_qualified_by_it() {
    let mut parser = ArborParser::new().unwrap();
    let source = "fn helper() {}\n\nfn main() {\n    helper();\n}\n";
    let named = parser.parse_named(source, "src/main.rs", "crate_root", "rs").unwrap();
    let names: Vec<(&str, &str)> =
        named.symbols.iter().map(|s| (s.name.as_str(), s.qualified_name.as_str())).collect();
    assert_eq!(names, vec![("helper", "crate_root:helper"), ("main", "crate_root:main")]);
    assert_eq!(named.file_path, "src/main.rs");

    let plain = parser.parse_source(source, "src/main.rs", "rs").unwrap();
    let same = parser.parse_named(source, "src/main.rs", "main.rs", "rs").unwrap();
    assert_eq!(plain.relations, same.relations);
    let ids = |r: &arbor::extract::ParseResult| r.symbols.iter().map(|s| s.id.clone()).collect::<Vec<_>>();
    assert_eq!(ids(&plain), ids(&same));
    match parser.parse_named("", "a.rs", "a.rs", "rs") {
        Err(ParseError::EmptyFile(path)) => assert_eq!(path, "a.rs"),
        _ => panic!("an empty source is an error"),
    }
    assert_eq!(parser.parse_named("x", "a.md", "a.md", "md").unwrap_err().failure(), ParseFailure::UnsupportedLanguage);
}

#[test]
fn the_parser_counts_every_call_and_stops_at_the_largest_number() {
    let mut parser = ArborParser::new().unwrap();
    assert_eq!(parser.parsed, 0);
    let _ = parser.parse_source("fn f() {}", "a.rs", "rs");
    assert_eq!(parser.parsed, 1);
    let _ = parser.parse_source("", "a.rs", "rs");
    assert_eq!(parser.parsed, 2);
    let _ = parser.parse_named("x", "a.md", "a.md", "md");
    assert_eq!(parser.parsed, 3);
    parser.parsed = u64::MAX - 1;
    let _ = parser.parse_source("fn f() {}", "a.rs", "rs");
    assert_eq!(parser.parsed, u64::MAX);
    let _ = parser.parse_source("fn f() {}", "a.rs", "rs");
    assert_eq!(parser.parsed, u64::MAX);
}
