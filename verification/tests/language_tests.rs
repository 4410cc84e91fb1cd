use arbor::extract::{CppParser, DartParser, GoParser, JavaParser};
use arbor::node::{NodeKind, Visibility};

#[test]
fn test_parse_simple_function() {
    let source = r#"
package main

func Hello(name string) string {
    return "Hello, " + name
}
"#;

    let nodes = GoParser::parse(source, "test.go").unwrap();

    assert!(nodes.iter().any(|n| n.name == "main" && matches!(n.kind, NodeKind::Module)));
    assert!(nodes.iter().any(|n| n.name == "Hello" && matches!(n.kind, NodeKind::Function)));
}

#[test]
fn test_parse_struct_and_method() {
    let source = r#"
package main

type User struct {
    Name string
    Age  int
}

func (u *User) Greet() string {
    return "Hello, " + u.Name
}
"#;

    let nodes = GoParser::parse(source, "test.go").unwrap();

    assert!(nodes.iter().any(|n| n.name == "User" && matches!(n.kind, NodeKind::Struct)));
    assert!(nodes.iter().any(|n| n.name == "Greet" && matches!(n.kind, NodeKind::Method)));
}

#[test]
fn go_test_visibility_detection() {
    let source = r#"
package main

func PublicFunc() {}
func privateFunc() {}

type PublicStruct struct {}
type privateStruct struct {}
"#;

    let nodes = GoParser::parse(source, "test.go").unwrap();

    let public_func = nodes.iter().find(|n| n.name == "PublicFunc").unwrap();
    let private_func = nodes.iter().find(|n| n.name == "privateFunc").unwrap();

    assert!(matches!(public_func.visibility, Visibility::Public));
    assert!(matches!(private_func.visibility, Visibility::Private));
}

#[test]
fn go_symbols_in_source_order_with_details() {
    let source = "package main\n\nimport (\n    \"fmt\"\n    \"os\"\n)\n\nconst Max = 3\nvar count int\n\ntype Shape interface {\n    Area() float64\n}\ntype ID int\n\nfunc (u *User) Greet(name string) string {\n    fmt.Println(name)\n    helper()\n    fmt.Println(name)\n    return os.Getenv(name)\n}\n";
    let nodes = GoParser::parse(source, "pkg/test.go").unwrap();
    let got: Vec<(&str, &str, NodeKind, u32, u32)> = nodes
        .iter()
        .map(|n| (n.name.as_str(), n.qualified_name.as_str(), n.kind, n.line_start, n.line_end))
        .collect();
    assert_eq!(
        got,
        vec![
            ("main", "main", NodeKind::Module, 1, 1),
            ("fmt", "fmt", NodeKind::Import, 4, 4),
            ("os", "os", NodeKind::Import, 5, 5),
            ("Max", "Max", NodeKind::Constant, 8, 8),
            ("count", "count", NodeKind::Variable, 9, 9),
            ("Shape", "Shape", NodeKind::Interface, 11, 13),
            ("ID", "ID", NodeKind::TypeAlias, 14, 14),
            ("Greet", "User.Greet", NodeKind::Method, 16, 21),
        ]
    );
    let greet = nodes.last().unwrap();
    assert_eq!(greet.id, "pkg/test.go:User.Greet");
    assert_eq!(greet.signature.as_deref(), Some("func Greet(name string) string"));
    assert_eq!(greet.references, vec!["fmt.Println", "helper", "os.Getenv"]);
    assert_eq!(greet.visibility, Visibility::Public);
    assert_eq!(greet.column, 15);
    assert_eq!(nodes[4].visibility, Visibility::Private);
    assert_eq!(nodes[1].visibility, Visibility::Internal);
}

#[test]
fn test_parse_class() {
    let source = r#"
#include <iostream>

class MyClass {
public:
    void hello() {
        std::cout << "Hello" << std::endl;
    }
};
"#;

    let nodes = CppParser::parse(source, "myclass.cpp").unwrap();

    assert!(nodes.iter().any(|n| n.name == "MyClass" && matches!(n.kind, NodeKind::Class)));
    assert!(nodes.iter().any(|n| n.name == "iostream" && matches!(n.kind, NodeKind::Import)));
}

#[test]
fn test_parse_namespace() {
    let source = r#"
namespace MyLib {
}
"#;

    let nodes = CppParser::parse(source, "mylib.cpp").unwrap();

    assert!(nodes.iter().any(|n| n.name == "MyLib" && matches!(n.kind, NodeKind::Module)));
}

#[test]
fn test_parse_struct() {
    let source = r#"
struct Point {
    int x;
    int y;
};
"#;

    let nodes = CppParser::parse(source, "point.hpp").unwrap();

    assert!(nodes.iter().any(|n| n.name == "Point" && matches!(n.kind, NodeKind::Struct)));
}

#[test]
fn test_parse_standalone_function() {
    let source = r#"
void myFunction(int x) {
    return;
}
"#;

    let nodes = CppParser::parse(source, "main.cpp").unwrap();

    assert!(nodes.iter().any(|n| n.name == "myFunction" && matches!(n.kind, NodeKind::Function)));
}

#[test]
fn dart_test_parse_simple_class() {
    let source = r#"
class MyClass {
  void hello() {
    print('Hello');
  }
}
"#;

    let nodes = DartParser::parse(source, "my_class.dart").unwrap();

    assert!(nodes.iter().any(|n| n.name == "MyClass" && matches!(n.kind, NodeKind::Class)));
}

#[test]
fn dart_test_visibility_detection() {
    let source = r#"
class Example {
  void publicMethod() {}
  void _privateMethod() {}
}
"#;

    let nodes = DartParser::parse(source, "example.dart").unwrap();

    let example = nodes.iter().find(|n| n.name == "Example");
    assert!(example.is_some());
    assert!(matches!(example.unwrap().visibility, Visibility::Public));
}

#[test]
fn test_parse_enum() {
    let source = r#"
enum Color { red, green, blue }
"#;

    let nodes = DartParser::parse(source, "color.dart").unwrap();

    assert!(nodes.iter().any(|n| n.name == "Color" && matches!(n.kind, NodeKind::Enum)));
}

#[test]
fn java_test_parse_simple_class() {
    let source = r#"
package com.example;

public class HelloWorld {
    public static void main(String[] args) {
        System.out.println("Hello, World!");
    }
}
"#;

    let nodes = JavaParser::parse(source, "HelloWorld.java").unwrap();

    assert!(nodes.iter().any(|n| n.name == "com.example" && matches!(n.kind, NodeKind::Module)));
    assert!(nodes.iter().any(|n| n.name == "HelloWorld" && matches!(n.kind, NodeKind::Class)));
    assert!(nodes.iter().any(|n| n.name == "main" && matches!(n.kind, NodeKind::Method)));
}

#[test]
fn test_parse_interface() {
    let source = r#"
public interface Greeting {
    String greet(String name);
}
"#;

    let nodes = JavaParser::parse(source, "Greeting.java").unwrap();

    assert!(nodes.iter().any(|n| n.name == "Greeting" && matches!(n.kind, NodeKind::Interface)));
    assert!(nodes.iter().any(|n| n.name == "greet" && matches!(n.kind, NodeKind::Method)));
}

#[test]
fn java_test_visibility_detection() {
    let source = r#"
public class Example {
    public void publicMethod() {}
    protected void protectedMethod() {}
    private void privateMethod() {}
    void packageMethod() {}
}
"#;

    let nodes = JavaParser::parse(source, "Example.java").unwrap();

    let public_method = nodes.iter().find(|n| n.name == "publicMethod").unwrap();
    let protected_method = nodes.iter().find(|n| n.name == "protectedMethod").unwrap();
    let private_method = nodes.iter().find(|n| n.name == "privateMethod").unwrap();
    let package_method = nodes.iter().find(|n| n.name == "packageMethod").unwrap();

    assert!(matches!(public_method.visibility, Visibility::Public));
    assert!(matches!(protected_method.visibility, Visibility::Protected));
    assert!(matches!(private_method.visibility, Visibility::Private));
    assert!(matches!(package_method.visibility, Visibility::Internal));
}

#[test]
fn java_members_are_qualified_by_their_class() {
    let source = "package com.example;\nimport java.util.List;\n\npublic class Shop {\n    private int count;\n    public Shop(int n) { count = n; }\n    protected List<String> items(String key) {\n        helper(key);\n        return find(key);\n    }\n    enum Kind { A, B }\n}\n";
    let nodes = JavaParser::parse(source, "Shop.java").unwrap();
    let got: Vec<(&str, &str, NodeKind, Visibility, u32)> = nodes
        .iter()
        .map(|n| (n.name.as_str(), n.qualified_name.as_str(), n.kind, n.visibility, n.line_start))
        .collect();
    assert_eq!(
        got,
        vec![
            ("com.example", "com.example", NodeKind::Module, Visibility::Internal, 1),
            ("java.util.List", "java.util.List", NodeKind::Import, Visibility::Internal, 2),
            ("Shop", "Shop", NodeKind::Class, Visibility::Public, 4),
            ("count", "Shop.count", NodeKind::Field, Visibility::Private, 5),
            ("Shop", "Shop.Shop", NodeKind::Constructor, Visibility::Public, 6),
            ("items", "Shop.items", NodeKind::Method, Visibility::Protected, 7),
            ("Kind", "Kind", NodeKind::Enum, Visibility::Internal, 11),
        ]
    );
    assert_eq!(nodes[4].signature.as_deref(), Some("Shop(int n)"));
    assert_eq!(nodes[5].signature.as_deref(), Some("List<String> items(String key)"));
    assert_eq!(nodes[5].references, vec!["find", "helper"]);
    assert_eq!(nodes[5].id, "Shop.java:Shop.items");
}

#[test]
fn cpp_members_are_qualified_by_their_scope() {
    let source = "#include \"util.h\"\nusing std::string;\n\nnamespace geo {\nstruct Point {\n    int x;\n    int norm();\n};\nenum Color { Red };\nint Point::norm() { return calc(x); }\n}\n\nint main(int argc) {\n    run();\n    run();\n    return 0;\n}\n";
    let nodes = CppParser::parse(source, "geo.cpp").unwrap();
    let got: Vec<(&str, &str, NodeKind, Visibility)> = nodes
        .iter()
        .map(|n| (n.name.as_str(), n.qualified_name.as_str(), n.kind, n.visibility))
        .collect();
    assert_eq!(
        got,
        vec![
            ("util.h", "util.h", NodeKind::Import, Visibility::Internal),
            ("std::string", "std::string", NodeKind::Import, Visibility::Internal),
            ("geo", "geo", NodeKind::Module, Visibility::Public),
            ("Point", "Point", NodeKind::Struct, Visibility::Public),
            ("x", "Point::x", NodeKind::Field, Visibility::Private),
            ("Color", "Color", NodeKind::Enum, Visibility::Public),
            ("norm", "geo::norm", NodeKind::Method, Visibility::Private),
            ("main", "main", NodeKind::Function, Visibility::Private),
        ]
    );
    assert_eq!(nodes[6].signature.as_deref(), Some("int norm()"));
    assert_eq!(nodes[6].references, vec!["calc"]);
    assert_eq!(nodes[7].signature.as_deref(), Some("int main(int argc)"));
    assert_eq!(nodes[7].references, vec!["run"]);
    assert_eq!((nodes[7].line_start, nodes[7].line_end), (13, 17));
}

#[test]
fn dart_members_are_qualified_by_their_class() {
    let source = "import 'dart:io';\n\nclass _Repo {\n  int get size => 0;\n  void save(String id) {}\n}\n\nenum Color { red }\n";
    let nodes = DartParser::parse(source, "repo.dart").unwrap();
    assert!(nodes.iter().any(|n| n.name == "dart:io" && n.kind == NodeKind::Import));
    let repo = nodes.iter().find(|n| n.name == "_Repo").unwrap();
    assert_eq!(repo.kind, NodeKind::Class);
    assert_eq!(repo.visibility, Visibility::Private);
    assert_eq!((repo.line_start, repo.line_end), (3, 6));
    let color = nodes.iter().find(|n| n.name == "Color").unwrap();
    assert_eq!(color.visibility, Visibility::Public);
    for n in &nodes {
        assert_eq!(n.file, "repo.dart");
        assert!(n.id.starts_with("repo.dart:"));
    }
}
