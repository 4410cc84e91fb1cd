//! The Go extractor: functions, methods, types, packages, imports,
//! constants and variables.

use vstd::prelude::*;
use vstd::string::*;
use crate::extract::{GoParser, case_visibility, go_signature, without_quotes, trim_quotes};
use crate::node::{CodeNode, CodeNodeView, NodeKind, Visibility, node_views, strings_view};
use crate::syntax::{LanguageTag, SyntaxNode, grammar_for, parse_tree, syntax_tree};
use crate::text::str_eq;
use crate::tree::{
    Traits, call_references, child_by_field, child_of_kind, column_of, field_at, field_text, kind_at,
    plain_symbol, references_of, symbol_at, text_of_field,
};

verus! {

/// `s` without the `c`s at its start.
pub open spec fn without_leading(s: Seq<char>, c: char) -> Seq<char>
    decreases s.len(),
{
    if s.len() > 0 && s[0] == c {
        without_leading(s.skip(1), c)
    } else {
        s
    }
}

/// `s` without the `c`s at its start.
pub fn strip_leading(s: &str, c: char) -> (out: String)
    ensures
        out@ == without_leading(s@, c),
{
    let len = s.unicode_len();
    let mut i: usize = 0;
    proof {
        assert(s@.skip(0) =~= s@);
    }
    while i < len && s.get_char(i) == c
        invariant
            i <= len,
            len == s@.len(),
            without_leading(s@, c) == without_leading(s@.skip(i as int), c),
        decreases len - i,
    {
        proof {
            assert(s@.skip(i as int).skip(1) =~= s@.skip(i + 1));
            assert(s@.skip(i as int)[0] == s@[i as int]);
        }
        i = i + 1;
    }
    proof {
        if i < len {
            assert(s@.skip(i as int)[0] == s@[i as int]);
        }
        assert(s@.skip(i as int) =~= s@.subrange(i as int, len as int));
    }
    String::from_str(s.substring_char(i, len))
}

/// The type of the receiver among `children` from `start` on: the type of
/// the first parameter declaration that has one, without its pointer marks.
pub open spec fn receiver_from(children: Seq<SyntaxNode>, start: int) -> Option<Seq<char>>
    decreases children.len() - start,
{
    if start < 0 || start >= children.len() {
        None
    } else if children[start].kind@ == "parameter_declaration"@ && field_at(children[start], "type"@).is_some() {
        Some(without_leading(children[start].children@[field_at(children[start], "type"@).unwrap()].text@, '*'))
    } else {
        receiver_from(children, start + 1)
    }
}

/// The type of the receiver of the method `node`, or nothing for a method
/// without one.
pub open spec fn receiver_of(node: SyntaxNode) -> Seq<char> {
    match field_at(node, "receiver"@) {
        Some(r) => match receiver_from(node.children@[r].children@, 0) {
            Some(t) => t,
            None => Seq::empty(),
        },
        None => Seq::empty(),
    }
}

/// The type of the receiver of the method `node`.
pub fn receiver_type(node: &SyntaxNode) -> (out: String)
    ensures
        out@ == receiver_of(*node),
{
    let at = match child_by_field(node, "receiver") {
        Some(at) => at,
        None => {
            return String::new();
        },
    };
    let r = &node.children[at];
    assert(*r == node.children@[at as int]);
    let mut i: usize = 0;
    while i < r.children.len()
        invariant
            i <= r.children.len(),
            field_at(*node, "receiver"@) == Some(at as int),
            *r == node.children@[at as int],
            receiver_from(r.children@, 0) == receiver_from(r.children@, i as int),
        decreases r.children.len() - i,
    {
        let child = &r.children[i];
        if str_eq(child.kind.as_str(), "parameter_declaration") {
            match child_by_field(child, "type") {
                Some(t) => {
                    let out = strip_leading(child.children[t].text.as_str(), '*');
                    proof {
                        assert(receiver_from(r.children@, i as int) == Some(out@));
                    }
                    return out;
                },
                None => {},
            }
        }
        i = i + 1;
    }
    String::new()
}

/// The qualified name of a method with the receiver type `receiver`.
pub open spec fn method_name_text(receiver: Seq<char>, name: Seq<char>) -> Seq<char> {
    if receiver.len() == 0 {
        name
    } else {
        receiver + "."@ + name
    }
}

/// The traits of the function or method that `node` declares under the name
/// of its child `name`.
pub open spec fn go_callable(node: SyntaxNode, name: int, method: bool) -> Traits {
    let text = node.children@[name].text@;
    Traits {
        name: text,
        qualified_name: if method {
            method_name_text(receiver_of(node), text)
        } else {
            text
        },
        kind: if method {
            NodeKind::Method
        } else {
            NodeKind::Function
        },
        visibility: case_visibility(text),
        signature: Some(
            go_signature(text, field_text(node, "parameters"@, "()"@), field_text(node, "result"@, Seq::empty())),
        ),
        references: references_of(node, "call_expression"@, "call_expression"@, "function"@),
    }
}

/// The function or method that `node` declares, if it has a name.
pub open spec fn go_callable_of(node: SyntaxNode, file: Seq<char>, method: bool) -> Seq<CodeNodeView> {
    match field_at(node, "name"@) {
        Some(n) => seq![
            symbol_at(node, column_of(Some(node.children@[n])), file, go_callable(node, n, method)),
        ],
        None => Seq::empty(),
    }
}

/// The kind of the type that a type spec with a type of kind `kind`
/// declares.
pub open spec fn go_type_kind(kind: Seq<char>) -> NodeKind {
    if kind == "struct_type"@ {
        NodeKind::Struct
    } else if kind == "interface_type"@ {
        NodeKind::Interface
    } else {
        NodeKind::TypeAlias
    }
}

/// The type that the type spec `node` declares, if it has a name and a type.
pub open spec fn go_type_spec_of(node: SyntaxNode, file: Seq<char>) -> Seq<CodeNodeView> {
    match (field_at(node, "name"@), field_at(node, "type"@)) {
        (Some(n), Some(t)) => seq![
            symbol_at(
                node,
                column_of(Some(node.children@[n])),
                file,
                Traits {
                    name: node.children@[n].text@,
                    qualified_name: node.children@[n].text@,
                    kind: go_type_kind(node.children@[t].kind@),
                    visibility: case_visibility(node.children@[n].text@),
                    signature: None,
                    references: Seq::empty(),
                },
            ),
        ],
        _ => Seq::empty(),
    }
}

/// The types that the type specs among the first `k` children of `node`
/// declare.
pub open spec fn go_type_specs(node: SyntaxNode, file: Seq<char>, k: int) -> Seq<CodeNodeView>
    decreases k,
{
    if k <= 0 || k > node.children@.len() {
        Seq::empty()
    } else if node.children@[k - 1].kind@ == "type_spec"@ {
        go_type_specs(node, file, k - 1) + go_type_spec_of(node.children@[k - 1], file)
    } else {
        go_type_specs(node, file, k - 1)
    }
}

/// The constant or variable that the spec `node` declares, if it has a name.
pub open spec fn go_value_of(node: SyntaxNode, file: Seq<char>, kind: NodeKind) -> Seq<CodeNodeView> {
    match field_at(node, "name"@) {
        Some(n) => seq![
            symbol_at(
                node,
                column_of(Some(node.children@[n])),
                file,
                Traits {
                    name: node.children@[n].text@,
                    qualified_name: node.children@[n].text@,
                    kind: kind,
                    visibility: case_visibility(node.children@[n].text@),
                    signature: None,
                    references: Seq::empty(),
                },
            ),
        ],
        None => Seq::empty(),
    }
}

/// The constants or variables that the specs of kind `spec` among the
/// first `k` children of `node` declare.
pub open spec fn go_values(node: SyntaxNode, file: Seq<char>, spec: Seq<char>, kind: NodeKind, k: int) -> Seq<
    CodeNodeView,
>
    decreases k,
{
    if k <= 0 || k > node.children@.len() {
        Seq::empty()
    } else if node.children@[k - 1].kind@ == spec {
        go_values(node, file, spec, kind, k - 1) + go_value_of(node.children@[k - 1], file, kind)
    } else {
        go_values(node, file, spec, kind, k - 1)
    }
}

/// A module or import named `name` that `node` declares.
pub open spec fn named_plainly(node: SyntaxNode, file: Seq<char>, name: Seq<char>, kind: NodeKind) -> CodeNodeView {
    symbol_at(
        node,
        0,
        file,
        Traits {
            name: name,
            qualified_name: name,
            kind: kind,
            visibility: Visibility::Internal,
            signature: None,
            references: Seq::empty(),
        },
    )
}

/// The package that the package clause `node` names.
pub open spec fn go_package_of(node: SyntaxNode, file: Seq<char>) -> Seq<CodeNodeView> {
    match kind_at(node, "package_identifier"@, "package_identifier"@) {
        Some(i) => seq![named_plainly(node, file, node.children@[i].text@, NodeKind::Module)],
        None => Seq::empty(),
    }
}

/// The imports of the import spec or import spec list `node`.
pub open spec fn go_import_specs(node: SyntaxNode, file: Seq<char>) -> Seq<CodeNodeView>
    decreases node, node.children@.len() + 1,
{
    if node.kind@ == "import_spec"@ {
        match field_at(node, "path"@) {
            Some(p) => seq![
                named_plainly(node, file, without_double_quotes(node.children@[p].text@), NodeKind::Import),
            ],
            None => Seq::empty(),
        }
    } else if node.kind@ == "import_spec_list"@ {
        go_import_list(node, file, node.children@.len() as int)
    } else {
        Seq::empty()
    }
}

/// The imports of the first `k` children of the import spec list `node`.
pub open spec fn go_import_list(node: SyntaxNode, file: Seq<char>, k: int) -> Seq<CodeNodeView>
    decreases node, k,
{
    if k <= 0 || k > node.children@.len() {
        Seq::empty()
    } else {
        go_import_list(node, file, k - 1) + go_import_specs(node.children@[k - 1], file)
    }
}

/// The imports of the import specs and lists among the first `k` children
/// of the import declaration `node`.
pub open spec fn go_imports(node: SyntaxNode, file: Seq<char>, k: int) -> Seq<CodeNodeView>
    decreases k,
{
    if k <= 0 || k > node.children@.len() {
        Seq::empty()
    } else if node.children@[k - 1].kind@ == "import_spec"@ || node.children@[k - 1].kind@
        == "import_spec_list"@ {
        go_imports(node, file, k - 1) + go_import_specs(node.children@[k - 1], file)
    } else {
        go_imports(node, file, k - 1)
    }
}

/// `s` without the double quotes at its start and at its end.
pub open spec fn without_double_quotes(s: Seq<char>) -> Seq<char> {
    crate::extract::without_marks(s, seq!['"'])
}

/// The symbols that `node` itself declares.
pub open spec fn go_own(node: SyntaxNode, file: Seq<char>) -> Seq<CodeNodeView> {
    let kind = node.kind@;
    let all = node.children@.len() as int;
    if kind == "function_declaration"@ {
        go_callable_of(node, file, false)
    } else if kind == "method_declaration"@ {
        go_callable_of(node, file, true)
    } else if kind == "type_declaration"@ {
        go_type_specs(node, file, all)
    } else if kind == "package_clause"@ {
        go_package_of(node, file)
    } else if kind == "import_declaration"@ {
        go_imports(node, file, all)
    } else if kind == "const_declaration"@ {
        go_values(node, file, "const_spec"@, NodeKind::Constant, all)
    } else if kind == "var_declaration"@ {
        go_values(node, file, "var_spec"@, NodeKind::Variable, all)
    } else {
        Seq::empty()
    }
}

/// The symbols that `node` and the nodes below it declare, in the order of
/// the source.
pub open spec fn go_symbols(node: SyntaxNode, file: Seq<char>) -> Seq<CodeNodeView>
    decreases node, node.children@.len() + 1,
{
    go_own(node, file) + go_symbols_below(node, file, node.children@.len() as int)
}

/// The symbols that the first `k` children of `node` and the nodes below
/// them declare.
pub open spec fn go_symbols_below(node: SyntaxNode, file: Seq<char>, k: int) -> Seq<CodeNodeView>
    decreases node, k,
{
    if k <= 0 || k > node.children@.len() {
        Seq::empty()
    } else {
        go_symbols_below(node, file, k - 1) + go_symbols(node.children@[k - 1], file)
    }
}

/// Whether the first character of `name` is upper-case.
fn exported(name: &str) -> (out: Visibility)
    ensures
        out == case_visibility(name@),
{
    GoParser::detect_visibility(name)
}

/// Appends the function or method that `node` declares.
fn push_callable(node: &SyntaxNode, file: &str, method: bool, out: &mut Vec<CodeNode>)
    ensures
        node_views(final(out)@) == node_views(old(out)@) + go_callable_of(*node, file@, method),
{
    let ghost start = node_views(out@);
    match child_by_field(node, "name") {
        Some(n) => {
            let name_node = &node.children[n];
            let name = name_node.text.as_str();
            let qualified = if method {
                GoParser::method_name(receiver_type(node).as_str(), name)
            } else {
                String::from_str(name)
            };
            let kind = if method {
                NodeKind::Method
            } else {
                NodeKind::Function
            };
            let params = text_of_field(node, "parameters", "()");
            proof {
                reveal_strlit("");
            }
            let result = text_of_field(node, "result", "");
            let signature = GoParser::signature(name, Some(params), Some(result));
            let references = call_references(node, "call_expression", "call_expression", "function");
            let symbol = plain_symbol(node, Some(name_node), name, qualified.as_str(), kind, file).with_signature(
                signature,
            ).with_visibility(exported(name)).with_references(references);
            out.push(symbol);
            proof {
                assert(node_views(out@) =~= start + go_callable_of(*node, file@, method));
            }
        },
        None => {
            proof {
                assert(start + go_callable_of(*node, file@, method) =~= start);
            }
        },
    }
}

/// Appends the type that the type spec `node` declares.
fn push_type_spec(node: &SyntaxNode, file: &str, out: &mut Vec<CodeNode>)
    ensures
        node_views(final(out)@) == node_views(old(out)@) + go_type_spec_of(*node, file@),
{
    let ghost start = node_views(out@);
    let named = child_by_field(node, "name");
    let typed = child_by_field(node, "type");
    match (named, typed) {
        (Some(n), Some(t)) => {
            let name_node = &node.children[n];
            let name = name_node.text.as_str();
            let type_kind = node.children[t].kind.as_str();
            let kind = if str_eq(type_kind, "struct_type") {
                NodeKind::Struct
            } else if str_eq(type_kind, "interface_type") {
                NodeKind::Interface
            } else {
                NodeKind::TypeAlias
            };
            let symbol = plain_symbol(node, Some(name_node), name, name, kind, file).with_visibility(exported(name));
            out.push(symbol);
            proof {
                assert(node_views(out@) =~= start + go_type_spec_of(*node, file@));
            }
        },
        _ => {
            proof {
                assert(start + go_type_spec_of(*node, file@) =~= start);
            }
        },
    }
}

/// Appends the constant or variable that the spec `node` declares.
fn push_value(node: &SyntaxNode, file: &str, kind: NodeKind, out: &mut Vec<CodeNode>)
    ensures
        node_views(final(out)@) == node_views(old(out)@) + go_value_of(*node, file@, kind),
{
    let ghost start = node_views(out@);
    match child_by_field(node, "name") {
        Some(n) => {
            let name_node = &node.children[n];
            let name = name_node.text.as_str();
            let symbol = plain_symbol(node, Some(name_node), name, name, kind, file).with_visibility(exported(name));
            out.push(symbol);
            proof {
                assert(node_views(out@) =~= start + go_value_of(*node, file@, kind));
            }
        },
        None => {
            proof {
                assert(start + go_value_of(*node, file@, kind) =~= start);
            }
        },
    }
}

/// Appends the imports of the import spec or import spec list `node`.
fn push_import_specs(node: &SyntaxNode, file: &str, out: &mut Vec<CodeNode>)
    ensures
        node_views(final(out)@) == node_views(old(out)@) + go_import_specs(*node, file@),
    decreases node,
{
    let ghost start = node_views(out@);
    if str_eq(node.kind.as_str(), "import_spec") {
        match child_by_field(node, "path") {
            Some(p) => {
                let clean = crate::extract::trim_marks(node.children[p].text.as_str(), "\"");
                proof {
                    reveal_strlit("\"");
                    assert("\""@ =~= seq!['"']);
                }
                out.push(plain_symbol(node, None, clean.as_str(), clean.as_str(), NodeKind::Import, file));
                proof {
                    assert(node_views(out@) =~= start + go_import_specs(*node, file@));
                }
            },
            None => {
                proof {
                    assert(start + go_import_specs(*node, file@) =~= start);
                }
            },
        }
    } else if str_eq(node.kind.as_str(), "import_spec_list") {
        let mut i: usize = 0;
        proof {
            assert(start + go_import_list(*node, file@, 0) =~= start);
        }
        while i < node.children.len()
            invariant
                i <= node.children.len(),
                node_views(out@) == start + go_import_list(*node, file@, i as int),
            decreases node.children.len() - i,
        {
            let ghost before = node_views(out@);
            push_import_specs(&node.children[i], file, out);
            proof {
                assert(start + (go_import_list(*node, file@, i as int) + go_import_specs(
                    node.children@[i as int],
                    file@,
                )) =~= before + go_import_specs(node.children@[i as int], file@));
            }
            i = i + 1;
        }
    } else {
        proof {
            assert(start + go_import_specs(*node, file@) =~= start);
        }
    }
}

/// Appends the symbols that `node` itself declares.
fn push_own(node: &SyntaxNode, file: &str, out: &mut Vec<CodeNode>)
    ensures
        node_views(final(out)@) == node_views(old(out)@) + go_own(*node, file@),
{
    let ghost start = node_views(out@);
    let kind = node.kind.as_str();
    if str_eq(kind, "function_declaration") {
        push_callable(node, file, false, out);
    } else if str_eq(kind, "method_declaration") {
        push_callable(node, file, true, out);
    } else if str_eq(kind, "type_declaration") {
        let mut i: usize = 0;
        proof {
            assert(start + go_type_specs(*node, file@, 0) =~= start);
        }
        while i < node.children.len()
            invariant
                i <= node.children.len(),
                node_views(out@) == start + go_type_specs(*node, file@, i as int),
            decreases node.children.len() - i,
        {
            let ghost before = node_views(out@);
            if str_eq(node.children[i].kind.as_str(), "type_spec") {
                push_type_spec(&node.children[i], file, out);
                proof {
                    assert(start + (go_type_specs(*node, file@, i as int) + go_type_spec_of(
                        node.children@[i as int],
                        file@,
                    )) =~= before + go_type_spec_of(node.children@[i as int], file@));
                }
            }
            i = i + 1;
        }
    } else if str_eq(kind, "package_clause") {
        match child_of_kind(node, "package_identifier", "package_identifier") {
            Some(i) => {
                let name = node.children[i].text.as_str();
                out.push(plain_symbol(node, None, name, name, NodeKind::Module, file));
                proof {
                    assert(node_views(out@) =~= start + go_own(*node, file@));
                }
            },
            None => {
                proof {
                    assert(start + go_own(*node, file@) =~= start);
                }
            },
        }
    } else if str_eq(kind, "import_declaration") {
        let mut i: usize = 0;
        proof {
            assert(start + go_imports(*node, file@, 0) =~= start);
        }
        while i < node.children.len()
            invariant
                i <= node.children.len(),
                node_views(out@) == start + go_imports(*node, file@, i as int),
            decreases node.children.len() - i,
        {
            let ghost before = node_views(out@);
            let child = &node.children[i];
            if str_eq(child.kind.as_str(), "import_spec") || str_eq(child.kind.as_str(), "import_spec_list") {
                push_import_specs(child, file, out);
                proof {
                    assert(start + (go_imports(*node, file@, i as int) + go_import_specs(
                        node.children@[i as int],
                        file@,
                    )) =~= before + go_import_specs(node.children@[i as int], file@));
                }
            }
            i = i + 1;
        }
    } else if str_eq(kind, "const_declaration") {
        push_values(node, file, "const_spec", NodeKind::Constant, out);
    } else if str_eq(kind, "var_declaration") {
        push_values(node, file, "var_spec", NodeKind::Variable, out);
    } else {
        proof {
            assert(start + go_own(*node, file@) =~= start);
        }
    }
}

/// Appends the constants or variables that the specs of kind `spec` among
/// the children of `node` declare.
fn push_values(node: &SyntaxNode, file: &str, spec: &str, kind: NodeKind, out: &mut Vec<CodeNode>)
    ensures
        node_views(final(out)@) == node_views(old(out)@) + go_values(
            *node,
            file@,
            spec@,
            kind,
            node.children@.len() as int,
        ),
{
    let ghost start = node_views(out@);
    let mut i: usize = 0;
    proof {
        assert(start + go_values(*node, file@, spec@, kind, 0) =~= start);
    }
    while i < node.children.len()
        invariant
            i <= node.children.len(),
            node_views(out@) == start + go_values(*node, file@, spec@, kind, i as int),
        decreases node.children.len() - i,
    {
        let ghost before = node_views(out@);
        if str_eq(node.children[i].kind.as_str(), spec) {
            push_value(&node.children[i], file, kind, out);
            proof {
                assert(start + (go_values(*node, file@, spec@, kind, i as int) + go_value_of(
                    node.children@[i as int],
                    file@,
                    kind,
                )) =~= before + go_value_of(node.children@[i as int], file@, kind));
            }
        }
        i = i + 1;
    }
}

/// Appends the symbols that `node` and the nodes below it declare.
fn push_symbols(node: &SyntaxNode, file: &str, out: &mut Vec<CodeNode>)
    ensures
        node_views(final(out)@) == node_views(old(out)@) + go_symbols(*node, file@),
    decreases node,
{
    let ghost start = node_views(out@);
    push_own(node, file, out);
    let ghost base = node_views(out@);
    let mut i: usize = 0;
    proof {
        assert(base + go_symbols_below(*node, file@, 0) =~= base);
    }
    while i < node.children.len()
        invariant
            i <= node.children.len(),
            node_views(out@) == base + go_symbols_below(*node, file@, i as int),
        decreases node.children.len() - i,
    {
        let ghost before = node_views(out@);
        push_symbols(&node.children[i], file, out);
        proof {
            assert(base + (go_symbols_below(*node, file@, i as int) + go_symbols(node.children@[i as int], file@))
                =~= before + go_symbols(node.children@[i as int], file@));
        }
        i = i + 1;
    }
    proof {
        assert(start + (go_own(*node, file@) + go_symbols_below(*node, file@, node.children@.len() as int))
            =~= base + go_symbols_below(*node, file@, node.children@.len() as int));
    }
}

impl GoParser {
    /// The symbols that the syntax tree `tree` of the file `file_path`
    /// declares, in the order of the source.
    pub fn extract_nodes(tree: &SyntaxNode, file_path: &str) -> (out: Vec<CodeNode>)
        ensures
            node_views(out@) == go_symbols(*tree, file_path@),
    {
        let mut out: Vec<CodeNode> = Vec::new();
        proof {
            assert(node_views(out@) =~= Seq::<CodeNodeView>::empty());
        }
        push_symbols(tree, file_path, &mut out);
        proof {
            assert(Seq::<CodeNodeView>::empty() + go_symbols(*tree, file_path@) =~= go_symbols(*tree, file_path@));
        }
        out
    }

    /// The symbols that `source`, the text of the Go file `file_path`,
    /// declares; or `None` if the parser yields no tree.
    pub fn parse(source: &str, file_path: &str) -> (out: Option<Vec<CodeNode>>)
        ensures
            match syntax_tree(LanguageTag::Go, source@) {
                Some(tree) => out.is_some() && node_views(out.unwrap()@) == go_symbols(tree, file_path@),
                None => out.is_none(),
            },
    {
        let grammar = grammar_for(LanguageTag::Go);
        match parse_tree(&grammar, source) {
            Some(tree) => Some(Self::extract_nodes(&tree, file_path)),
            None => None,
        }
    }
}

} // verus!
