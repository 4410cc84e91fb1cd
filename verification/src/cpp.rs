//! The C++ extractor: classes, structs, namespaces, functions, methods,
//! fields, enums, includes and using declarations.

use vstd::prelude::*;
use vstd::string::*;
use crate::extract::{CppParser, qualify, scoped_name, trim_marks, typed_signature, without_marks};
use crate::go::named_plainly;
use crate::java::context_view;
use crate::node::{CodeNode, CodeNodeView, NodeKind, Visibility, node_views};
use crate::syntax::{LanguageTag, SyntaxNode, grammar_for, parse_tree, syntax_tree};
use crate::text::str_eq;
use crate::tree::{
    Traits, call_references, child_by_field, child_of_kind, child_visibility, column_of,
    directive_name, field_at, field_text, kind_at, name_in_directive, plain_symbol, references_of,
    symbol_at, text_of_field, visibility_of,
};

verus! {

/// The name of the function that the declarator `node` declares: the name of
/// a qualified identifier, the name that the declarator of a function
/// declarator declares, an identifier or a destructor name itself, or else
/// the first name that a child declares.
pub open spec fn cpp_name(node: SyntaxNode) -> Option<Seq<char>>
    decreases node, node.children@.len() + 1,
{
    if node.kind@ == "qualified_identifier"@ && field_at(node, "name"@).is_some() {
        Some(node.children@[field_at(node, "name"@).unwrap()].text@)
    } else if node.kind@ == "function_declarator"@ && field_at(node, "declarator"@).is_some() {
        let d = field_at(node, "declarator"@).unwrap();
        if 0 <= d < node.children@.len() {
            cpp_name(node.children@[d])
        } else {
            None
        }
    } else if node.kind@ == "identifier"@ || node.kind@ == "destructor_name"@ {
        Some(node.text@)
    } else {
        cpp_name_from(node, 0)
    }
}

/// The first name that a child of `node`, from `start` on, declares.
pub open spec fn cpp_name_from(node: SyntaxNode, start: int) -> Option<Seq<char>>
    decreases node, node.children@.len() - start,
{
    if start < 0 || start >= node.children@.len() {
        None
    } else {
        match cpp_name(node.children@[start]) {
            Some(name) => Some(name),
            None => cpp_name_from(node, start + 1),
        }
    }
}

/// The name of the function that the declarator `node` declares.
pub fn find_function_name(node: &SyntaxNode) -> (out: Option<String>)
    ensures
        cpp_name(*node) == (match out {
            Some(name) => Some(name@),
            None => None,
        }),
    decreases node,
{
    let kind = node.kind.as_str();
    if str_eq(kind, "qualified_identifier") {
        match child_by_field(node, "name") {
            Some(n) => {
                return Some(node.children[n].text.clone());
            },
            None => {},
        }
    }
    if str_eq(kind, "function_declarator") {
        match child_by_field(node, "declarator") {
            Some(d) => {
                return find_function_name(&node.children[d]);
            },
            None => {},
        }
    }
    if str_eq(kind, "identifier") || str_eq(kind, "destructor_name") {
        return Some(node.text.clone());
    }
    let mut i: usize = 0;
    while i < node.children.len()
        invariant
            i <= node.children.len(),
            cpp_name(*node) == cpp_name_from(*node, i as int),
        decreases node.children.len() - i,
    {
        match find_function_name(&node.children[i]) {
            Some(name) => {
                return Some(name);
            },
            None => {},
        }
        i = i + 1;
    }
    None
}

/// The parameters of the function that the declarator `node` declares: those
/// of a function declarator, or else the first that a child declares.
pub open spec fn cpp_params(node: SyntaxNode) -> Option<Seq<char>>
    decreases node, node.children@.len() + 1,
{
    if node.kind@ == "function_declarator"@ && field_at(node, "parameters"@).is_some() {
        Some(node.children@[field_at(node, "parameters"@).unwrap()].text@)
    } else {
        cpp_params_from(node, 0)
    }
}

/// The first parameters that a child of `node`, from `start` on, declares.
pub open spec fn cpp_params_from(node: SyntaxNode, start: int) -> Option<Seq<char>>
    decreases node, node.children@.len() - start,
{
    if start < 0 || start >= node.children@.len() {
        None
    } else {
        match cpp_params(node.children@[start]) {
            Some(params) => Some(params),
            None => cpp_params_from(node, start + 1),
        }
    }
}

/// The parameters of the function that the declarator `node` declares.
pub fn find_params(node: &SyntaxNode) -> (out: Option<String>)
    ensures
        cpp_params(*node) == (match out {
            Some(params) => Some(params@),
            None => None,
        }),
    decreases node,
{
    if str_eq(node.kind.as_str(), "function_declarator") {
        match child_by_field(node, "parameters") {
            Some(p) => {
                return Some(node.children[p].text.clone());
            },
            None => {},
        }
    }
    let mut i: usize = 0;
    while i < node.children.len()
        invariant
            i <= node.children.len(),
            cpp_params(*node) == cpp_params_from(*node, i as int),
        decreases node.children.len() - i,
    {
        match find_params(&node.children[i]) {
            Some(params) => {
                return Some(params);
            },
            None => {},
        }
        i = i + 1;
    }
    None
}

/// The visibility that the access specifiers of `node` give; without any it
/// is private.
pub open spec fn cpp_visibility(node: SyntaxNode) -> Visibility {
    visibility_of(node, "access_specifier"@, Visibility::Private)
}

/// The function or method that `node` defines in `context`, if its
/// declarator declares a name.
pub open spec fn cpp_function_of(node: SyntaxNode, file: Seq<char>, context: Option<Seq<char>>) -> Seq<CodeNodeView> {
    match field_at(node, "declarator"@) {
        Some(d) => match cpp_name(node.children@[d]) {
            Some(name) => seq![
                symbol_at(
                    node,
                    0,
                    file,
                    Traits {
                        name: name,
                        qualified_name: scoped_name(context, "::"@, name),
                        kind: if context.is_some() {
                            NodeKind::Method
                        } else {
                            NodeKind::Function
                        },
                        visibility: cpp_visibility(node),
                        signature: Some(
                            typed_signature(
                                field_text(node, "type"@, "void"@),
                                name,
                                match cpp_params(node.children@[d]) {
                                    Some(params) => params,
                                    None => "()"@,
                                },
                            ),
                        ),
                        references: references_of(node, "call_expression"@, "call_expression"@, "function"@),
                    },
                ),
            ],
            None => Seq::empty(),
        },
        None => Seq::empty(),
    }
}

/// The field that the identifier `name` declares in the field declaration
/// `node` of `context`.
pub open spec fn cpp_field_of(node: SyntaxNode, name: SyntaxNode, file: Seq<char>, context: Option<Seq<char>>) -> CodeNodeView {
    symbol_at(
        node,
        column_of(Some(name)),
        file,
        Traits {
            name: name.text@,
            qualified_name: scoped_name(context, "::"@, name.text@),
            kind: NodeKind::Field,
            visibility: cpp_visibility(node),
            signature: None,
            references: Seq::empty(),
        },
    )
}

/// The fields that the identifiers among the first `k` children of the
/// field declaration `node` declare.
pub open spec fn cpp_fields(node: SyntaxNode, file: Seq<char>, context: Option<Seq<char>>, k: int) -> Seq<CodeNodeView>
    decreases k,
{
    if k <= 0 || k > node.children@.len() {
        Seq::empty()
    } else if node.children@[k - 1].kind@ == "field_identifier"@ {
        cpp_fields(node, file, context, k - 1).push(cpp_field_of(node, node.children@[k - 1], file, context))
    } else {
        cpp_fields(node, file, context, k - 1)
    }
}

/// The class, struct, namespace or enum of kind `kind` that `node` defines,
/// if it has a name. It is public.
pub open spec fn cpp_type_of(node: SyntaxNode, file: Seq<char>, kind: NodeKind) -> Seq<CodeNodeView> {
    match field_at(node, "name"@) {
        Some(n) => seq![
            symbol_at(
                node,
                column_of(Some(node.children@[n])),
                file,
                Traits {
                    name: node.children@[n].text@,
                    qualified_name: node.children@[n].text@,
                    kind: kind,
                    visibility: Visibility::Public,
                    signature: None,
                    references: Seq::empty(),
                },
            ),
        ],
        None => Seq::empty(),
    }
}

/// The file that the include directive `node` names, without its quotes or
/// angle brackets.
pub open spec fn cpp_include_of(node: SyntaxNode, file: Seq<char>) -> Seq<CodeNodeView> {
    match kind_at(node, "string_literal"@, "system_lib_string"@) {
        Some(i) => seq![
            named_plainly(node, file, without_marks(node.children@[i].text@, "\"<>"@), NodeKind::Import),
        ],
        None => Seq::empty(),
    }
}

/// Whether `node` opens a scope: whether it is a class, a struct or a
/// namespace with a name.
pub open spec fn cpp_scopes(node: SyntaxNode) -> bool {
    (node.kind@ == "class_specifier"@ || node.kind@ == "struct_specifier"@ || node.kind@
        == "namespace_definition"@) && field_at(node, "name"@).is_some()
}

/// The kind of the symbol that a scope of kind `kind` defines.
pub open spec fn cpp_scope_kind(kind: Seq<char>) -> NodeKind {
    if kind == "class_specifier"@ {
        NodeKind::Class
    } else if kind == "struct_specifier"@ {
        NodeKind::Struct
    } else {
        NodeKind::Module
    }
}

/// The kind of child, besides a declaration list, that holds the members of
/// a scope of kind `kind`.
pub open spec fn cpp_body_kind(kind: Seq<char>) -> Seq<char> {
    if kind == "namespace_definition"@ {
        "compound_statement"@
    } else {
        "field_declaration_list"@
    }
}

/// The symbols that `node` itself defines in `context`, where it opens no
/// scope.
pub open spec fn cpp_own(node: SyntaxNode, file: Seq<char>, context: Option<Seq<char>>) -> Seq<CodeNodeView> {
    let kind = node.kind@;
    if kind == "function_definition"@ {
        cpp_function_of(node, file, context)
    } else if kind == "field_declaration"@ {
        if context.is_some() {
            cpp_fields(node, file, context, node.children@.len() as int)
        } else {
            Seq::empty()
        }
    } else if kind == "enum_specifier"@ {
        cpp_type_of(node, file, NodeKind::Enum)
    } else if kind == "preproc_include"@ {
        cpp_include_of(node, file)
    } else if kind == "using_declaration"@ {
        seq![named_plainly(node, file, directive_name(node.text@, "using "@), NodeKind::Import)]
    } else {
        Seq::empty()
    }
}

/// The symbols that `node` and the nodes below it define in `context`, in
/// the order of the source. A class, struct or namespace is followed by the
/// symbols of its member lists, which are its members.
pub open spec fn cpp_symbols(node: SyntaxNode, file: Seq<char>, context: Option<Seq<char>>) -> Seq<CodeNodeView>
    decreases node, node.children@.len() + 1,
{
    if cpp_scopes(node) {
        let name = node.children@[field_at(node, "name"@).unwrap()].text@;
        cpp_type_of(node, file, cpp_scope_kind(node.kind@)) + cpp_members(
            node,
            file,
            name,
            node.children@.len() as int,
        )
    } else {
        cpp_own(node, file, context) + cpp_symbols_below(node, file, context, node.children@.len() as int)
    }
}

/// The symbols of the members in the member lists among the first `k`
/// children of the scope `node`, which is named `name`.
pub open spec fn cpp_members(node: SyntaxNode, file: Seq<char>, name: Seq<char>, k: int) -> Seq<CodeNodeView>
    decreases node, k,
{
    if k <= 0 || k > node.children@.len() {
        Seq::empty()
    } else if node.children@[k - 1].kind@ == "declaration_list"@ || node.children@[k - 1].kind@ == cpp_body_kind(
        node.kind@,
    ) {
        cpp_members(node, file, name, k - 1) + cpp_symbols_below(
            node.children@[k - 1],
            file,
            Some(name),
            node.children@[k - 1].children@.len() as int,
        )
    } else {
        cpp_members(node, file, name, k - 1)
    }
}

/// The symbols that the first `k` children of `node` and the nodes below
/// them define in `context`.
pub open spec fn cpp_symbols_below(node: SyntaxNode, file: Seq<char>, context: Option<Seq<char>>, k: int) -> Seq<
    CodeNodeView,
>
    decreases node, k,
{
    if k <= 0 || k > node.children@.len() {
        Seq::empty()
    } else {
        cpp_symbols_below(node, file, context, k - 1) + cpp_symbols(node.children@[k - 1], file, context)
    }
}

/// Appends the class, struct, namespace or enum that `node` defines.
fn push_type(node: &SyntaxNode, file: &str, kind: NodeKind, out: &mut Vec<CodeNode>)
    ensures
        node_views(final(out)@) == node_views(old(out)@) + cpp_type_of(*node, file@, kind),
{
    let ghost start = node_views(out@);
    match child_by_field(node, "name") {
        Some(n) => {
            let name_node = &node.children[n];
            let name = name_node.text.as_str();
            out.push(plain_symbol(node, Some(name_node), name, name, kind, file).with_visibility(Visibility::Public));
            proof {
                assert(node_views(out@) =~= start + cpp_type_of(*node, file@, kind));
            }
        },
        None => {
            proof {
                assert(start + cpp_type_of(*node, file@, kind) =~= start);
            }
        },
    }
}

/// Appends the function or method that `node` defines.
fn push_function(node: &SyntaxNode, file: &str, context: Option<&str>, out: &mut Vec<CodeNode>)
    ensures
        node_views(final(out)@) == node_views(old(out)@) + cpp_function_of(*node, file@, context_view(context)),
{
    let ghost start = node_views(out@);
    let ghost ctx = context_view(context);
    let d = match child_by_field(node, "declarator") {
        Some(d) => d,
        None => {
            proof {
                assert(start + cpp_function_of(*node, file@, ctx) =~= start);
            }
            return ;
        },
    };
    let name = match find_function_name(&node.children[d]) {
        Some(name) => name,
        None => {
            proof {
                assert(start + cpp_function_of(*node, file@, ctx) =~= start);
            }
            return ;
        },
    };
    let kind = CppParser::function_kind(context.is_some());
    let qualified = qualify(context, "::", name.as_str());
    let visibility = child_visibility(node, "access_specifier", Visibility::Private);
    let found = find_params(&node.children[d]);
    let params = match &found {
        Some(p) => p.as_str(),
        None => "()",
    };
    let signature = CppParser::signature(Some(text_of_field(node, "type", "void")), name.as_str(), Some(params));
    let references = call_references(node, "call_expression", "call_expression", "function");
    out.push(
        plain_symbol(node, None, name.as_str(), qualified.as_str(), kind, file).with_signature(
            signature,
        ).with_visibility(visibility).with_references(references),
    );
    proof {
        assert(node_views(out@) =~= start + cpp_function_of(*node, file@, ctx));
    }
}

/// Appends the fields that the field declaration `node` declares.
fn push_fields(node: &SyntaxNode, file: &str, context: Option<&str>, out: &mut Vec<CodeNode>)
    ensures
        node_views(final(out)@) == node_views(old(out)@) + cpp_fields(
            *node,
            file@,
            context_view(context),
            node.children@.len() as int,
        ),
{
    let ghost start = node_views(out@);
    let ghost ctx = context_view(context);
    let visibility = child_visibility(node, "access_specifier", Visibility::Private);
    let mut i: usize = 0;
    proof {
        assert(start + cpp_fields(*node, file@, ctx, 0) =~= start);
    }
    while i < node.children.len()
        invariant
            i <= node.children.len(),
            ctx == context_view(context),
            visibility == cpp_visibility(*node),
            node_views(out@) == start + cpp_fields(*node, file@, ctx, i as int),
        decreases node.children.len() - i,
    {
        let ghost before = node_views(out@);
        let child = &node.children[i];
        if str_eq(child.kind.as_str(), "field_identifier") {
            let name = child.text.as_str();
            let qualified = qualify(context, "::", name);
            out.push(
                plain_symbol(node, Some(child), name, qualified.as_str(), NodeKind::Field, file).with_visibility(
                    visibility,
                ),
            );
            proof {
                let field = cpp_field_of(*node, node.children@[i as int], file@, ctx);
                assert(node_views(out@) =~= before.push(field));
                assert(start + cpp_fields(*node, file@, ctx, i as int).push(field) =~= before.push(field));
            }
        }
        i = i + 1;
    }
}

/// Appends the symbols that `node` itself defines, where it opens no scope.
fn push_own(node: &SyntaxNode, file: &str, context: Option<&str>, out: &mut Vec<CodeNode>)
    ensures
        node_views(final(out)@) == node_views(old(out)@) + cpp_own(*node, file@, context_view(context)),
{
    let ghost start = node_views(out@);
    let ghost ctx = context_view(context);
    let kind = node.kind.as_str();
    if str_eq(kind, "function_definition") {
        push_function(node, file, context, out);
    } else if str_eq(kind, "field_declaration") {
        if context.is_some() {
            push_fields(node, file, context, out);
        } else {
            proof {
                assert(start + cpp_own(*node, file@, ctx) =~= start);
            }
        }
    } else if str_eq(kind, "enum_specifier") {
        push_type(node, file, NodeKind::Enum, out);
    } else if str_eq(kind, "preproc_include") {
        match child_of_kind(node, "string_literal", "system_lib_string") {
            Some(i) => {
                let clean = trim_marks(node.children[i].text.as_str(), "\"<>");
                out.push(plain_symbol(node, None, clean.as_str(), clean.as_str(), NodeKind::Import, file));
                proof {
                    assert(node_views(out@) =~= start + cpp_own(*node, file@, ctx));
                }
            },
            None => {
                proof {
                    assert(start + cpp_own(*node, file@, ctx) =~= start);
                }
            },
        }
    } else if str_eq(kind, "using_declaration") {
        let name = name_in_directive(node.text.as_str(), "using ");
        out.push(plain_symbol(node, None, name.as_str(), name.as_str(), NodeKind::Import, file));
        proof {
            assert(node_views(out@) =~= start + cpp_own(*node, file@, ctx));
        }
    } else {
        proof {
            assert(start + cpp_own(*node, file@, ctx) =~= start);
        }
    }
}

/// Appends the symbols that the children of `node` and the nodes below them
/// define in `context`.
fn push_below(node: &SyntaxNode, file: &str, context: Option<&str>, out: &mut Vec<CodeNode>)
    ensures
        node_views(final(out)@) == node_views(old(out)@) + cpp_symbols_below(
            *node,
            file@,
            context_view(context),
            node.children@.len() as int,
        ),
    decreases node, 0nat,
{
    let ghost start = node_views(out@);
    let ghost ctx = context_view(context);
    let mut i: usize = 0;
    proof {
        assert(start + cpp_symbols_below(*node, file@, ctx, 0) =~= start);
    }
    while i < node.children.len()
        invariant
            i <= node.children.len(),
            ctx == context_view(context),
            node_views(out@) == start + cpp_symbols_below(*node, file@, ctx, i as int),
        decreases node.children.len() - i,
    {
        let ghost before = node_views(out@);
        push_symbols(&node.children[i], file, context, out);
        proof {
            assert(start + (cpp_symbols_below(*node, file@, ctx, i as int) + cpp_symbols(
                node.children@[i as int],
                file@,
                ctx,
            )) =~= before + cpp_symbols(node.children@[i as int], file@, ctx));
        }
        i = i + 1;
    }
}

/// Appends the symbols that `node` and the nodes below it define in
/// `context`.
fn push_symbols(node: &SyntaxNode, file: &str, context: Option<&str>, out: &mut Vec<CodeNode>)
    ensures
        node_views(final(out)@) == node_views(old(out)@) + cpp_symbols(*node, file@, context_view(context)),
    decreases node, 1nat,
{
    let ghost start = node_views(out@);
    let ghost ctx = context_view(context);
    let kind = node.kind.as_str();
    let is_class = str_eq(kind, "class_specifier");
    let is_struct = str_eq(kind, "struct_specifier");
    let is_namespace = str_eq(kind, "namespace_definition");
    if is_class || is_struct || is_namespace {
        match child_by_field(node, "name") {
            Some(n) => {
                let scope_kind = if is_class {
                    NodeKind::Class
                } else if is_struct {
                    NodeKind::Struct
                } else {
                    NodeKind::Module
                };
                let body_kind = if is_namespace {
                    "compound_statement"
                } else {
                    "field_declaration_list"
                };
                push_type(node, file, scope_kind, out);
                let ghost base = node_views(out@);
                let name = node.children[n].text.as_str();
                let mut i: usize = 0;
                proof {
                    assert(base + cpp_members(*node, file@, name@, 0) =~= base);
                }
                while i < node.children.len()
                    invariant
                        i <= node.children.len(),
                        body_kind@ == cpp_body_kind(node.kind@),
                        node_views(out@) == base + cpp_members(*node, file@, name@, i as int),
                    decreases node.children.len() - i,
                {
                    let ghost before = node_views(out@);
                    let child = &node.children[i];
                    if str_eq(child.kind.as_str(), "declaration_list") || str_eq(child.kind.as_str(), body_kind) {
                        push_below(child, file, Some(name), out);
                        proof {
                            let below = cpp_symbols_below(
                                node.children@[i as int],
                                file@,
                                Some(name@),
                                node.children@[i as int].children@.len() as int,
                            );
                            assert(base + (cpp_members(*node, file@, name@, i as int) + below) =~= before + below);
                        }
                    }
                    i = i + 1;
                }
                proof {
                    let members = cpp_members(*node, file@, name@, node.children@.len() as int);
                    assert(start + (cpp_type_of(*node, file@, scope_kind) + members) =~= base + members);
                }
                return ;
            },
            None => {},
        }
    }
    push_own(node, file, context, out);
    let ghost base = node_views(out@);
    push_below(node, file, context, out);
    proof {
        let below = cpp_symbols_below(*node, file@, ctx, node.children@.len() as int);
        assert(start + (cpp_own(*node, file@, ctx) + below) =~= base + below);
    }
}

impl CppParser {
    /// The symbols that the syntax tree `tree` of the file `file_path`
    /// defines, in the order of the source.
    pub fn extract_nodes(tree: &SyntaxNode, file_path: &str) -> (out: Vec<CodeNode>)
        ensures
            node_views(out@) == cpp_symbols(*tree, file_path@, None),
    {
        let mut out: Vec<CodeNode> = Vec::new();
        proof {
            assert(node_views(out@) =~= Seq::<CodeNodeView>::empty());
        }
        push_symbols(tree, file_path, None, &mut out);
        proof {
            assert(Seq::<CodeNodeView>::empty() + cpp_symbols(*tree, file_path@, None) =~= cpp_symbols(
                *tree,
                file_path@,
                None,
            ));
        }
        out
    }

    /// The symbols that `source`, the text of the C++ file `file_path`,
    /// defines; or `None` if the parser yields no tree.
    pub fn parse(source: &str, file_path: &str) -> (out: Option<Vec<CodeNode>>)
        ensures
            match syntax_tree(LanguageTag::Cpp, source@) {
                Some(tree) => out.is_some() && node_views(out.unwrap()@) == cpp_symbols(tree, file_path@, None),
                None => out.is_none(),
            },
    {
        let grammar = grammar_for(LanguageTag::Cpp);
        match parse_tree(&grammar, source) {
            Some(tree) => Some(Self::extract_nodes(&tree, file_path)),
            None => None,
        }
    }
}

} // verus!
