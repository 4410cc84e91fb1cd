//! The Java extractor: classes, interfaces, enums, methods, constructors,
//! fields, packages and imports.

use vstd::prelude::*;
use vstd::string::*;
use crate::extract::{JavaParser, qualify, scoped_name, typed_signature};
use crate::go::named_plainly;
use crate::node::{CodeNode, CodeNodeView, NodeKind, Visibility, node_views};
use crate::syntax::{LanguageTag, SyntaxNode, grammar_for, parse_tree, syntax_tree};
use crate::text::str_eq;
use crate::tree::{
    Traits, call_references, child_by_field, child_of_kind, child_visibility, column_of, field_at,
    field_text, kind_at, plain_symbol, references_of, symbol_at, text_of_field, visibility_of,
};

verus! {

/// The visibility that the modifiers of `node` give; without any it is
/// package-private.
pub open spec fn java_visibility(node: SyntaxNode) -> Visibility {
    visibility_of(node, "modifiers"@, Visibility::Internal)
}

/// The class, interface or enum that `node` declares, if it has a name.
pub open spec fn java_type_of(node: SyntaxNode, file: Seq<char>, kind: NodeKind) -> Seq<CodeNodeView> {
    match field_at(node, "name"@) {
        Some(n) => seq![
            symbol_at(
                node,
                column_of(Some(node.children@[n])),
                file,
                Traits {
                    name: node.children@[n].text@,
                    qualified_name: node.children@[n].text@,
                    kind: kind,
                    visibility: java_visibility(node),
                    signature: None,
                    references: Seq::empty(),
                },
            ),
        ],
        None => Seq::empty(),
    }
}

/// The method that `node` declares in the class `context`, if it has a
/// name.
pub open spec fn java_method_of(node: SyntaxNode, file: Seq<char>, context: Option<Seq<char>>) -> Seq<CodeNodeView> {
    match field_at(node, "name"@) {
        Some(n) => seq![
            symbol_at(
                node,
                column_of(Some(node.children@[n])),
                file,
                Traits {
                    name: node.children@[n].text@,
                    qualified_name: scoped_name(context, "."@, node.children@[n].text@),
                    kind: NodeKind::Method,
                    visibility: java_visibility(node),
                    signature: Some(
                        typed_signature(
                            field_text(node, "type"@, "void"@),
                            node.children@[n].text@,
                            field_text(node, "parameters"@, "()"@),
                        ),
                    ),
                    references: references_of(node, "method_invocation"@, "method_invocation"@, "name"@),
                },
            ),
        ],
        None => Seq::empty(),
    }
}

/// The constructor that `node` declares in the class `context`, if it has a
/// name.
pub open spec fn java_constructor_of(node: SyntaxNode, file: Seq<char>, context: Option<Seq<char>>) -> Seq<
    CodeNodeView,
> {
    match field_at(node, "name"@) {
        Some(n) => seq![
            symbol_at(
                node,
                column_of(Some(node.children@[n])),
                file,
                Traits {
                    name: node.children@[n].text@,
                    qualified_name: scoped_name(context, "."@, node.children@[n].text@),
                    kind: NodeKind::Constructor,
                    visibility: java_visibility(node),
                    signature: Some(node.children@[n].text@ + field_text(node, "parameters"@, "()"@)),
                    references: Seq::empty(),
                },
            ),
        ],
        None => Seq::empty(),
    }
}

/// The field that the declarator `node` declares in the class `context`
/// with the visibility `visibility`, if it has a name.
pub open spec fn java_field_of(
    node: SyntaxNode,
    file: Seq<char>,
    context: Option<Seq<char>>,
    visibility: Visibility,
) -> Seq<CodeNodeView> {
    match field_at(node, "name"@) {
        Some(n) => seq![
            symbol_at(
                node,
                column_of(Some(node.children@[n])),
                file,
                Traits {
                    name: node.children@[n].text@,
                    qualified_name: scoped_name(context, "."@, node.children@[n].text@),
                    kind: NodeKind::Field,
                    visibility: visibility,
                    signature: None,
                    references: Seq::empty(),
                },
            ),
        ],
        None => Seq::empty(),
    }
}

/// The fields that the declarators among the first `k` children of the
/// field declaration `node` declare.
pub open spec fn java_fields(node: SyntaxNode, file: Seq<char>, context: Option<Seq<char>>, k: int) -> Seq<
    CodeNodeView,
>
    decreases k,
{
    if k <= 0 || k > node.children@.len() {
        Seq::empty()
    } else if node.children@[k - 1].kind@ == "variable_declarator"@ {
        java_fields(node, file, context, k - 1) + java_field_of(
            node.children@[k - 1],
            file,
            context,
            java_visibility(node),
        )
    } else {
        java_fields(node, file, context, k - 1)
    }
}

/// The package or import that `node` names: its first child that is an
/// identifier, scoped or not.
pub open spec fn java_named_of(node: SyntaxNode, file: Seq<char>, kind: NodeKind) -> Seq<CodeNodeView> {
    match kind_at(node, "scoped_identifier"@, "identifier"@) {
        Some(i) => seq![named_plainly(node, file, node.children@[i].text@, kind)],
        None => Seq::empty(),
    }
}

/// Whether `node` opens a scope: whether it is a class or an interface with
/// a name.
pub open spec fn java_scopes(node: SyntaxNode) -> bool {
    (node.kind@ == "class_declaration"@ || node.kind@ == "interface_declaration"@) && field_at(node, "name"@).is_some()
}

/// The kind of the type that a declaration of kind `kind` declares.
pub open spec fn java_scope_kind(kind: Seq<char>) -> NodeKind {
    if kind == "class_declaration"@ {
        NodeKind::Class
    } else {
        NodeKind::Interface
    }
}

/// The symbols that `node` itself declares in the class `context`, where it
/// opens no scope.
pub open spec fn java_own(node: SyntaxNode, file: Seq<char>, context: Option<Seq<char>>) -> Seq<CodeNodeView> {
    let kind = node.kind@;
    if kind == "enum_declaration"@ {
        java_type_of(node, file, NodeKind::Enum)
    } else if kind == "method_declaration"@ {
        java_method_of(node, file, context)
    } else if kind == "constructor_declaration"@ {
        java_constructor_of(node, file, context)
    } else if kind == "field_declaration"@ {
        java_fields(node, file, context, node.children@.len() as int)
    } else if kind == "package_declaration"@ {
        java_named_of(node, file, NodeKind::Module)
    } else if kind == "import_declaration"@ {
        java_named_of(node, file, NodeKind::Import)
    } else {
        Seq::empty()
    }
}

/// The symbols that `node` and the nodes below it declare in the class
/// `context`, in the order of the source. A class or interface is followed
/// by the symbols of its body, which are its members.
pub open spec fn java_symbols(node: SyntaxNode, file: Seq<char>, context: Option<Seq<char>>) -> Seq<CodeNodeView>
    decreases node, node.children@.len() + 1,
{
    if java_scopes(node) {
        let name = node.children@[field_at(node, "name"@).unwrap()].text@;
        java_type_of(node, file, java_scope_kind(node.kind@)) + (match field_at(node, "body"@) {
            Some(b) => if 0 <= b < node.children@.len() {
                java_symbols_below(node.children@[b], file, Some(name), node.children@[b].children@.len() as int)
            } else {
                Seq::empty()
            },
            None => Seq::empty(),
        })
    } else {
        java_own(node, file, context) + java_symbols_below(node, file, context, node.children@.len() as int)
    }
}

/// The symbols that the first `k` children of `node` and the nodes below
/// them declare in the class `context`.
pub open spec fn java_symbols_below(node: SyntaxNode, file: Seq<char>, context: Option<Seq<char>>, k: int) -> Seq<
    CodeNodeView,
>
    decreases node, k,
{
    if k <= 0 || k > node.children@.len() {
        Seq::empty()
    } else {
        java_symbols_below(node, file, context, k - 1) + java_symbols(node.children@[k - 1], file, context)
    }
}

/// The view of an optional context.
pub open spec fn context_view(context: Option<&str>) -> Option<Seq<char>> {
    match context {
        Some(c) => Some(c@),
        None => None,
    }
}

/// Appends the class, interface or enum that `node` declares.
fn push_type(node: &SyntaxNode, file: &str, kind: NodeKind, out: &mut Vec<CodeNode>)
    ensures
        node_views(final(out)@) == node_views(old(out)@) + java_type_of(*node, file@, kind),
{
    let ghost start = node_views(out@);
    match child_by_field(node, "name") {
        Some(n) => {
            let name_node = &node.children[n];
            let name = name_node.text.as_str();
            let visibility = child_visibility(node, "modifiers", Visibility::Internal);
            out.push(plain_symbol(node, Some(name_node), name, name, kind, file).with_visibility(visibility));
            proof {
                assert(node_views(out@) =~= start + java_type_of(*node, file@, kind));
            }
        },
        None => {
            proof {
                assert(start + java_type_of(*node, file@, kind) =~= start);
            }
        },
    }
}

/// Appends the method that `node` declares.
fn push_method(node: &SyntaxNode, file: &str, context: Option<&str>, out: &mut Vec<CodeNode>)
    ensures
        node_views(final(out)@) == node_views(old(out)@) + java_method_of(*node, file@, context_view(context)),
{
    let ghost start = node_views(out@);
    match child_by_field(node, "name") {
        Some(n) => {
            let name_node = &node.children[n];
            let name = name_node.text.as_str();
            let qualified = qualify(context, ".", name);
            let visibility = child_visibility(node, "modifiers", Visibility::Internal);
            let signature = JavaParser::signature(
                Some(text_of_field(node, "type", "void")),
                name,
                Some(text_of_field(node, "parameters", "()")),
            );
            let references = call_references(node, "method_invocation", "method_invocation", "name");
            out.push(
                plain_symbol(node, Some(name_node), name, qualified.as_str(), NodeKind::Method, file).with_signature(
                    signature,
                ).with_visibility(visibility).with_references(references),
            );
            proof {
                assert(node_views(out@) =~= start + java_method_of(*node, file@, context_view(context)));
            }
        },
        None => {
            proof {
                assert(start + java_method_of(*node, file@, context_view(context)) =~= start);
            }
        },
    }
}

/// Appends the constructor that `node` declares.
fn push_constructor(node: &SyntaxNode, file: &str, context: Option<&str>, out: &mut Vec<CodeNode>)
    ensures
        node_views(final(out)@) == node_views(old(out)@) + java_constructor_of(
            *node,
            file@,
            context_view(context),
        ),
{
    let ghost start = node_views(out@);
    match child_by_field(node, "name") {
        Some(n) => {
            let name_node = &node.children[n];
            let name = name_node.text.as_str();
            let qualified = qualify(context, ".", name);
            let visibility = child_visibility(node, "modifiers", Visibility::Internal);
            let mut signature = String::from_str(name);
            signature.append(text_of_field(node, "parameters", "()"));
            out.push(
                plain_symbol(
                    node,
                    Some(name_node),
                    name,
                    qualified.as_str(),
                    NodeKind::Constructor,
                    file,
                ).with_signature(signature).with_visibility(visibility),
            );
            proof {
                assert(node_views(out@) =~= start + java_constructor_of(*node, file@, context_view(context)));
            }
        },
        None => {
            proof {
                assert(start + java_constructor_of(*node, file@, context_view(context)) =~= start);
            }
        },
    }
}

/// Appends the fields that the field declaration `node` declares.
fn push_fields(node: &SyntaxNode, file: &str, context: Option<&str>, out: &mut Vec<CodeNode>)
    ensures
        node_views(final(out)@) == node_views(old(out)@) + java_fields(
            *node,
            file@,
            context_view(context),
            node.children@.len() as int,
        ),
{
    let ghost start = node_views(out@);
    let ghost ctx = context_view(context);
    let visibility = child_visibility(node, "modifiers", Visibility::Internal);
    let mut i: usize = 0;
    proof {
        assert(start + java_fields(*node, file@, ctx, 0) =~= start);
    }
    while i < node.children.len()
        invariant
            i <= node.children.len(),
            ctx == context_view(context),
            visibility == java_visibility(*node),
            node_views(out@) == start + java_fields(*node, file@, ctx, i as int),
        decreases node.children.len() - i,
    {
        let ghost before = node_views(out@);
        let child = &node.children[i];
        if str_eq(child.kind.as_str(), "variable_declarator") {
            match child_by_field(child, "name") {
                Some(n) => {
                    let name_node = &child.children[n];
                    let name = name_node.text.as_str();
                    let qualified = qualify(context, ".", name);
                    out.push(
                        plain_symbol(
                            child,
                            Some(name_node),
                            name,
                            qualified.as_str(),
                            NodeKind::Field,
                            file,
                        ).with_visibility(visibility),
                    );
                    proof {
                        assert(node_views(out@) =~= before + java_field_of(*child, file@, ctx, visibility));
                    }
                },
                None => {
                    proof {
                        assert(before + java_field_of(*child, file@, ctx, visibility) =~= before);
                    }
                },
            }
            proof {
                assert(start + (java_fields(*node, file@, ctx, i as int) + java_field_of(
                    node.children@[i as int],
                    file@,
                    ctx,
                    visibility,
                )) =~= before + java_field_of(node.children@[i as int], file@, ctx, visibility));
            }
        }
        i = i + 1;
    }
}

/// Appends the package or import that `node` names.
fn push_named(node: &SyntaxNode, file: &str, kind: NodeKind, out: &mut Vec<CodeNode>)
    ensures
        node_views(final(out)@) == node_views(old(out)@) + java_named_of(*node, file@, kind),
{
    let ghost start = node_views(out@);
    match child_of_kind(node, "scoped_identifier", "identifier") {
        Some(i) => {
            let name = node.children[i].text.as_str();
            out.push(plain_symbol(node, None, name, name, kind, file));
            proof {
                assert(node_views(out@) =~= start + java_named_of(*node, file@, kind));
            }
        },
        None => {
            proof {
                assert(start + java_named_of(*node, file@, kind) =~= start);
            }
        },
    }
}

/// Appends the symbols that `node` itself declares, where it opens no
/// scope.
fn push_own(node: &SyntaxNode, file: &str, context: Option<&str>, out: &mut Vec<CodeNode>)
    ensures
        node_views(final(out)@) == node_views(old(out)@) + java_own(*node, file@, context_view(context)),
{
    let ghost start = node_views(out@);
    let kind = node.kind.as_str();
    if str_eq(kind, "enum_declaration") {
        push_type(node, file, NodeKind::Enum, out);
    } else if str_eq(kind, "method_declaration") {
        push_method(node, file, context, out);
    } else if str_eq(kind, "constructor_declaration") {
        push_constructor(node, file, context, out);
    } else if str_eq(kind, "field_declaration") {
        push_fields(node, file, context, out);
    } else if str_eq(kind, "package_declaration") {
        push_named(node, file, NodeKind::Module, out);
    } else if str_eq(kind, "import_declaration") {
        push_named(node, file, NodeKind::Import, out);
    } else {
        proof {
            assert(start + java_own(*node, file@, context_view(context)) =~= start);
        }
    }
}

/// Appends the symbols that the children of `node` and the nodes below them
/// declare in the class `context`.
fn push_below(node: &SyntaxNode, file: &str, context: Option<&str>, out: &mut Vec<CodeNode>)
    ensures
        node_views(final(out)@) == node_views(old(out)@) + java_symbols_below(
            *node,
            file@,
            context_view(context),
            node.children@.len() as int,
        ),
    decreases node, 0nat,
{
    let ghost start = node_views(out@);
    let ghost ctx = context_view(context);
    let mut i: usize = 0;
    proof {
        assert(start + java_symbols_below(*node, file@, ctx, 0) =~= start);
    }
    while i < node.children.len()
        invariant
            i <= node.children.len(),
            ctx == context_view(context),
            node_views(out@) == start + java_symbols_below(*node, file@, ctx, i as int),
        decreases node.children.len() - i,
    {
        let ghost before = node_views(out@);
        push_symbols(&node.children[i], file, context, out);
        proof {
            assert(start + (java_symbols_below(*node, file@, ctx, i as int) + java_symbols(
                node.children@[i as int],
                file@,
                ctx,
            )) =~= before + java_symbols(node.children@[i as int], file@, ctx));
        }
        i = i + 1;
    }
}

/// Appends the symbols that `node` and the nodes below it declare in the
/// class `context`.
fn push_symbols(node: &SyntaxNode, file: &str, context: Option<&str>, out: &mut Vec<CodeNode>)
    ensures
        node_views(final(out)@) == node_views(old(out)@) + java_symbols(*node, file@, context_view(context)),
    decreases node, 1nat,
{
    let ghost start = node_views(out@);
    let ghost ctx = context_view(context);
    let kind = node.kind.as_str();
    let is_class = str_eq(kind, "class_declaration");
    let is_interface = str_eq(kind, "interface_declaration");
    if is_class || is_interface {
        match child_by_field(node, "name") {
            Some(n) => {
                let type_kind = if is_class {
                    NodeKind::Class
                } else {
                    NodeKind::Interface
                };
                push_type(node, file, type_kind, out);
                let ghost base = node_views(out@);
                let name = node.children[n].text.as_str();
                match child_by_field(node, "body") {
                    Some(b) => {
                        push_below(&node.children[b], file, Some(name), out);
                        proof {
                            let below = java_symbols_below(
                                node.children@[b as int],
                                file@,
                                Some(name@),
                                node.children@[b as int].children@.len() as int,
                            );
                            assert(start + (java_type_of(*node, file@, type_kind) + below) =~= base + below);
                        }
                    },
                    None => {
                        proof {
                            assert(start + (java_type_of(*node, file@, type_kind) + Seq::<CodeNodeView>::empty())
                                =~= base);
                        }
                    },
                }
                return ;
            },
            None => {},
        }
    }
    push_own(node, file, context, out);
    let ghost base = node_views(out@);
    push_below(node, file, context, out);
    proof {
        let below = java_symbols_below(*node, file@, ctx, node.children@.len() as int);
        assert(start + (java_own(*node, file@, ctx) + below) =~= base + below);
    }
}

impl JavaParser {
    /// The symbols that the syntax tree `tree` of the file `file_path`
    /// declares, in the order of the source.
    pub fn extract_nodes(tree: &SyntaxNode, file_path: &str) -> (out: Vec<CodeNode>)
        ensures
            node_views(out@) == java_symbols(*tree, file_path@, None),
    {
        let mut out: Vec<CodeNode> = Vec::new();
        proof {
            assert(node_views(out@) =~= Seq::<CodeNodeView>::empty());
        }
        push_symbols(tree, file_path, None, &mut out);
        proof {
            assert(Seq::<CodeNodeView>::empty() + java_symbols(*tree, file_path@, None) =~= java_symbols(
                *tree,
                file_path@,
                None,
            ));
        }
        out
    }

    /// The symbols that `source`, the text of the Java file `file_path`,
    /// declares; or `None` if the parser yields no tree.
    pub fn parse(source: &str, file_path: &str) -> (out: Option<Vec<CodeNode>>)
        ensures
            match syntax_tree(LanguageTag::Java, source@) {
                Some(tree) => out.is_some() && node_views(out.unwrap()@) == java_symbols(tree, file_path@, None),
                None => out.is_none(),
            },
    {
        let grammar = grammar_for(LanguageTag::Java);
        match parse_tree(&grammar, source) {
            Some(tree) => Some(Self::extract_nodes(&tree, file_path)),
            None => None,
        }
    }
}

} // verus!
