//! The Dart extractor: classes, mixins, extensions, enums, functions,
//! methods, constructors, accessors, imports, libraries and variables.

use vstd::prelude::*;
use vstd::string::*;
use crate::extract::{DartParser, qualify, scoped_name, typed_signature, underscore_visibility};
use crate::go::named_plainly;
use crate::java::context_view;
use crate::node::{CodeNode, CodeNodeView, NodeKind, Visibility, node_views};
use crate::syntax::{LanguageTag, SyntaxNode, grammar_for, parse_tree, syntax_tree};
use crate::text::str_eq;
use crate::tree::{
    Traits, call_references, child_by_field, child_of_kind, column_of, directive_name, field_at,
    field_text, kind_at, name_in_directive, plain_symbol, references_of, symbol_at, text_of_field,
};

verus! {

/// The place of the first `c` in `s` from `start` on.
pub open spec fn index_from(s: Seq<char>, c: char, start: int) -> Option<int>
    decreases s.len() - start,
{
    if start < 0 || start >= s.len() {
        None
    } else if s[start] == c {
        Some(start)
    } else {
        index_from(s, c, start + 1)
    }
}

/// The place of the first quote in `s`: that of the first single quote, or
/// of the first double quote if there is no single one.
pub open spec fn quote_in(s: Seq<char>) -> Option<int> {
    match index_from(s, '\'', 0) {
        Some(i) => Some(i),
        None => index_from(s, '"', 0),
    }
}

/// What `index_from` finds is a place from `start` on.
pub proof fn lemma_index_from(s: Seq<char>, c: char, start: int)
    requires
        0 <= start,
    ensures
        index_from(s, c, start).is_some() ==> start <= index_from(s, c, start).unwrap() < s.len(),
    decreases s.len() - start,
{
    if start < s.len() && s[start] != c {
        lemma_index_from(s, c, start + 1);
    }
}

/// The path that an import names: what stands between the first quote of its
/// text and the next quote after it.
pub open spec fn quoted_path(text: Seq<char>) -> Option<Seq<char>> {
    match quote_in(text) {
        Some(start) => {
            let rest = text.skip(start + 1);
            match quote_in(rest) {
                Some(end) => Some(rest.subrange(0, end)),
                None => None,
            }
        },
        None => None,
    }
}

/// The place of the first `c` in `s`.
pub fn find_char(s: &str, c: char) -> (out: Option<usize>)
    ensures
        index_from(s@, c, 0) == (match out {
            Some(i) => Some(i as int),
            None => None,
        }),
        out.is_some() ==> out.unwrap() < s@.len(),
{
    let len = s.unicode_len();
    let mut i: usize = 0;
    while i < len
        invariant
            i <= len,
            len == s@.len(),
            index_from(s@, c, 0) == index_from(s@, c, i as int),
        decreases len - i,
    {
        if s.get_char(i) == c {
            return Some(i);
        }
        i = i + 1;
    }
    None
}

/// The place of the first quote in `s`.
pub fn find_quote(s: &str) -> (out: Option<usize>)
    ensures
        quote_in(s@) == (match out {
            Some(i) => Some(i as int),
            None => None,
        }),
        out.is_some() ==> out.unwrap() < s@.len(),
{
    match find_char(s, '\'') {
        Some(i) => Some(i),
        None => find_char(s, '"'),
    }
}

/// The path that the import with the text `text` names.
pub fn import_path(text: &str) -> (out: Option<String>)
    ensures
        quoted_path(text@) == (match out {
            Some(path) => Some(path@),
            None => None,
        }),
{
    let start = match find_quote(text) {
        Some(start) => start,
        None => {
            return None;
        },
    };
    let len = text.unicode_len();
    let rest = text.substring_char(start + 1, len);
    proof {
        assert(text@.subrange(start + 1, len as int) =~= text@.skip(start + 1));
    }
    match find_quote(rest) {
        Some(end) => Some(String::from_str(rest.substring_char(0, end))),
        None => None,
    }
}

/// Whether `node` opens a scope: whether it is a class or a mixin with a
/// name, or an extension.
pub open spec fn dart_scopes(node: SyntaxNode) -> bool {
    ((node.kind@ == "class_definition"@ || node.kind@ == "mixin_declaration"@) && field_at(node, "name"@).is_some())
        || node.kind@ == "extension_declaration"@
}

/// The name of the scope that `node` opens; an extension without a name is
/// anonymous.
pub open spec fn dart_scope_name(node: SyntaxNode) -> Seq<char> {
    field_text(node, "name"@, "<anonymous>"@)
}

/// The class, mixin or extension that the scope `node` defines.
pub open spec fn dart_scope_of(node: SyntaxNode, file: Seq<char>) -> CodeNodeView {
    if node.kind@ == "extension_declaration"@ {
        symbol_at(
            node,
            0,
            file,
            Traits {
                name: dart_scope_name(node),
                qualified_name: dart_scope_name(node),
                kind: NodeKind::TypeAlias,
                visibility: Visibility::Public,
                signature: None,
                references: Seq::empty(),
            },
        )
    } else {
        let n = field_at(node, "name"@).unwrap();
        symbol_at(
            node,
            column_of(Some(node.children@[n])),
            file,
            Traits {
                name: node.children@[n].text@,
                qualified_name: node.children@[n].text@,
                kind: if node.kind@ == "class_definition"@ {
                    NodeKind::Class
                } else {
                    NodeKind::Interface
                },
                visibility: underscore_visibility(node.children@[n].text@),
                signature: None,
                references: Seq::empty(),
            },
        )
    }
}

/// What kind of member a declaration is.
#[derive(Clone, Copy, Debug, PartialEq, Eq, Structural)]
pub enum Member {
    /// An enum: named plainly, without signature.
    Enum,
    /// A function: only outside a scope, named plainly, with signature and
    /// references.
    Function,
    /// A method: qualified by its scope, with signature and references.
    Method,
    /// A getter or setter: qualified by its scope, without signature.
    Accessor,
}

/// The symbol that the declaration `node`, a member of the kind `member`,
/// declares in `context`, if it has a name.
pub open spec fn dart_member_of(node: SyntaxNode, file: Seq<char>, context: Option<Seq<char>>, member: Member) -> Seq<
    CodeNodeView,
> {
    match field_at(node, "name"@) {
        Some(n) => {
            let name = node.children@[n].text@;
            let plain = member == Member::Enum || member == Member::Function;
            let full = member == Member::Function || member == Member::Method;
            if member == Member::Function && context.is_some() {
                Seq::empty()
            } else {
                seq![
                    symbol_at(
                        node,
                        column_of(Some(node.children@[n])),
                        file,
                        Traits {
                            name: name,
                            qualified_name: if plain {
                                name
                            } else {
                                scoped_name(context, "."@, name)
                            },
                            kind: match member {
                                Member::Enum => NodeKind::Enum,
                                Member::Function => NodeKind::Function,
                                Member::Method => NodeKind::Method,
                                Member::Accessor => NodeKind::Method,
                            },
                            visibility: underscore_visibility(name),
                            signature: if full {
                                Some(
                                    typed_signature(
                                        field_text(node, "return_type"@, "void"@),
                                        name,
                                        field_text(node, "parameters"@, "()"@),
                                    ),
                                )
                            } else {
                                None
                            },
                            references: if full {
                                references_of(node, "call_expression"@, "selector"@, "function"@)
                            } else {
                                Seq::empty()
                            },
                        },
                    ),
                ]
            }
        },
        None => Seq::empty(),
    }
}

/// The constructor that `node` declares in `context`: it is named by the
/// first identifier among its children.
pub open spec fn dart_constructor_of(node: SyntaxNode, file: Seq<char>, context: Option<Seq<char>>) -> Seq<
    CodeNodeView,
> {
    match kind_at(node, "identifier"@, "identifier"@) {
        Some(i) => seq![
            symbol_at(
                node,
                0,
                file,
                Traits {
                    name: node.children@[i].text@,
                    qualified_name: scoped_name(context, "."@, node.children@[i].text@),
                    kind: NodeKind::Constructor,
                    visibility: underscore_visibility(node.children@[i].text@),
                    signature: None,
                    references: Seq::empty(),
                },
            ),
        ],
        None => Seq::empty(),
    }
}

/// The variable that the definition `node` declares: it is named by the
/// first identifier among its children.
pub open spec fn dart_variable_of(node: SyntaxNode, file: Seq<char>) -> Seq<CodeNodeView> {
    match kind_at(node, "identifier"@, "identifier"@) {
        Some(i) => seq![
            symbol_at(
                node,
                0,
                file,
                Traits {
                    name: node.children@[i].text@,
                    qualified_name: node.children@[i].text@,
                    kind: NodeKind::Variable,
                    visibility: underscore_visibility(node.children@[i].text@),
                    signature: None,
                    references: Seq::empty(),
                },
            ),
        ],
        None => Seq::empty(),
    }
}

/// The variables that the definitions among the first `k` children of the
/// top-level definition `node` declare.
pub open spec fn dart_variables(node: SyntaxNode, file: Seq<char>, k: int) -> Seq<CodeNodeView>
    decreases k,
{
    if k <= 0 || k > node.children@.len() {
        Seq::empty()
    } else if node.children@[k - 1].kind@ == "initialized_variable_definition"@ || node.children@[k - 1].kind@
        == "static_final_declaration"@ {
        dart_variables(node, file, k - 1) + dart_variable_of(node.children@[k - 1], file)
    } else {
        dart_variables(node, file, k - 1)
    }
}

/// The import that `node` names, if its text holds a quoted path.
pub open spec fn dart_import_of(node: SyntaxNode, file: Seq<char>) -> Seq<CodeNodeView> {
    match quoted_path(node.text@) {
        Some(path) => seq![named_plainly(node, file, path, NodeKind::Import)],
        None => Seq::empty(),
    }
}

/// The symbols that `node` itself declares in `context`, where it opens no
/// scope.
pub open spec fn dart_own(node: SyntaxNode, file: Seq<char>, context: Option<Seq<char>>) -> Seq<CodeNodeView> {
    let kind = node.kind@;
    if kind == "enum_declaration"@ {
        dart_member_of(node, file, context, Member::Enum)
    } else if kind == "function_signature"@ || kind == "function_definition"@ {
        dart_member_of(node, file, context, Member::Function)
    } else if kind == "method_signature"@ || kind == "method_definition"@ {
        dart_member_of(node, file, context, Member::Method)
    } else if kind == "constructor_signature"@ {
        dart_constructor_of(node, file, context)
    } else if kind == "getter_signature"@ || kind == "setter_signature"@ {
        dart_member_of(node, file, context, Member::Accessor)
    } else if kind == "import_or_export"@ || kind == "import_specification"@ {
        dart_import_of(node, file)
    } else if kind == "library_name"@ {
        seq![named_plainly(node, file, directive_name(node.text@, "library "@), NodeKind::Module)]
    } else if kind == "top_level_definition"@ {
        dart_variables(node, file, node.children@.len() as int)
    } else {
        Seq::empty()
    }
}

/// The symbols that `node` and the nodes below it declare in `context`, in
/// the order of the source. A class, mixin or extension is followed by the
/// symbols of its body, which are its members.
pub open spec fn dart_symbols(node: SyntaxNode, file: Seq<char>, context: Option<Seq<char>>) -> Seq<CodeNodeView>
    decreases node, node.children@.len() + 1,
{
    if dart_scopes(node) {
        let name = if node.kind@ == "extension_declaration"@ {
            dart_scope_name(node)
        } else {
            node.children@[field_at(node, "name"@).unwrap()].text@
        };
        seq![dart_scope_of(node, file)] + (match field_at(node, "body"@) {
            Some(b) => if 0 <= b < node.children@.len() {
                dart_symbols_below(node.children@[b], file, Some(name), node.children@[b].children@.len() as int)
            } else {
                Seq::empty()
            },
            None => Seq::empty(),
        })
    } else {
        dart_own(node, file, context) + dart_symbols_below(node, file, context, node.children@.len() as int)
    }
}

/// The symbols that the first `k` children of `node` and the nodes below
/// them declare in `context`.
pub open spec fn dart_symbols_below(node: SyntaxNode, file: Seq<char>, context: Option<Seq<char>>, k: int) -> Seq<
    CodeNodeView,
>
    decreases node, k,
{
    if k <= 0 || k > node.children@.len() {
        Seq::empty()
    } else {
        dart_symbols_below(node, file, context, k - 1) + dart_symbols(node.children@[k - 1], file, context)
    }
}

/// Appends the symbol that the member `node` declares.
fn push_member(node: &SyntaxNode, file: &str, context: Option<&str>, member: Member, out: &mut Vec<CodeNode>)
    ensures
        node_views(final(out)@) == node_views(old(out)@) + dart_member_of(
            *node,
            file@,
            context_view(context),
            member,
        ),
{
    let ghost start = node_views(out@);
    let ghost ctx = context_view(context);
    let n = match child_by_field(node, "name") {
        Some(n) => n,
        None => {
            proof {
                assert(start + dart_member_of(*node, file@, ctx, member) =~= start);
            }
            return ;
        },
    };
    let name_node = &node.children[n];
    let name = name_node.text.as_str();
    let (kind, plain, full) = match member {
        Member::Enum => (NodeKind::Enum, true, false),
        Member::Function => (NodeKind::Function, true, true),
        Member::Method => (NodeKind::Method, false, true),
        Member::Accessor => (NodeKind::Method, false, false),
    };
    if plain && full && context.is_some() {
        proof {
            assert(start + dart_member_of(*node, file@, ctx, member) =~= start);
        }
        return ;
    }
    let qualified = if plain {
        String::from_str(name)
    } else {
        qualify(context, ".", name)
    };
    let symbol = plain_symbol(node, Some(name_node), name, qualified.as_str(), kind, file);
    let symbol = if full {
        let signature = DartParser::signature(
            Some(text_of_field(node, "return_type", "void")),
            name,
            Some(text_of_field(node, "parameters", "()")),
        );
        let references = call_references(node, "call_expression", "selector", "function");
        symbol.with_signature(signature).with_visibility(DartParser::detect_visibility(name)).with_references(
            references,
        )
    } else {
        symbol.with_visibility(DartParser::detect_visibility(name))
    };
    out.push(symbol);
    proof {
        assert(node_views(out@) =~= start + dart_member_of(*node, file@, ctx, member));
    }
}

/// Appends the constructor that `node` declares.
fn push_constructor(node: &SyntaxNode, file: &str, context: Option<&str>, out: &mut Vec<CodeNode>)
    ensures
        node_views(final(out)@) == node_views(old(out)@) + dart_constructor_of(
            *node,
            file@,
            context_view(context),
        ),
{
    let ghost start = node_views(out@);
    let ghost ctx = context_view(context);
    match child_of_kind(node, "identifier", "identifier") {
        Some(i) => {
            let name = node.children[i].text.as_str();
            let qualified = qualify(context, ".", name);
            out.push(
                plain_symbol(node, None, name, qualified.as_str(), NodeKind::Constructor, file).with_visibility(
                    DartParser::detect_visibility(name),
                ),
            );
            proof {
                assert(node_views(out@) =~= start + dart_constructor_of(*node, file@, ctx));
            }
        },
        None => {
            proof {
                assert(start + dart_constructor_of(*node, file@, ctx) =~= start);
            }
        },
    }
}

/// Appends the variable that the definition `node` declares.
fn push_variable(node: &SyntaxNode, file: &str, out: &mut Vec<CodeNode>)
    ensures
        node_views(final(out)@) == node_views(old(out)@) + dart_variable_of(*node, file@),
{
    let ghost start = node_views(out@);
    match child_of_kind(node, "identifier", "identifier") {
        Some(i) => {
            let name = node.children[i].text.as_str();
            out.push(
                plain_symbol(node, None, name, name, NodeKind::Variable, file).with_visibility(
                    DartParser::detect_visibility(name),
                ),
            );
            proof {
                assert(node_views(out@) =~= start + dart_variable_of(*node, file@));
            }
        },
        None => {
            proof {
                assert(start + dart_variable_of(*node, file@) =~= start);
            }
        },
    }
}

/// Appends the symbols that `node` itself declares, where it opens no
/// scope.
fn push_own(node: &SyntaxNode, file: &str, context: Option<&str>, out: &mut Vec<CodeNode>)
    ensures
        node_views(final(out)@) == node_views(old(out)@) + dart_own(*node, file@, context_view(context)),
{
    let ghost start = node_views(out@);
    let ghost ctx = context_view(context);
    let kind = node.kind.as_str();
    if str_eq(kind, "enum_declaration") {
        push_member(node, file, context, Member::Enum, out);
    } else if str_eq(kind, "function_signature") || str_eq(kind, "function_definition") {
        push_member(node, file, context, Member::Function, out);
    } else if str_eq(kind, "method_signature") || str_eq(kind, "method_definition") {
        push_member(node, file, context, Member::Method, out);
    } else if str_eq(kind, "constructor_signature") {
        push_constructor(node, file, context, out);
    } else if str_eq(kind, "getter_signature") || str_eq(kind, "setter_signature") {
        push_member(node, file, context, Member::Accessor, out);
    } else if str_eq(kind, "import_or_export") || str_eq(kind, "import_specification") {
        match import_path(node.text.as_str()) {
            Some(path) => {
                out.push(plain_symbol(node, None, path.as_str(), path.as_str(), NodeKind::Import, file));
                proof {
                    assert(node_views(out@) =~= start + dart_own(*node, file@, ctx));
                }
            },
            None => {
                proof {
                    assert(start + dart_own(*node, file@, ctx) =~= start);
                }
            },
        }
    } else if str_eq(kind, "library_name") {
        let name = name_in_directive(node.text.as_str(), "library ");
        out.push(plain_symbol(node, None, name.as_str(), name.as_str(), NodeKind::Module, file));
        proof {
            assert(node_views(out@) =~= start + dart_own(*node, file@, ctx));
        }
    } else if str_eq(kind, "top_level_definition") {
        let mut i: usize = 0;
        proof {
            assert(start + dart_variables(*node, file@, 0) =~= start);
        }
        while i < node.children.len()
            invariant
                i <= node.children.len(),
                node_views(out@) == start + dart_variables(*node, file@, i as int),
            decreases node.children.len() - i,
        {
            let ghost before = node_views(out@);
            let child = &node.children[i];
            if str_eq(child.kind.as_str(), "initialized_variable_definition") || str_eq(
                child.kind.as_str(),
                "static_final_declaration",
            ) {
                push_variable(child, file, out);
                proof {
                    assert(start + (dart_variables(*node, file@, i as int) + dart_variable_of(
                        node.children@[i as int],
                        file@,
                    )) =~= before + dart_variable_of(node.children@[i as int], file@));
                }
            }
            i = i + 1;
        }
    } else {
        proof {
            assert(start + dart_own(*node, file@, ctx) =~= start);
        }
    }
}

/// Appends the symbols that the children of `node` and the nodes below them
/// declare in `context`.
fn push_below(node: &SyntaxNode, file: &str, context: Option<&str>, out: &mut Vec<CodeNode>)
    ensures
        node_views(final(out)@) == node_views(old(out)@) + dart_symbols_below(
            *node,
            file@,
            context_view(context),
            node.children@.len() as int,
        ),
    decreases node, 0nat,
{
    let ghost start = node_views(out@);
    let ghost ctx = context_view(context);
    let mut i: usize = 0;
    proof {
        assert(start + dart_symbols_below(*node, file@, ctx, 0) =~= start);
    }
    while i < node.children.len()
        invariant
            i <= node.children.len(),
            ctx == context_view(context),
            node_views(out@) == start + dart_symbols_below(*node, file@, ctx, i as int),
        decreases node.children.len() - i,
    {
        let ghost before = node_views(out@);
        push_symbols(&node.children[i], file, context, out);
        proof {
            assert(start + (dart_symbols_below(*node, file@, ctx, i as int) + dart_symbols(
                node.children@[i as int],
                file@,
                ctx,
            )) =~= before + dart_symbols(node.children@[i as int], file@, ctx));
        }
        i = i + 1;
    }
}

/// Appends the symbols that `node` and the nodes below it declare in
/// `context`.
fn push_symbols(node: &SyntaxNode, file: &str, context: Option<&str>, out: &mut Vec<CodeNode>)
    ensures
        node_views(final(out)@) == node_views(old(out)@) + dart_symbols(*node, file@, context_view(context)),
    decreases node, 1nat,
{
    let ghost start = node_views(out@);
    let ghost ctx = context_view(context);
    let kind = node.kind.as_str();
    let is_extension = str_eq(kind, "extension_declaration");
    let is_class = str_eq(kind, "class_definition");
    let is_mixin = str_eq(kind, "mixin_declaration");
    let named = child_by_field(node, "name");
    if is_extension || ((is_class || is_mixin) && named.is_some()) {
        let name = text_of_field(node, "name", "<anonymous>");
        let symbol = if is_extension {
            plain_symbol(node, None, name, name, NodeKind::TypeAlias, file).with_visibility(Visibility::Public)
        } else {
            let name_node = &node.children[named.unwrap()];
            let scope_kind = if is_class {
                NodeKind::Class
            } else {
                NodeKind::Interface
            };
            plain_symbol(node, Some(name_node), name, name, scope_kind, file).with_visibility(
                DartParser::detect_visibility(name),
            )
        };
        out.push(symbol);
        let ghost base = node_views(out@);
        proof {
            assert(base =~= start + seq![dart_scope_of(*node, file@)]);
        }
        match child_by_field(node, "body") {
            Some(b) => {
                push_below(&node.children[b], file, Some(name), out);
                proof {
                    let below = dart_symbols_below(
                        node.children@[b as int],
                        file@,
                        Some(name@),
                        node.children@[b as int].children@.len() as int,
                    );
                    assert(start + (seq![dart_scope_of(*node, file@)] + below) =~= base + below);
                }
            },
            None => {
                proof {
                    assert(start + (seq![dart_scope_of(*node, file@)] + Seq::<CodeNodeView>::empty()) =~= base);
                }
            },
        }
        return ;
    }
    push_own(node, file, context, out);
    let ghost base = node_views(out@);
    push_below(node, file, context, out);
    proof {
        let below = dart_symbols_below(*node, file@, ctx, node.children@.len() as int);
        assert(start + (dart_own(*node, file@, ctx) + below) =~= base + below);
    }
}

impl DartParser {
    /// The symbols that the syntax tree `tree` of the file `file_path`
    /// declares, in the order of the source.
    pub fn extract_nodes(tree: &SyntaxNode, file_path: &str) -> (out: Vec<CodeNode>)
        ensures
            node_views(out@) == dart_symbols(*tree, file_path@, None),
    {
        let mut out: Vec<CodeNode> = Vec::new();
        proof {
            assert(node_views(out@) =~= Seq::<CodeNodeView>::empty());
        }
        push_symbols(tree, file_path, None, &mut out);
        proof {
            assert(Seq::<CodeNodeView>::empty() + dart_symbols(*tree, file_path@, None) =~= dart_symbols(
                *tree,
                file_path@,
                None,
            ));
        }
        out
    }

    /// The symbols that `source`, the text of the Dart file `file_path`,
    /// declares; or `None` if the parser yields no tree.
    pub fn parse(source: &str, file_path: &str) -> (out: Option<Vec<CodeNode>>)
        ensures
            match syntax_tree(LanguageTag::Dart, source@) {
                Some(tree) => out.is_some() && node_views(out.unwrap()@) == dart_symbols(tree, file_path@, None),
                None => out.is_none(),
            },
    {
        let grammar = grammar_for(LanguageTag::Dart);
        match parse_tree(&grammar, source) {
            Some(tree) => Some(Self::extract_nodes(&tree, file_path)),
            None => None,
        }
    }
}

} // verus!
