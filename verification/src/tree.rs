//! Walking a syntax tree: what the language extractors share.

use vstd::prelude::*;
use vstd::string::*;
use crate::captures::{line_of, low32, position32};
use crate::extract::{modifier_visibility, names_visibility, one_based, visibility_keyword};
use crate::node::{CodeNode, CodeNodeView, NodeKind, Visibility, strings_view, symbol_id};
use crate::syntax::SyntaxNode;
use crate::text::{lex_le, str_eq, str_le};

verus! {

/// The place of the first of `children`, from `start` on, that fills the
/// field `field`.
pub open spec fn field_from(children: Seq<SyntaxNode>, field: Seq<char>, start: int) -> Option<int>
    decreases children.len() - start,
{
    if start < 0 || start >= children.len() {
        None
    } else if children[start].field.is_some() && children[start].field.unwrap()@ == field {
        Some(start)
    } else {
        field_from(children, field, start + 1)
    }
}

/// The place of the first child of `node` that fills the field `field`.
pub open spec fn field_at(node: SyntaxNode, field: Seq<char>) -> Option<int> {
    field_from(node.children@, field, 0)
}

/// What `field_from` finds is a child from `start` on.
pub proof fn lemma_field_from(children: Seq<SyntaxNode>, field: Seq<char>, start: int)
    requires
        0 <= start,
    ensures
        field_from(children, field, start).is_some() ==> start <= field_from(children, field, start).unwrap()
            < children.len(),
    decreases children.len() - start,
{
    if start < children.len() && !(children[start].field.is_some() && children[start].field.unwrap()@ == field) {
        lemma_field_from(children, field, start + 1);
    }
}

/// The place of the first child of `node` that fills the field `field`.
pub fn child_by_field(node: &SyntaxNode, field: &str) -> (out: Option<usize>)
    ensures
        field_at(*node, field@) == (match out {
            Some(i) => Some(i as int),
            None => None,
        }),
        out.is_some() ==> out.unwrap() < node.children@.len(),
{
    let mut i: usize = 0;
    while i < node.children.len()
        invariant
            i <= node.children.len(),
            field_at(*node, field@) == field_from(node.children@, field@, i as int),
        decreases node.children.len() - i,
    {
        let hit = match &node.children[i].field {
            Some(f) => str_eq(f.as_str(), field),
            None => false,
        };
        if hit {
            return Some(i);
        }
        i = i + 1;
    }
    None
}

/// The text of the first child of `node` that fills the field `field`, or
/// `otherwise` if there is none.
pub open spec fn field_text(node: SyntaxNode, field: Seq<char>, otherwise: Seq<char>) -> Seq<char> {
    match field_at(node, field) {
        Some(i) => node.children@[i].text@,
        None => otherwise,
    }
}

/// The text of the first child of `node` that fills the field `field`, or
/// `otherwise` if there is none.
pub fn text_of_field<'a>(node: &'a SyntaxNode, field: &str, otherwise: &'a str) -> (out: &'a str)
    ensures
        out@ == field_text(*node, field@, otherwise@),
{
    match child_by_field(node, field) {
        Some(i) => node.children[i].text.as_str(),
        None => otherwise,
    }
}

/// The place of the first of `children`, from `start` on, whose kind is `a`
/// or `b`.
pub open spec fn kind_from(children: Seq<SyntaxNode>, a: Seq<char>, b: Seq<char>, start: int) -> Option<int>
    decreases children.len() - start,
{
    if start < 0 || start >= children.len() {
        None
    } else if children[start].kind@ == a || children[start].kind@ == b {
        Some(start)
    } else {
        kind_from(children, a, b, start + 1)
    }
}

/// The place of the first child of `node` whose kind is `a` or `b`.
pub open spec fn kind_at(node: SyntaxNode, a: Seq<char>, b: Seq<char>) -> Option<int> {
    kind_from(node.children@, a, b, 0)
}

/// The place of the first child of `node` whose kind is `a` or `b`.
pub fn child_of_kind(node: &SyntaxNode, a: &str, b: &str) -> (out: Option<usize>)
    ensures
        kind_at(*node, a@, b@) == (match out {
            Some(i) => Some(i as int),
            None => None,
        }),
        out.is_some() ==> out.unwrap() < node.children@.len(),
{
    let mut i: usize = 0;
    while i < node.children.len()
        invariant
            i <= node.children.len(),
            kind_at(*node, a@, b@) == kind_from(node.children@, a@, b@, i as int),
        decreases node.children.len() - i,
    {
        if str_eq(node.children[i].kind.as_str(), a) || str_eq(node.children[i].kind.as_str(), b) {
            return Some(i);
        }
        i = i + 1;
    }
    None
}

/// The visibility that the children of kind `marker` among `children`, from
/// `start` on, give: that of the first whose text names one, or `fallback`.
pub open spec fn visibility_from(children: Seq<SyntaxNode>, marker: Seq<char>, start: int, fallback: Visibility) -> Visibility
    decreases children.len() - start,
{
    if start < 0 || start >= children.len() {
        fallback
    } else if children[start].kind@ == marker && names_visibility(children[start].text@) {
        modifier_visibility(children[start].text@, fallback)
    } else {
        visibility_from(children, marker, start + 1, fallback)
    }
}

/// The visibility that the children of kind `marker` of `node` give, or
/// `fallback`.
pub open spec fn visibility_of(node: SyntaxNode, marker: Seq<char>, fallback: Visibility) -> Visibility {
    visibility_from(node.children@, marker, 0, fallback)
}

/// The visibility that the children of kind `marker` of `node` give, or
/// `fallback`.
pub fn child_visibility(node: &SyntaxNode, marker: &str, fallback: Visibility) -> (out: Visibility)
    ensures
        out == visibility_of(*node, marker@, fallback),
{
    let mut i: usize = 0;
    while i < node.children.len()
        invariant
            i <= node.children.len(),
            visibility_of(*node, marker@, fallback) == visibility_from(node.children@, marker@, i as int, fallback),
        decreases node.children.len() - i,
    {
        if str_eq(node.children[i].kind.as_str(), marker) {
            match visibility_keyword(node.children[i].text.as_str()) {
                Some(v) => {
                    proof {
                        assert(v == modifier_visibility(node.children@[i as int].text@, fallback));
                    }
                    return v;
                },
                None => {
                    proof {
                        assert(fallback == modifier_visibility(node.children@[i as int].text@, fallback));
                    }
                },
            }
        }
        i = i + 1;
    }
    fallback
}

/// What a symbol is, apart from where it is.
pub struct Traits {
    pub name: Seq<char>,
    pub qualified_name: Seq<char>,
    pub kind: NodeKind,
    pub visibility: Visibility,
    pub signature: Option<Seq<char>>,
    pub references: Seq<Seq<char>>,
}

/// The symbol with the traits `traits` that `node` defines in `file`, with
/// its name at `column`.
pub open spec fn symbol_at(node: SyntaxNode, column: u32, file: Seq<char>, traits: Traits) -> CodeNodeView {
    CodeNodeView {
        id: symbol_id(file, traits.qualified_name),
        name: traits.name,
        qualified_name: traits.qualified_name,
        kind: traits.kind,
        file: file,
        line_start: line_of(node.start_row),
        line_end: line_of(node.end_row),
        column: column,
        byte_start: low32(node.start_byte),
        byte_end: low32(node.end_byte),
        visibility: traits.visibility,
        signature: traits.signature,
        references: traits.references,
    }
}

/// The column at which the name of a symbol starts: that of the node that
/// names it, or zero where none is given.
pub open spec fn column_of(name_node: Option<SyntaxNode>) -> u32 {
    match name_node {
        Some(n) => low32(n.start_column),
        None => 0,
    }
}

/// The symbol named `name` of kind `kind` that `node` defines in `file`,
/// with its name at the place of `name_node`, `Internal`, and without
/// signature or references.
pub fn plain_symbol(
    node: &SyntaxNode,
    name_node: Option<&SyntaxNode>,
    name: &str,
    qualified: &str,
    kind: NodeKind,
    file: &str,
) -> (out: CodeNode)
    ensures
        out@ == symbol_at(
            *node,
            column_of(
                match name_node {
                    Some(n) => Some(*n),
                    None => None,
                },
            ),
            file@,
            Traits {
                name: name@,
                qualified_name: qualified@,
                kind: kind,
                visibility: Visibility::Internal,
                signature: None,
                references: Seq::empty(),
            },
        ),
{
    let symbol = CodeNode::new(name, qualified, kind, file).with_lines(
        one_based(node.start_row),
        one_based(node.end_row),
    ).with_bytes(position32(node.start_byte), position32(node.end_byte));
    match name_node {
        Some(n) => symbol.with_column(position32(n.start_column)),
        None => symbol,
    }
}

/// `list` with `x` put in its place: before the first text that comes
/// after it, unless `list` already holds it.
pub open spec fn put(list: Seq<Seq<char>>, x: Seq<char>) -> Seq<Seq<char>>
    decreases list.len(),
{
    if list.len() == 0 {
        seq![x]
    } else if list.last() == x {
        list
    } else if lex_le(list.last(), x) {
        list.push(x)
    } else {
        put(list.drop_last(), x).push(list.last())
    }
}

/// The texts of `list`, each once, in ascending order.
pub open spec fn sorted_set(list: Seq<Seq<char>>) -> Seq<Seq<char>>
    decreases list.len(),
{
    if list.len() == 0 {
        Seq::empty()
    } else {
        put(sorted_set(list.drop_last()), list.last())
    }
}

/// Puts `x` in its place in `list`.
pub fn put_in(list: &mut Vec<String>, x: String)
    ensures
        strings_view(final(list)@) == put(strings_view(old(list)@), x@),
{
    let ghost start = strings_view(list@);
    let mut tail: Vec<String> = Vec::new();
    let mut done = false;
    let mut skip = false;
    proof {
        assert(strings_view(tail@) =~= Seq::<Seq<char>>::empty());
    }
    while !done
        invariant
            strings_view(list@).len() + tail@.len() == start.len(),
            strings_view(list@) == start.subrange(0, list@.len() as int),
            forall|k: int|
                0 <= k < tail@.len() ==> (#[trigger] tail@[k])@ == start[start.len() - 1 - k],
            put(start, x@) == rebuilt(put(strings_view(list@), x@), strings_view(tail@)),
            !done ==> !skip,
            done ==> (if skip {
                strings_view(list@).len() > 0 && strings_view(list@).last() == x@
            } else {
                strings_view(list@).len() == 0 || (strings_view(list@).last() != x@ && lex_le(
                    strings_view(list@).last(),
                    x@,
                ))
            }),
        decreases list.len() + if done { 0int } else { 1int },
    {
        if list.len() == 0 {
            done = true;
        } else {
            let n = list.len();
            proof {
                assert(strings_view(list@).last() == list@[n - 1]@);
            }
            let same = str_eq(list[n - 1].as_str(), x.as_str());
            let before_x = str_le(list[n - 1].as_str(), x.as_str());
            proof {
                assert(same == (strings_view(list@).last() == x@));
                assert(before_x == lex_le(strings_view(list@).last(), x@));
            }
            if same {
                done = true;
                skip = true;
            } else if before_x {
                done = true;
            } else {
                let ghost before = strings_view(list@);
                let ghost tail0 = strings_view(tail@);
                let last = list.pop().unwrap();
                tail.push(last);
                proof {
                    assert(strings_view(list@) =~= before.drop_last());
                    assert(strings_view(tail@) =~= tail0.push(before.last()));
                    assert(strings_view(list@) =~= start.subrange(0, list@.len() as int));
                    lemma_rebuilt_push(put(before.drop_last(), x@), tail0, before.last());
                }
            }
        }
    }
    if !skip {
        let ghost before = strings_view(list@);
        list.push(x);
        proof {
            assert(strings_view(list@) =~= before.push(x@));
            assert(strings_view(list@) == put(before, x@));
        }
    }
    let ghost core = strings_view(list@);
    let ghost whole = strings_view(tail@);
    while tail.len() > 0
        invariant
            rebuilt(strings_view(list@), strings_view(tail@)) == rebuilt(core, whole),
        decreases tail.len(),
    {
        let ghost l0 = strings_view(list@);
        let ghost t0 = strings_view(tail@);
        let item = tail.pop().unwrap();
        list.push(item);
        proof {
            assert(strings_view(tail@) =~= t0.drop_last());
            assert(strings_view(list@) =~= l0.push(t0.last()));
        }
    }
    proof {
        assert(strings_view(tail@).len() == 0);
    }
}

/// `list` followed by the texts of `tail` in reverse order.
pub open spec fn rebuilt(list: Seq<Seq<char>>, tail: Seq<Seq<char>>) -> Seq<Seq<char>>
    decreases tail.len(),
{
    if tail.len() == 0 {
        list
    } else {
        rebuilt(list.push(tail.last()), tail.drop_last())
    }
}

/// Rebuilding with one more text at the end of the tail puts that text
/// first.
pub proof fn lemma_rebuilt_push(list: Seq<Seq<char>>, tail: Seq<Seq<char>>, x: Seq<char>)
    ensures
        rebuilt(list, tail.push(x)) == rebuilt(list.push(x), tail),
{
    assert(tail.push(x).last() == x);
    assert(tail.push(x).drop_last() =~= tail);
}

/// The texts of `list`, each once, in ascending order.
pub fn sort_texts(list: Vec<String>) -> (out: Vec<String>)
    ensures
        strings_view(out@) == sorted_set(strings_view(list@)),
{
    let ghost all = strings_view(list@);
    let total = list.len();
    let mut held = reversed_texts(list);
    let mut out: Vec<String> = Vec::new();
    let mut i: usize = 0;
    proof {
        assert(all.subrange(0, 0) =~= Seq::<Seq<char>>::empty());
        assert(strings_view(out@) =~= Seq::<Seq<char>>::empty());
    }
    while held.len() > 0
        invariant
            total == list@.len(),
            all == strings_view(list@),
            i + held@.len() == list@.len(),
            forall|k: int| 0 <= k < held@.len() ==> #[trigger] held@[k] == list@[list@.len() - 1 - k],
            strings_view(out@) == sorted_set(all.subrange(0, i as int)),
        decreases held.len(),
    {
        assert(i < list@.len());
        let x = held.pop().unwrap();
        proof {
            let upto = all.subrange(0, i + 1);
            assert(upto.drop_last() =~= all.subrange(0, i as int));
            assert(upto.last() == x@);
        }
        put_in(&mut out, x);
        i = i + 1;
    }
    proof {
        assert(all.subrange(0, all.len() as int) =~= all);
    }
    out
}

/// The texts of `list` in reverse order.
pub fn reversed_texts(list: Vec<String>) -> (out: Vec<String>)
    ensures
        out@.len() == list@.len(),
        forall|k: int| 0 <= k < out@.len() ==> #[trigger] out@[k] == list@[list@.len() - 1 - k],
{
    let mut rest = list;
    let mut out: Vec<String> = Vec::new();
    while rest.len() > 0
        invariant
            rest@.len() <= list@.len(),
            rest@ == list@.subrange(0, rest@.len() as int),
            out@.len() + rest@.len() == list@.len(),
            forall|k: int| 0 <= k < out@.len() ==> #[trigger] out@[k] == list@[list@.len() - 1 - k],
        decreases rest.len(),
    {
        let x = rest.pop().unwrap();
        out.push(x);
    }
    out
}

/// The names of what is called in `node` and below it, in the order the
/// calls occur: for each node of kind `call` or `other`, the text of its
/// child that fills the field `field`.
pub open spec fn call_names(node: SyntaxNode, call: Seq<char>, other: Seq<char>, field: Seq<char>) -> Seq<Seq<char>>
    decreases node, node.children@.len() + 1,
{
    own_call(node, call, other, field) + call_names_below(node, call, other, field, node.children@.len() as int)
}

/// The name of what `node` itself calls, if it is a call.
pub open spec fn own_call(node: SyntaxNode, call: Seq<char>, other: Seq<char>, field: Seq<char>) -> Seq<Seq<char>> {
    if (node.kind@ == call || node.kind@ == other) && field_at(node, field).is_some() {
        seq![node.children@[field_at(node, field).unwrap()].text@]
    } else {
        Seq::empty()
    }
}

/// The names of what is called in the first `k` children of `node` and
/// below them.
pub open spec fn call_names_below(
    node: SyntaxNode,
    call: Seq<char>,
    other: Seq<char>,
    field: Seq<char>,
    k: int,
) -> Seq<Seq<char>>
    decreases node, k,
{
    if k <= 0 || k > node.children@.len() {
        Seq::empty()
    } else {
        call_names_below(node, call, other, field, k - 1) + call_names(node.children@[k - 1], call, other, field)
    }
}

/// Appends to `out` the names of what is called in `node` and below it.
pub fn collect_calls(node: &SyntaxNode, call: &str, other: &str, field: &str, out: &mut Vec<String>)
    ensures
        strings_view(final(out)@) == strings_view(old(out)@) + call_names(*node, call@, other@, field@),
    decreases node,
{
    let ghost start = strings_view(out@);
    let ghost own = own_call(*node, call@, other@, field@);
    if str_eq(node.kind.as_str(), call) || str_eq(node.kind.as_str(), other) {
        match child_by_field(node, field) {
            Some(i) => {
                out.push(node.children[i].text.clone());
                proof {
                    assert(strings_view(out@) =~= start + own);
                }
            },
            None => {
                proof {
                    assert(start + own =~= start);
                }
            },
        }
    } else {
        proof {
            assert(start + own =~= start);
        }
    }
    let ghost base = strings_view(out@);
    let mut i: usize = 0;
    proof {
        assert(base + call_names_below(*node, call@, other@, field@, 0) =~= base);
    }
    while i < node.children.len()
        invariant
            i <= node.children.len(),
            strings_view(out@) == base + call_names_below(*node, call@, other@, field@, i as int),
        decreases node.children.len() - i,
    {
        let ghost before = strings_view(out@);
        collect_calls(&node.children[i], call, other, field, out);
        proof {
            assert(base + (call_names_below(*node, call@, other@, field@, i as int) + call_names(
                node.children@[i as int],
                call@,
                other@,
                field@,
            )) =~= before + call_names(node.children@[i as int], call@, other@, field@));
        }
        i = i + 1;
    }
    proof {
        let below = call_names_below(*node, call@, other@, field@, node.children@.len() as int);
        assert(start + (own + below) =~= base + below);
    }
}

/// The names that the code of `node` refers to: what it calls, each name
/// once, in ascending order.
pub open spec fn references_of(node: SyntaxNode, call: Seq<char>, other: Seq<char>, field: Seq<char>) -> Seq<
    Seq<char>,
> {
    sorted_set(call_names(node, call, other, field))
}

/// The names that the code of `node` refers to.
pub fn call_references(node: &SyntaxNode, call: &str, other: &str, field: &str) -> (out: Vec<String>)
    ensures
        strings_view(out@) == references_of(*node, call@, other@, field@),
{
    let mut names: Vec<String> = Vec::new();
    collect_calls(node, call, other, field, &mut names);
    proof {
        assert(strings_view(names@) =~= call_names(*node, call@, other@, field@));
    }
    sort_texts(names)
}

/// `s` without the copies of `prefix` at its start.
pub open spec fn without_prefix(s: Seq<char>, prefix: Seq<char>) -> Seq<char>
    decreases s.len(),
{
    if prefix.len() > 0 && crate::text::is_prefix(s, prefix) {
        without_prefix(s.skip(prefix.len() as int), prefix)
    } else {
        s
    }
}

/// `s` without the `c`s at its end.
pub open spec fn without_trailing(s: Seq<char>, c: char) -> Seq<char>
    decreases s.len(),
{
    if s.len() > 0 && s.last() == c {
        without_trailing(s.drop_last(), c)
    } else {
        s
    }
}

/// What a directive names: its text without the keyword `keyword` at its
/// start, without the semicolons at its end, and trimmed.
pub open spec fn directive_name(text: Seq<char>, keyword: Seq<char>) -> Seq<char> {
    crate::text::trimmed(without_trailing(without_prefix(text, keyword), ';'))
}

/// What the directive `text` names.
pub fn name_in_directive(text: &str, keyword: &str) -> (out: String)
    ensures
        out@ == directive_name(text@, keyword@),
{
    let key_len = keyword.unicode_len();
    let mut rest = String::from_str(text);
    while key_len > 0 && crate::text::str_starts_with(rest.as_str(), keyword)
        invariant
            key_len == keyword@.len(),
            without_prefix(text@, keyword@) == without_prefix(rest@, keyword@),
        decreases rest@.len(),
    {
        let len = rest.as_str().unicode_len();
        proof {
            assert(rest@.subrange(key_len as int, len as int) =~= rest@.skip(key_len as int));
        }
        rest = String::from_str(rest.as_str().substring_char(key_len, len));
    }
    let len = rest.as_str().unicode_len();
    let mut end: usize = len;
    proof {
        assert(rest@.subrange(0, end as int) =~= rest@);
    }
    while end > 0 && rest.as_str().get_char(end - 1) == ';'
        invariant
            end <= len,
            len == rest@.len(),
            without_trailing(rest@, ';') == without_trailing(rest@.subrange(0, end as int), ';'),
        decreases end,
    {
        proof {
            assert(rest@.subrange(0, end as int).drop_last() =~= rest@.subrange(0, end - 1));
            assert(rest@.subrange(0, end as int).last() == rest@[end - 1]);
        }
        end = end - 1;
    }
    proof {
        if end > 0 {
            assert(rest@.subrange(0, end as int).last() == rest@[end - 1]);
        }
    }
    crate::text::str_trim(rest.as_str().substring_char(0, end))
}

} // verus!
