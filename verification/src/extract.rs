//! The rules of symbol extraction that do not depend on a syntax tree: how
//! ids, qualified names, lines and visibility are derived, how a call is
//! attributed to the symbol that encloses it, and how the captures of one
//! query match become a symbol or a relation.

use vstd::prelude::*;
use vstd::string::*;
use crate::edge::EdgeKind;
use crate::node::{CodeNode, CodeNodeView, NodeKind, Visibility, node_views, symbol_id};
use crate::text::{char_is_uppercase, is_substring, is_upper, str_contains, str_eq};

verus! {

/// The kind of an unresolved relation.
#[derive(Clone, Copy, Debug, PartialEq, Eq, Hash, Structural)]
pub enum RelationType {
    /// A function calls another.
    Calls,
    /// A module imports another module or symbol.
    Imports,
    /// A class extends another.
    Extends,
    /// A type implements an interface.
    Implements,
}

/// An unresolved edge: its target is a name, not a node.
#[derive(Debug, PartialEq, Eq)]
pub struct SymbolRelation {
    /// The id of the symbol the relation starts at.
    pub from_id: String,
    /// The name of what is called or imported.
    pub to_name: String,
    pub kind: RelationType,
    /// 1-based.
    pub line: u32,
}

/// The mathematical value of a relation.
pub struct SymbolRelationView {
    pub from_id: Seq<char>,
    pub to_name: Seq<char>,
    pub kind: RelationType,
    pub line: u32,
}

impl View for SymbolRelation {
    type V = SymbolRelationView;

    open spec fn view(&self) -> SymbolRelationView {
        SymbolRelationView { from_id: self.from_id@, to_name: self.to_name@, kind: self.kind, line: self.line }
    }
}

/// What parsing one file yields.
#[derive(Debug)]
pub struct ParseResult {
    pub symbols: Vec<CodeNode>,
    pub relations: Vec<SymbolRelation>,
    pub file_path: String,
}

/// The kind of the edge that a relation of kind `kind` becomes.
pub open spec fn edge_kind_for(kind: RelationType) -> EdgeKind {
    match kind {
        RelationType::Calls => EdgeKind::Calls,
        RelationType::Imports => EdgeKind::Imports,
        RelationType::Extends => EdgeKind::Extends,
        RelationType::Implements => EdgeKind::Implements,
    }
}

/// The kind of the edge that a relation of kind `kind` becomes.
pub fn edge_kind_of(kind: RelationType) -> (out: EdgeKind)
    ensures
        out == edge_kind_for(kind),
{
    match kind {
        RelationType::Calls => EdgeKind::Calls,
        RelationType::Imports => EdgeKind::Imports,
        RelationType::Extends => EdgeKind::Extends,
        RelationType::Implements => EdgeKind::Implements,
    }
}

/// The id under which relations of a whole file start.
pub open spec fn file_id_text(file_path: Seq<char>) -> Seq<char> {
    file_path + ":__file__"@
}

/// The id under which relations of the whole file `file_path` start.
pub fn file_symbol_id(file_path: &str) -> (out: String)
    ensures
        out@ == file_id_text(file_path@),
{
    let mut out = String::from_str(file_path);
    out.append(":__file__");
    out
}

/// The qualified name of the symbol `name` of the file named `file_name`.
pub fn qualified_in_file(file_name: &str, name: &str) -> (out: String)
    ensures
        out@ == symbol_id(file_name@, name@),
{
    let mut out = String::from_str(file_name);
    out.append(":");
    out.append(name);
    proof {
        reveal_strlit(":");
        assert(":"@ =~= seq![':']);
    }
    out
}

/// The 1-based line of the 0-based row `row`, or the largest line number
/// for a row beyond it.
pub fn one_based(row: usize) -> (line: u32)
    ensures
        line == (if row < u32::MAX {
            row + 1
        } else {
            u32::MAX as int
        }),
{
    if row < 0xffff_ffff {
        (row + 1) as u32
    } else {
        0xffff_ffff
    }
}

/// `out` is what follows the last `c` in `s`, or all of `s` if `c` does not
/// occur in it.
pub open spec fn follows_last(s: Seq<char>, c: char, out: Seq<char>) -> bool {
    exists|i: int|
        0 <= i <= s.len() && #[trigger] s.subrange(i, s.len() as int) == out && (i == 0 || s[i - 1] == c)
            && forall|j: int| i <= j < s.len() ==> s[j] != c
}

/// What follows the last `c` in `s`, or all of `s` if `c` does not occur in
/// it.
pub open spec fn tail_after(s: Seq<char>, c: char) -> Seq<char> {
    choose|out: Seq<char>| follows_last(s, c, out)
}

/// Only one text follows the last `c` in `s`.
pub proof fn lemma_follows_last_unique(s: Seq<char>, c: char, a: Seq<char>, b: Seq<char>)
    requires
        follows_last(s, c, a),
        follows_last(s, c, b),
    ensures
        a == b,
        a == tail_after(s, c),
{
    let i = choose|i: int|
        0 <= i <= s.len() && #[trigger] s.subrange(i, s.len() as int) == a && (i == 0 || s[i - 1] == c)
            && forall|j: int| i <= j < s.len() ==> s[j] != c;
    let k = choose|k: int|
        0 <= k <= s.len() && #[trigger] s.subrange(k, s.len() as int) == b && (k == 0 || s[k - 1] == c)
            && forall|j: int| k <= j < s.len() ==> s[j] != c;
    if i < k {
        assert(s[k - 1] != c);
    }
    if k < i {
        assert(s[i - 1] != c);
    }
    let t = tail_after(s, c);
    let m = choose|m: int|
        0 <= m <= s.len() && #[trigger] s.subrange(m, s.len() as int) == t && (m == 0 || s[m - 1] == c)
            && forall|j: int| m <= j < s.len() ==> s[j] != c;
    if i < m {
        assert(s[m - 1] != c);
    }
    if m < i {
        assert(s[i - 1] != c);
    }
}

/// What follows the last `c` in `s`, or all of `s` if `c` does not occur in
/// it.
pub fn after_last(s: &str, c: char) -> (out: String)
    ensures
        follows_last(s@, c, out@),
        out@ == tail_after(s@, c),
{
    let len = s.unicode_len();
    let mut i: usize = len;
    while i > 0 && s.get_char(i - 1) != c
        invariant
            i <= len,
            len == s@.len(),
            forall|j: int| i <= j < len ==> s@[j] != c,
        decreases i,
    {
        i = i - 1;
    }
    let out = String::from_str(s.substring_char(i, len));
    proof {
        assert(s@.subrange(i as int, s@.len() as int) == out@);
        assert(follows_last(s@, c, out@));
        lemma_follows_last_unique(s@, c, out@, out@);
    }
    out
}

/// The name of the function that the text of a call names: its last segment,
/// without the receiver it is called on.
pub fn callee_name(text: &str) -> (out: String)
    ensures
        follows_last(text@, '.', out@),
        out@ == tail_after(text@, '.'),
{
    after_last(text, '.')
}

/// Whether a name is looked up as a qualified name: it holds a `.` or `::`.
pub open spec fn names_path(name: Seq<char>) -> bool {
    is_substring(name, "."@) || is_substring(name, "::"@)
}

/// Whether `name` is looked up as a qualified name.
pub fn is_qualified(name: &str) -> (out: bool)
    ensures
        out == names_path(name@),
{
    str_contains(name, ".") || str_contains(name, "::")
}

/// A single or double quote.
pub open spec fn is_quote(c: char) -> bool {
    c == '"' || c == '\''
}

/// `out` is `s` without the characters of `marks` at its start and at its
/// end.
pub open spec fn unmarked(s: Seq<char>, marks: Seq<char>, out: Seq<char>) -> bool {
    exists|a: int, b: int|
        0 <= a <= b <= s.len() && #[trigger] s.subrange(a, b) == out && (forall|j: int|
            0 <= j < a ==> marks.contains(s[j])) && (forall|j: int| b <= j < s.len() ==> marks.contains(s[j]))
            && (a < b ==> !marks.contains(s[a]) && !marks.contains(s[b - 1]))
}

/// `s` without the characters of `marks` at its start and at its end.
pub open spec fn without_marks(s: Seq<char>, marks: Seq<char>) -> Seq<char> {
    choose|out: Seq<char>| unmarked(s, marks, out)
}

/// Only one text is `s` without its marks.
pub proof fn lemma_unmarked_unique(s: Seq<char>, marks: Seq<char>, x: Seq<char>, y: Seq<char>)
    requires
        unmarked(s, marks, x),
        unmarked(s, marks, y),
    ensures
        x == y,
{
    let (a, b) = choose|a: int, b: int|
        0 <= a <= b <= s.len() && #[trigger] s.subrange(a, b) == x && (forall|j: int|
            0 <= j < a ==> marks.contains(s[j])) && (forall|j: int| b <= j < s.len() ==> marks.contains(s[j]))
            && (a < b ==> !marks.contains(s[a]) && !marks.contains(s[b - 1]));
    let (c, d) = choose|c: int, d: int|
        0 <= c <= d <= s.len() && #[trigger] s.subrange(c, d) == y && (forall|j: int|
            0 <= j < c ==> marks.contains(s[j])) && (forall|j: int| d <= j < s.len() ==> marks.contains(s[j]))
            && (c < d ==> !marks.contains(s[c]) && !marks.contains(s[d - 1]));
    if a < b && c < d {
        if a < c {
            assert(marks.contains(s[a]));
        }
        if c < a {
            assert(marks.contains(s[c]));
        }
        if b < d {
            assert(marks.contains(s[d - 1]));
        }
        if d < b {
            assert(marks.contains(s[b - 1]));
        }
    } else if a < b {
        assert(marks.contains(s[a]));
    } else if c < d {
        assert(marks.contains(s[c]));
    } else {
        assert(x =~= y);
    }
}

/// Whether `marks` holds `c`.
pub fn is_mark(marks: &str, c: char) -> (out: bool)
    ensures
        out == marks@.contains(c),
{
    let len = marks.unicode_len();
    let mut i: usize = 0;
    while i < len
        invariant
            i <= len,
            len == marks@.len(),
            forall|j: int| 0 <= j < i ==> marks@[j] != c,
        decreases len - i,
    {
        if marks.get_char(i) == c {
            return true;
        }
        i = i + 1;
    }
    false
}

/// `s` without the characters of `marks` at its start and at its end.
pub fn trim_marks(s: &str, marks: &str) -> (out: String)
    ensures
        unmarked(s@, marks@, out@),
        out@ == without_marks(s@, marks@),
{
    let len = s.unicode_len();
    let mut a: usize = 0;
    while a < len && is_mark(marks, s.get_char(a))
        invariant
            a <= len,
            len == s@.len(),
            forall|j: int| 0 <= j < a ==> marks@.contains(s@[j]),
        decreases len - a,
    {
        a = a + 1;
    }
    let mut b: usize = len;
    while b > a && is_mark(marks, s.get_char(b - 1))
        invariant
            a <= b <= len,
            len == s@.len(),
            forall|j: int| b <= j < len ==> marks@.contains(s@[j]),
        decreases b,
    {
        b = b - 1;
    }
    let out = String::from_str(s.substring_char(a, b));
    proof {
        assert(s@.subrange(a as int, b as int) == out@);
        assert(unmarked(s@, marks@, out@));
        lemma_unmarked_unique(s@, marks@, out@, without_marks(s@, marks@));
    }
    out
}

/// `out` is `s` without the quotes at its start and at its end.
pub open spec fn unquoted(s: Seq<char>, out: Seq<char>) -> bool {
    exists|a: int, b: int|
        0 <= a <= b <= s.len() && #[trigger] s.subrange(a, b) == out && (forall|j: int|
            0 <= j < a ==> is_quote(s[j])) && (forall|j: int| b <= j < s.len() ==> is_quote(s[j])) && (a
            < b ==> !is_quote(s[a]) && !is_quote(s[b - 1]))
}

/// `s` without the quotes at its start and at its end.
pub open spec fn without_quotes(s: Seq<char>) -> Seq<char> {
    choose|out: Seq<char>| unquoted(s, out)
}

/// Only one text is `s` without its quotes.
pub proof fn lemma_unquoted_unique(s: Seq<char>, x: Seq<char>, y: Seq<char>)
    requires
        unquoted(s, x),
        unquoted(s, y),
    ensures
        x == y,
{
    let (a, b) = choose|a: int, b: int|
        0 <= a <= b <= s.len() && #[trigger] s.subrange(a, b) == x && (forall|j: int|
            0 <= j < a ==> is_quote(s[j])) && (forall|j: int| b <= j < s.len() ==> is_quote(s[j])) && (a < b
            ==> !is_quote(s[a]) && !is_quote(s[b - 1]));
    let (c, d) = choose|c: int, d: int|
        0 <= c <= d <= s.len() && #[trigger] s.subrange(c, d) == y && (forall|j: int|
            0 <= j < c ==> is_quote(s[j])) && (forall|j: int| d <= j < s.len() ==> is_quote(s[j])) && (c < d
            ==> !is_quote(s[c]) && !is_quote(s[d - 1]));
    if a < b && c < d {
        if a < c {
            assert(is_quote(s[a]));
        }
        if c < a {
            assert(is_quote(s[c]));
        }
        if b < d {
            assert(is_quote(s[d - 1]));
        }
        if d < b {
            assert(is_quote(s[b - 1]));
        }
    } else if a < b {
        assert(c == d);
        if a < c {
            assert(is_quote(s[a]));
        } else {
            assert(is_quote(s[a]));
        }
    } else if c < d {
        assert(a == b);
        if c < a {
            assert(is_quote(s[c]));
        } else {
            assert(is_quote(s[c]));
        }
    } else {
        assert(x =~= y);
    }
}

/// `s` without the quotes at its start and at its end.
pub fn trim_quotes(s: &str) -> (out: String)
    ensures
        unquoted(s@, out@),
        out@ == without_quotes(s@),
{
    let len = s.unicode_len();
    let mut a: usize = 0;
    while a < len && (s.get_char(a) == '"' || s.get_char(a) == '\'')
        invariant
            a <= len,
            len == s@.len(),
            forall|j: int| 0 <= j < a ==> is_quote(s@[j]),
        decreases len - a,
    {
        a = a + 1;
    }
    let mut b: usize = len;
    while b > a && (s.get_char(b - 1) == '"' || s.get_char(b - 1) == '\'')
        invariant
            a <= b <= len,
            len == s@.len(),
            forall|j: int| b <= j < len ==> is_quote(s@[j]),
        decreases b,
    {
        b = b - 1;
    }
    let out = String::from_str(s.substring_char(a, b));
    proof {
        assert(s@.subrange(a as int, b as int) == out@);
        assert(unquoted(s@, out@));
        lemma_unquoted_unique(s@, out@, without_quotes(s@));
    }
    out
}

/// The symbol spans the line `line`.
pub open spec fn encloses(symbol: CodeNodeView, line: u32) -> bool {
    symbol.line_start <= line && line <= symbol.line_end
}

/// How many lines the symbol spans beyond its first.
pub open spec fn span(symbol: CodeNodeView) -> int {
    symbol.line_end - symbol.line_start
}

/// The place, among the first `k` symbols, of the one that encloses `line`
/// most closely: of the symbols that span the line, the one that spans the
/// fewest lines, and of several such the first.
pub open spec fn enclosing_in(symbols: Seq<CodeNodeView>, line: u32, k: int) -> Option<int>
    decreases k,
{
    if k <= 0 || k > symbols.len() {
        None
    } else {
        let before = enclosing_in(symbols, line, k - 1);
        if encloses(symbols[k - 1], line) && (before.is_none() || span(symbols[k - 1]) < span(
            symbols[before.unwrap()],
        )) {
            Some(k - 1)
        } else {
            before
        }
    }
}

/// The index of the symbol that encloses `line` most closely: of the symbols
/// that span the line, the one that spans the fewest lines, and of several
/// such the first.
pub fn find_enclosing_symbol(line: u32, symbols: &Vec<CodeNode>) -> (out: Option<usize>)
    ensures
        enclosing_in(node_views(symbols@), line, symbols@.len() as int) == (match out {
            Some(i) => Some(i as int),
            None => None,
        }),
        out.is_none() <==> forall|j: int| 0 <= j < symbols@.len() ==> !encloses((#[trigger] symbols@[j])@, line),
        out.is_some() ==> {
            let i = out.unwrap() as int;
            &&& 0 <= i < symbols@.len()
            &&& encloses(symbols@[i]@, line)
            &&& forall|j: int|
                0 <= j < symbols@.len() && encloses((#[trigger] symbols@[j])@, line) ==> span(symbols@[i]@) <= span(
                    symbols@[j]@,
                ) && (span(symbols@[j]@) == span(symbols@[i]@) ==> i <= j)
        },
{
    let ghost views = node_views(symbols@);
    let mut best: Option<usize> = None;
    let mut k: usize = 0;
    while k < symbols.len()
        invariant
            k <= symbols.len(),
            views == node_views(symbols@),
            enclosing_in(views, line, k as int) == (match best {
                Some(i) => Some(i as int),
                None => None,
            }),
            best.is_none() <==> forall|j: int| 0 <= j < k ==> !encloses((#[trigger] symbols@[j])@, line),
            best.is_some() ==> {
                let i = best.unwrap() as int;
                &&& 0 <= i < k
                &&& encloses(symbols@[i]@, line)
                &&& forall|j: int|
                    0 <= j < k && encloses((#[trigger] symbols@[j])@, line) ==> span(symbols@[i]@) <= span(
                        symbols@[j]@,
                    ) && (span(symbols@[j]@) == span(symbols@[i]@) ==> i <= j)
            },
        decreases symbols.len() - k,
    {
        let s = &symbols[k];
        proof {
            assert(views[k as int] == symbols@[k as int]@);
            if best.is_some() {
                assert(views[best.unwrap() as int] == symbols@[best.unwrap() as int]@);
            }
        }
        if s.line_start <= line && line <= s.line_end {
            let better = match best {
                Some(i) => s.line_end - s.line_start < symbols[i].line_end - symbols[i].line_start,
                None => true,
            };
            if better {
                best = Some(k);
            }
        }
        k = k + 1;
    }
    best
}

/// The visibility of a name by its first character: `Private` if it starts
/// with an underscore, `Public` otherwise.
pub open spec fn underscore_visibility(name: Seq<char>) -> Visibility {
    if name.len() > 0 && name[0] == '_' {
        Visibility::Private
    } else {
        Visibility::Public
    }
}

/// The visibility of a name by the case of its first character: `Public` if
/// it starts with an upper-case character, `Private` otherwise.
pub open spec fn case_visibility(name: Seq<char>) -> Visibility {
    if name.len() > 0 && is_upper(name[0]) {
        Visibility::Public
    } else {
        Visibility::Private
    }
}

/// The visibility that the text of a modifier list gives: the first of
/// `public`, `protected` and `private` that occurs in it, or `fallback`.
pub open spec fn modifier_visibility(modifiers: Seq<char>, fallback: Visibility) -> Visibility {
    if is_substring(modifiers, "public"@) {
        Visibility::Public
    } else if is_substring(modifiers, "protected"@) {
        Visibility::Protected
    } else if is_substring(modifiers, "private"@) {
        Visibility::Private
    } else {
        fallback
    }
}

/// Whether the text of a modifier list names a visibility.
pub open spec fn names_visibility(text: Seq<char>) -> bool {
    is_substring(text, "public"@) || is_substring(text, "protected"@) || is_substring(text, "private"@)
}

/// The visibility that the text of a modifier list gives, if it names one.
pub fn visibility_keyword(modifiers: &str) -> (out: Option<Visibility>)
    ensures
        out.is_some() == names_visibility(modifiers@),
        out.is_some() ==> forall|fallback: Visibility| out.unwrap() == #[trigger] modifier_visibility(modifiers@, fallback),
        out.is_none() ==> forall|fallback: Visibility| fallback == #[trigger] modifier_visibility(modifiers@, fallback),
{
    if str_contains(modifiers, "public") {
        Some(Visibility::Public)
    } else if str_contains(modifiers, "protected") {
        Some(Visibility::Protected)
    } else if str_contains(modifiers, "private") {
        Some(Visibility::Private)
    } else {
        None
    }
}

/// `parent`, the separator, and `name`; or `name` alone for a symbol
/// without a parent.
pub open spec fn scoped_name(parent: Option<Seq<char>>, separator: Seq<char>, name: Seq<char>) -> Seq<char> {
    match parent {
        Some(p) => p + separator + name,
        None => name,
    }
}

/// The qualified name of a member: the name of its parent, the language's
/// separator, and its own name.
pub fn qualify(parent: Option<&str>, separator: &str, name: &str) -> (out: String)
    ensures
        out@ == scoped_name(
            match parent {
                Some(p) => Some(p@),
                None => None,
            },
            separator@,
            name@,
        ),
{
    match parent {
        Some(p) => {
            let mut out = String::from_str(p);
            out.append(separator);
            out.append(name);
            out
        },
        None => String::from_str(name),
    }
}

/// The rules of the Dart extractor.
#[derive(Clone, Copy, Debug)]
pub struct DartParser;

impl DartParser {
    /// Whether the extractor reads files with the extension `ext`.
    pub fn handles(ext: &str) -> (out: bool)
        ensures
            out == (ext@ == "dart"@),
    {
        str_eq(ext, "dart")
    }

    /// A name that starts with an underscore is private.
    pub fn detect_visibility(name: &str) -> (out: Visibility)
        ensures
            out == underscore_visibility(name@),
    {
        if name.unicode_len() > 0 && name.get_char(0) == '_' {
            Visibility::Private
        } else {
            Visibility::Public
        }
    }

    /// The signature of a function: its return type, `void` if it has none,
    /// its name, and its parameters, `()` if it has none.
    pub fn signature(return_type: Option<&str>, name: &str, params: Option<&str>) -> (out: String)
        ensures
            out@ == typed_signature(
                match return_type {
                    Some(t) => t@,
                    None => "void"@,
                },
                name@,
                match params {
                    Some(p) => p@,
                    None => "()"@,
                },
            ),
    {
        build_typed_signature(
            match return_type {
                Some(t) => t,
                None => "void",
            },
            name,
            match params {
                Some(p) => p,
                None => "()",
            },
        )
    }
}

/// The rules of the Go extractor.
#[derive(Clone, Copy, Debug)]
pub struct GoParser;

impl GoParser {
    /// Whether the extractor reads files with the extension `ext`.
    pub fn handles(ext: &str) -> (out: bool)
        ensures
            out == (ext@ == "go"@),
    {
        str_eq(ext, "go")
    }

    /// A name that starts with an upper-case character is exported.
    pub fn detect_visibility(name: &str) -> (out: Visibility)
        ensures
            out == case_visibility(name@),
    {
        if name.unicode_len() > 0 && char_is_uppercase(name.get_char(0)) {
            Visibility::Public
        } else {
            Visibility::Private
        }
    }

    /// The qualified name of a method: the type of its receiver, a dot, and
    /// its name; or its name alone for an empty receiver type.
    pub fn method_name(receiver_type: &str, name: &str) -> (out: String)
        ensures
            out@ == (if receiver_type@.len() == 0 {
                name@
            } else {
                receiver_type@ + "."@ + name@
            }),
    {
        if receiver_type.unicode_len() == 0 {
            String::from_str(name)
        } else {
            let mut out = String::from_str(receiver_type);
            out.append(".");
            out.append(name);
            out
        }
    }

    /// The signature of a function: `func`, its name and parameters, `()` if
    /// it has none, and its result type if it has one.
    pub fn signature(name: &str, params: Option<&str>, result: Option<&str>) -> (out: String)
        ensures
            out@ == go_signature(
                name@,
                match params {
                    Some(p) => p@,
                    None => "()"@,
                },
                match result {
                    Some(r) => r@,
                    None => Seq::empty(),
                },
            ),
    {
        let mut out = String::from_str("func ");
        out.append(name);
        out.append(
            match params {
                Some(p) => p,
                None => "()",
            },
        );
        match result {
            Some(r) => {
                if r.unicode_len() > 0 {
                    out.append(" ");
                    out.append(r);
                }
            },
            None => {},
        }
        out
    }
}

/// The signature of a Go function.
pub open spec fn go_signature(name: Seq<char>, params: Seq<char>, result: Seq<char>) -> Seq<char> {
    if result.len() == 0 {
        "func "@ + name + params
    } else {
        "func "@ + name + params + " "@ + result
    }
}

/// A signature that starts with the return type: the type, a space, the
/// name, and the parameters.
pub open spec fn typed_signature(return_type: Seq<char>, name: Seq<char>, params: Seq<char>) -> Seq<char> {
    return_type + " "@ + name + params
}

/// The signature of a function with the return type `return_type`.
pub fn build_typed_signature(return_type: &str, name: &str, params: &str) -> (out: String)
    ensures
        out@ == typed_signature(return_type@, name@, params@),
{
    let mut out = String::from_str(return_type);
    out.append(" ");
    out.append(name);
    out.append(params);
    out
}

/// The rules of the Java extractor.
#[derive(Clone, Copy, Debug)]
pub struct JavaParser;

impl JavaParser {
    /// Whether the extractor reads files with the extension `ext`.
    pub fn handles(ext: &str) -> (out: bool)
        ensures
            out == (ext@ == "java"@),
    {
        str_eq(ext, "java")
    }

    /// The visibility that a modifier list gives; a member without a
    /// modifier list, or without a visibility in it, is package-private.
    pub fn detect_visibility(modifiers: Option<&str>) -> (out: Visibility)
        ensures
            out == (match modifiers {
                Some(m) => modifier_visibility(m@, Visibility::Internal),
                None => Visibility::Internal,
            }),
    {
        match modifiers {
            Some(m) => match visibility_keyword(m) {
                Some(v) => v,
                None => Visibility::Internal,
            },
            None => Visibility::Internal,
        }
    }

    /// The signature of a method: its return type, `void` if it has none, its
    /// name, and its parameters, `()` if it has none.
    pub fn signature(return_type: Option<&str>, name: &str, params: Option<&str>) -> (out: String)
        ensures
            out@ == typed_signature(
                match return_type {
                    Some(t) => t@,
                    None => "void"@,
                },
                name@,
                match params {
                    Some(p) => p@,
                    None => "()"@,
                },
            ),
    {
        build_typed_signature(
            match return_type {
                Some(t) => t,
                None => "void",
            },
            name,
            match params {
                Some(p) => p,
                None => "()",
            },
        )
    }
}

/// The rules of the C++ extractor.
#[derive(Clone, Copy, Debug)]
pub struct CppParser;

impl CppParser {
    /// Whether the extractor reads files with the extension `ext`.
    pub fn handles(ext: &str) -> (out: bool)
        ensures
            out == (ext@ == "cpp"@ || ext@ == "hpp"@ || ext@ == "cc"@ || ext@ == "hh"@ || ext@ == "cxx"@
                || ext@ == "hxx"@),
    {
        str_eq(ext, "cpp") || str_eq(ext, "hpp") || str_eq(ext, "cc") || str_eq(ext, "hh") || str_eq(
            ext,
            "cxx",
        ) || str_eq(ext, "hxx")
    }

    /// The visibility that an access specifier gives; a member without one,
    /// or with one that names no visibility, is private.
    pub fn detect_visibility(specifier: Option<&str>) -> (out: Visibility)
        ensures
            out == (match specifier {
                Some(m) => modifier_visibility(m@, Visibility::Private),
                None => Visibility::Private,
            }),
    {
        match specifier {
            Some(m) => match visibility_keyword(m) {
                Some(v) => v,
                None => Visibility::Private,
            },
            None => Visibility::Private,
        }
    }

    /// The kind of a function definition: a method inside a class, struct or
    /// namespace, a function outside.
    pub fn function_kind(in_context: bool) -> (out: NodeKind)
        ensures
            out == (if in_context {
                NodeKind::Method
            } else {
                NodeKind::Function
            }),
    {
        if in_context {
            NodeKind::Method
        } else {
            NodeKind::Function
        }
    }

    /// The qualified name of a member: its context, `::`, and its name.
    pub fn member_name(context: Option<&str>, name: &str) -> (out: String)
        ensures
            out@ == scoped_name(
                match context {
                    Some(p) => Some(p@),
                    None => None,
                },
                "::"@,
                name@,
            ),
    {
        qualify(context, "::", name)
    }

    /// The signature of a function: its return type, `void` if it has none,
    /// its name, and its parameters, `()` if it has none.
    pub fn signature(return_type: Option<&str>, name: &str, params: Option<&str>) -> (out: String)
        ensures
            out@ == typed_signature(
                match return_type {
                    Some(t) => t@,
                    None => "void"@,
                },
                name@,
                match params {
                    Some(p) => p@,
                    None => "()"@,
                },
            ),
    {
        build_typed_signature(
            match return_type {
                Some(t) => t,
                None => "void",
            },
            name,
            match params {
                Some(p) => p,
                None => "()",
            },
        )
    }
}

} // verus!
