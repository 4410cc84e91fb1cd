//! Strings as the graph reads them: lower-casing, substrings, windows and
//! the order of ids.

use vstd::prelude::*;
use vstd::string::*;

verus! {

/// The lower-case form of a string, as the standard library computes it.
pub uninterp spec fn lowercase(s: Seq<char>) -> Seq<char>;

/// `needle` occurs in `hay` at position `i`.
pub open spec fn occurs_at(hay: Seq<char>, needle: Seq<char>, i: int) -> bool {
    0 <= i && i + needle.len() <= hay.len() && hay.subrange(i, i + needle.len()) == needle
}

/// `needle` occurs somewhere in `hay`.
pub open spec fn is_substring(hay: Seq<char>, needle: Seq<char>) -> bool {
    exists|i: int| occurs_at(hay, needle, i)
}

/// `hay` starts with `needle`.
pub open spec fn is_prefix(hay: Seq<char>, needle: Seq<char>) -> bool {
    occurs_at(hay, needle, 0)
}

/// The shortest window the search index files.
pub const MIN_NGRAM_LEN: usize = 2;

/// The longest window the search index files.
pub const MAX_NGRAM_LEN: usize = 4;

/// The `n` characters of `s` that start at position `p`.
pub open spec fn window_at(s: Seq<char>, p: int, n: int) -> Seq<char> {
    s.subrange(p, p + n)
}

/// `w` is a window of `s`: a substring of between two and four characters.
pub open spec fn is_window(s: Seq<char>, w: Seq<char>) -> bool {
    MIN_NGRAM_LEN <= w.len() <= MAX_NGRAM_LEN && is_substring(s, w)
}

/// `a` comes no later than `b` when strings are ordered character by
/// character, by code point.
pub open spec fn lex_le(a: Seq<char>, b: Seq<char>) -> bool
    decreases a.len(),
{
    if a.len() == 0 {
        true
    } else if b.len() == 0 {
        false
    } else if a[0] != b[0] {
        (a[0] as int) < (b[0] as int)
    } else {
        lex_le(a.skip(1), b.skip(1))
    }
}

/// The order of strings is total.
pub proof fn lemma_lex_total(a: Seq<char>, b: Seq<char>)
    ensures
        lex_le(a, b) || lex_le(b, a),
    decreases a.len(),
{
    if a.len() > 0 && b.len() > 0 {
        if a[0] == b[0] {
            lemma_lex_total(a.skip(1), b.skip(1));
        }
    }
}

/// The order of strings is transitive.
pub proof fn lemma_lex_trans(a: Seq<char>, b: Seq<char>, c: Seq<char>)
    requires
        lex_le(a, b),
        lex_le(b, c),
    ensures
        lex_le(a, c),
    decreases a.len(),
{
    if a.len() > 0 && b.len() > 0 && c.len() > 0 {
        if a[0] == b[0] && b[0] == c[0] {
            lemma_lex_trans(a.skip(1), b.skip(1), c.skip(1));
        }
    }
}

/// Two strings that each come no later than the other are equal.
pub proof fn lemma_lex_antisym(a: Seq<char>, b: Seq<char>)
    requires
        lex_le(a, b),
        lex_le(b, a),
    ensures
        a == b,
    decreases a.len(),
{
    if a.len() > 0 && b.len() > 0 {
        lemma_lex_antisym(a.skip(1), b.skip(1));
        assert(a =~= seq![a[0]] + a.skip(1));
        assert(b =~= seq![b[0]] + b.skip(1));
    } else {
        assert(a =~= b);
    }
}

/// A substring of a substring is a substring.
pub proof fn lemma_substring_trans(hay: Seq<char>, mid: Seq<char>, needle: Seq<char>)
    requires
        is_substring(hay, mid),
        is_substring(mid, needle),
    ensures
        is_substring(hay, needle),
{
    let i = choose|i: int| occurs_at(hay, mid, i);
    let j = choose|j: int| occurs_at(mid, needle, j);
    assert(hay.subrange(i + j, i + j + needle.len()) =~= mid.subrange(j, j + needle.len()));
    assert(occurs_at(hay, needle, i + j));
}

/// `str::to_lowercase`: the lower-case form of `s`.
#[verifier::external_body]
pub(crate) fn to_lower(s: &str) -> (out: String)
    ensures
        out@ == lowercase(s@),
{
    s.to_lowercase()
}

/// `str::contains`: whether `needle` occurs in `hay`.
#[verifier::external_body]
pub(crate) fn str_contains(hay: &str, needle: &str) -> (found: bool)
    ensures
        found == is_substring(hay@, needle@),
{
    hay.contains(needle)
}

/// `str::starts_with`: whether `hay` starts with `needle`.
#[verifier::external_body]
pub(crate) fn str_starts_with(hay: &str, needle: &str) -> (found: bool)
    ensures
        found == is_prefix(hay@, needle@),
{
    hay.starts_with(needle)
}

/// `str::eq`: whether `a` and `b` are the same text.
#[verifier::external_body]
pub(crate) fn str_eq(a: &str, b: &str) -> (same: bool)
    ensures
        same == (a@ == b@),
{
    a == b
}

/// Whether a character is upper-case, as the standard library decides it.
pub uninterp spec fn is_upper(c: char) -> bool;

/// `char::is_uppercase`: whether `c` is upper-case.
#[verifier::external_body]
pub(crate) fn char_is_uppercase(c: char) -> (upper: bool)
    ensures
        upper == is_upper(c),
{
    c.is_uppercase()
}

/// The lines of a text, as the standard library splits them.
pub uninterp spec fn lines_of(s: Seq<char>) -> Seq<Seq<char>>;

/// `str::lines`: the lines of `s`, without their line endings.
#[verifier::external_body]
pub(crate) fn split_lines(s: &str) -> (out: Vec<String>)
    ensures
        crate::node::strings_view(out@) == lines_of(s@),
{
    s.lines().map(|line| line.to_string()).collect()
}

/// A text without the white space at its start and at its end, as the
/// standard library trims it.
pub uninterp spec fn trimmed(s: Seq<char>) -> Seq<char>;

/// `str::trim`: `s` without the white space at its start and at its end.
#[verifier::external_body]
pub(crate) fn str_trim(s: &str) -> (out: String)
    ensures
        out@ == trimmed(s@),
{
    s.trim().to_string()
}

/// `ext` holds no dot and stands in `path` right behind a dot that is not
/// the first character of `path`.
pub open spec fn follows_dot(path: Seq<char>, ext: Seq<char>) -> bool {
    &&& !ext.contains('.')
    &&& exists|k: int| 0 < k < path.len() && #[trigger] path[k] == '.' && occurs_at(path, ext, k + 1)
}

/// `Path::extension`: the extension of the final component of `path`, if it
/// has one. Which characters part the components depends on the platform, so
/// the contract says only what holds on each: an extension is what follows
/// the last dot of the final component, and that dot is not the component's
/// first character.
#[verifier::external_body]
pub(crate) fn path_extension(path: &str) -> (out: Option<String>)
    ensures
        out matches Some(e) ==> follows_dot(path@, e@),
{
    match std::path::Path::new(path).extension() {
        Some(e) => match e.to_str() {
            Some(s) => Some(s.to_string()),
            None => None,
        },
        None => None,
    }
}

/// `Path::file_name`: the final component of `path`, if it has one. Which
/// characters part the components depends on the platform, so the contract
/// says only what holds on each: the component is a part of the path.
#[verifier::external_body]
pub(crate) fn path_file_name(path: &str) -> (out: Option<String>)
    ensures
        out matches Some(n) ==> is_substring(path@, n@),
{
    match std::path::Path::new(path).file_name() {
        Some(n) => match n.to_str() {
            Some(s) => Some(s.to_string()),
            None => None,
        },
        None => None,
    }
}

/// `str::le`: whether `a` comes no later than `b` in the order of strings,
/// which compares them byte by byte and so code point by code point.
#[verifier::external_body]
pub(crate) fn str_le(a: &str, b: &str) -> (le: bool)
    ensures
        le == lex_le(a@, b@),
{
    a <= b
}

/// Some string of `list` reads `w`.
pub open spec fn lists_text(list: Seq<String>, w: Seq<char>) -> bool {
    exists|k: int| 0 <= k < list.len() && (#[trigger] list[k])@ == w
}

/// The windows of `s`: every substring of two, three or four characters.
pub fn windows(s: &str) -> (out: Vec<String>)
    ensures
        forall|i: int| 0 <= i < out@.len() ==> is_window(s@, (#[trigger] out@[i])@),
        forall|w: Seq<char>| is_window(s@, w) ==> lists_text(out@, w),
{
    let mut out: Vec<String> = Vec::new();
    let len = s.unicode_len();
    let mut n: usize = MIN_NGRAM_LEN;
    while n <= MAX_NGRAM_LEN
        invariant
            MIN_NGRAM_LEN <= n <= MAX_NGRAM_LEN + 1,
            len == s@.len(),
            forall|i: int| 0 <= i < out@.len() ==> is_window(s@, (#[trigger] out@[i])@),
            forall|w: Seq<char>| is_window(s@, w) && w.len() < n ==> lists_text(out@, w),
        decreases MAX_NGRAM_LEN + 1 - n,
    {
        if len >= n {
            let mut i: usize = 0;
            while i <= len - n
                invariant
                    MIN_NGRAM_LEN <= n <= MAX_NGRAM_LEN,
                    len == s@.len(),
                    len >= n,
                    i <= len - n + 1,
                    forall|k: int| 0 <= k < out@.len() ==> is_window(s@, (#[trigger] out@[k])@),
                    forall|w: Seq<char>| is_window(s@, w) && w.len() < n ==> lists_text(out@, w),
                    forall|p: int| 0 <= p < i ==> lists_text(out@, #[trigger] window_at(s@, p, n as int)),
                decreases len - n + 1 - i,
            {
                let piece = s.substring_char(i, i + n);
                let ghost before = out@;
                out.push(String::from_str(piece));
                proof {
                    assert(occurs_at(s@, piece@, i as int));
                    assert forall|k: int| 0 <= k < out@.len() implies is_window(s@, (#[trigger] out@[k])@) by {
                        if k < before.len() {
                            assert(out@[k] == before[k]);
                        }
                    }
                    assert forall|w: Seq<char>| lists_text(before, w) implies lists_text(out@, w) by {
                        let k = choose|k: int| 0 <= k < before.len() && (#[trigger] before[k])@ == w;
                        assert(out@[k]@ == w);
                    }
                    assert(out@[before.len() as int]@ == window_at(s@, i as int, n as int));
                    assert(lists_text(out@, window_at(s@, i as int, n as int)));
                }
                i = i + 1;
            }
            proof {
                assert forall|w: Seq<char>| is_window(s@, w) && w.len() < n + 1 implies lists_text(out@, w) by {
                    if w.len() == n {
                        let p = choose|p: int| occurs_at(s@, w, p);
                        assert(0 <= p < i);
                        assert(w == window_at(s@, p, n as int));
                    }
                }
            }
        } else {
            proof {
                assert forall|w: Seq<char>| is_window(s@, w) && w.len() < n + 1 implies lists_text(out@, w) by {
                    if w.len() == n {
                        let p = choose|p: int| occurs_at(s@, w, p);
                        assert(false);
                    }
                }
            }
        }
        n = n + 1;
    }
    out
}

} // verus!

verus! {

/// The text of one decimal digit.
pub open spec fn digit_text(d: nat) -> Seq<char> {
    if d == 0 {
        "0"@
    } else if d == 1 {
        "1"@
    } else if d == 2 {
        "2"@
    } else if d == 3 {
        "3"@
    } else if d == 4 {
        "4"@
    } else if d == 5 {
        "5"@
    } else if d == 6 {
        "6"@
    } else if d == 7 {
        "7"@
    } else if d == 8 {
        "8"@
    } else {
        "9"@
    }
}

/// The decimal text of a number.
pub open spec fn decimal_text(n: nat) -> Seq<char>
    decreases n,
{
    if n < 10 {
        digit_text(n)
    } else {
        decimal_text(n / 10) + digit_text(n % 10)
    }
}

/// The text of the decimal digit `d`.
pub fn digit_str(d: usize) -> (s: &'static str)
    requires
        d < 10,
    ensures
        s@ == digit_text(d as nat),
{
    if d == 0 {
        "0"
    } else if d == 1 {
        "1"
    } else if d == 2 {
        "2"
    } else if d == 3 {
        "3"
    } else if d == 4 {
        "4"
    } else if d == 5 {
        "5"
    } else if d == 6 {
        "6"
    } else if d == 7 {
        "7"
    } else if d == 8 {
        "8"
    } else {
        "9"
    }
}

/// The decimal text of `n`.
pub fn decimal(n: usize) -> (s: String)
    ensures
        s@ == decimal_text(n as nat),
    decreases n,
{
    if n < 10 {
        String::from_str(digit_str(n))
    } else {
        let mut s = decimal(n / 10);
        s.append(digit_str(n % 10));
        s
    }
}

/// The decimal text of `n`.
pub fn decimal64(n: u64) -> (s: String)
    ensures
        s@ == decimal_text(n as nat),
    decreases n,
{
    if n < 10 {
        String::from_str(digit_str(n as usize))
    } else {
        let mut s = decimal64(n / 10);
        s.append(digit_str((n % 10) as usize));
        s
    }
}

} // verus!
