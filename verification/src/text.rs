//! Plain-text helpers shared by the whole engine: character classes of the
//! value grammar, conversions between `String` and `Vec<char>`, and the
//! `key=value` splitting used by every rule-argument parser.
use vstd::prelude::*;

verus! {

/// A character that may appear in a variable name: `[a-zA-Z0-9_]`.
pub open spec fn ident_char(c: char) -> bool {
    ('a' <= c && c <= 'z') || ('A' <= c && c <= 'Z') || ('0' <= c && c <= '9') || c == '_'
}

/// A character that may appear verbatim in a literal segment of a value:
/// everything except whitespace, the structural punctuation of the
/// configuration grammar, quoting, escapes, and the `$` that starts a
/// variable reference.
pub open spec fn plain_char(c: char) -> bool {
    !(c == ' ' || c == '\t' || c == '\r' || c == '\n' || c == ';' || c == '{' || c == '}'
        || c == '#' || c == '"' || c == '\'' || c == '\\' || c == '$')
}

/// Executable mirror of [`ident_char`].
pub fn is_ident_char(c: char) -> (r: bool)
    ensures
        r == ident_char(c),
{
    ('a' <= c && c <= 'z') || ('A' <= c && c <= 'Z') || ('0' <= c && c <= '9') || c == '_'
}

/// Executable mirror of [`plain_char`].
pub fn is_plain_char(c: char) -> (r: bool)
    ensures
        r == plain_char(c),
{
    !(c == ' ' || c == '\t' || c == '\r' || c == '\n' || c == ';' || c == '{' || c == '}'
        || c == '#' || c == '"' || c == '\'' || c == '\\' || c == '$')
}

/// Relies on `str::chars` and `Iterator::collect`: the resulting vector holds
/// exactly the characters of the string, in order.
#[verifier::external_body]
pub fn to_chars(s: &str) -> (r: Vec<char>)
    ensures
        r@ == s@,
{
    s.chars().collect()
}

/// Relies on `String`'s `FromIterator<char>`: the resulting string holds
/// exactly the given characters, in order.
#[verifier::external_body]
pub fn from_chars(v: &Vec<char>) -> (r: String)
    ensures
        r@ == v@,
{
    v.iter().collect()
}

/// Where `s` splits at its first `=`: the pair of the text before and after
/// it, or `None` when `s` holds no `=` at all.
pub open spec fn spec_split_eq(s: Seq<char>) -> Option<(Seq<char>, Seq<char>)> {
    if exists|i: int| 0 <= i < s.len() && s[i] == '='
    {
        let i = first_eq(s, 0);
        Some((s.subrange(0, i), s.subrange(i + 1, s.len() as int)))
    } else {
        None
    }
}

/// The position of the first `=` in `s` at or after `from`, assuming one exists.
pub open spec fn first_eq(s: Seq<char>, from: int) -> int
    decreases s.len() - from,
{
    if from < 0 || from >= s.len() {
        from
    } else if s[from] == '=' {
        from
    } else {
        first_eq(s, from + 1)
    }
}

/// Splits a `key=value` rule argument at its first `=`.
pub fn split_eq(s: &String) -> (r: Option<(String, String)>)
    ensures
        match r {
            Some(p) => spec_split_eq(s@) == Some((p.0@, p.1@)),
            None => spec_split_eq(s@) is None,
        },
{
    let chars = to_chars(s.as_str());
    let mut i: usize = 0;
    while i < chars.len()
        invariant
            0 <= i <= chars@.len(),
            chars@ == s@,
            forall|j: int| 0 <= j < i ==> chars@[j] != '=',
        decreases chars@.len() - i,
    {
        if chars[i] == '=' {
            let mut head: Vec<char> = Vec::new();
            let mut k: usize = 0;
            while k < i
                invariant
                    0 <= k <= i < chars@.len(),
                    chars@ == s@,
                    head@ == chars@.subrange(0, k as int),
                decreases i - k,
            {
                head.push(chars[k]);
                k = k + 1;
            }
            let mut tail: Vec<char> = Vec::new();
            let mut m: usize = i + 1;
            while m < chars.len()
                invariant
                    i < m <= chars@.len(),
                    chars@ == s@,
                    tail@ == chars@.subrange(i + 1, m as int),
                decreases chars@.len() - m,
            {
                tail.push(chars[m]);
                m = m + 1;
            }
            proof {
                lemma_first_eq(s@, 0, i as int);
                assert(head@ =~= s@.subrange(0, i as int));
                assert(tail@ =~= s@.subrange(i + 1, s@.len() as int));
            }
            return Some((from_chars(&head), from_chars(&tail)));
        }
        i = i + 1;
    }
    None
}

/// Where every position in `from..i` misses `=` and `s[i] == '='`, the first
/// `=` search from `from` lands on `i`.
proof fn lemma_first_eq(s: Seq<char>, from: int, i: int)
    requires
        0 <= from <= i < s.len(),
        s[i] == '=',
        forall|j: int| from <= j < i ==> s[j] != '=',
    ensures
        first_eq(s, from) == i,
    decreases i - from,
{
    if from < i {
        lemma_first_eq(s, from + 1, i);
    }
}

} // verus!
