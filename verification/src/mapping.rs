//! Domain-name mapping on label boundaries: deciding whether one name ends
//! with another as a dot-delimited suffix, the same decision on the host
//! component of an `http://` / `https://` destination, and the ordered
//! application of origin-to-destination mappings built on the two.
use vstd::prelude::*;

use crate::text::{from_chars, to_chars};

verus! {

/// Whether `s` starts with `p`.
pub open spec fn spec_starts_with(s: Seq<char>, p: Seq<char>) -> bool {
    s.len() >= p.len() && s.subrange(0, p.len() as int) == p
}

/// The first position at or after `from` holding `c`, or `s.len()` when the
/// rest of `s` misses `c`.
pub open spec fn first_from(s: Seq<char>, c: char, from: int) -> int
    decreases s.len() - from,
{
    if from < 0 || from >= s.len() {
        s.len() as int
    } else if s[from] == c {
        from
    } else {
        first_from(s, c, from + 1)
    }
}

/// Where `name` ends with `anchor` on a label boundary: the retained prefix
/// (empty for an exact match, otherwise ending with the delimiting `.`), or
/// `None` when `anchor` is not a dot-delimited suffix of `name`.
pub open spec fn spec_relative(name: Seq<char>, anchor: Seq<char>) -> Option<Seq<char>> {
    if name.len() >= anchor.len() && name.subrange(
        name.len() - anchor.len(),
        name.len() as int,
    ) == anchor {
        if name.len() == anchor.len() {
            Some(Seq::empty())
        } else if name[name.len() - anchor.len() - 1] == '.' {
            Some(name.subrange(0, name.len() - anchor.len()))
        } else {
            None
        }
    } else {
        None
    }
}

/// Whether the characters `cs[cs.len() - suf.len() ..]` equal `suf`.
fn ends_with_chars(cs: &Vec<char>, suf: &Vec<char>) -> (r: bool)
    ensures
        r == (cs@.len() >= suf@.len() && cs@.subrange(
            cs@.len() - suf@.len(),
            cs@.len() as int,
        ) == suf@),
{
    if cs.len() < suf.len() {
        return false;
    }
    let n = cs.len();
    let off = n - suf.len();
    let mut j: usize = 0;
    while j < suf.len()
        invariant
            0 <= j <= suf@.len(),
            n == cs@.len(),
            off == cs@.len() - suf@.len(),
            cs@.len() >= suf@.len(),
            forall|k: int| 0 <= k < j ==> cs@[off + k] == suf@[k],
        decreases suf@.len() - j,
    {
        if cs[off + j] != suf[j] {
            proof {
                assert(cs@.subrange(cs@.len() - suf@.len(), cs@.len() as int)[j as int] != suf@[j as int]);
            }
            return false;
        }
        j = j + 1;
    }
    proof {
        assert(cs@.subrange(cs@.len() - suf@.len(), cs@.len() as int) =~= suf@);
    }
    true
}

/// Label-boundary suffix decision on character vectors: the length of the
/// retained prefix, when `anchor` is a dot-delimited suffix of `name`.
fn relative_chars(name: &Vec<char>, anchor: &Vec<char>) -> (r: Option<usize>)
    ensures
        match r {
            Some(k) => k <= name@.len() && spec_relative(name@, anchor@) == Some(
                name@.subrange(0, k as int),
            ),
            None => spec_relative(name@, anchor@) is None,
        },
{
    if !ends_with_chars(name, anchor) {
        return None;
    }
    if name.len() == anchor.len() {
        proof {
            assert(name@.subrange(0, 0) =~= Seq::<char>::empty());
        }
        return Some(0);
    }
    let k = name.len() - anchor.len();
    if name[k - 1] == '.' {
        Some(k)
    } else {
        None
    }
}

/// Where `name` ends with `anchor` as a dot-delimited suffix: the retained
/// prefix (empty on an exact match, otherwise ending with the delimiting
/// `.`); `None` otherwise, in particular when `anchor` occurs only as a
/// plain text suffix cutting a label in half.
pub fn relative(name: &String, anchor: &String) -> (r: Option<String>)
    ensures
        match r {
            Some(p) => spec_relative(name@, anchor@) == Some(p@),
            None => spec_relative(name@, anchor@) is None,
        },
{
    let name_cs = to_chars(name.as_str());
    let anchor_cs = to_chars(anchor.as_str());
    match relative_chars(&name_cs, &anchor_cs) {
        Some(k) => {
            let mut out: Vec<char> = Vec::new();
            let mut j: usize = 0;
            while j < k
                invariant
                    0 <= j <= k <= name_cs@.len(),
                    name_cs@ == name@,
                    out@ == name_cs@.subrange(0, j as int),
                decreases k - j,
            {
                out.push(name_cs[j]);
                proof {
                    assert(out@ =~= name_cs@.subrange(0, j + 1 as int));
                }
                j = j + 1;
            }
            Some(from_chars(&out))
        },
        None => None,
    }
}

/// Where the destination text `name` carries an `http://` or `https://`
/// scheme and its host component ends with `anchor` on a label boundary:
/// the pair of the text up to the replaced part of the host (scheme plus
/// any retained host prefix) and the text after the host (`:port`, `/path`,
/// or both); `None` otherwise.
pub open spec fn spec_proxy_subst(name: Seq<char>, anchor: Seq<char>) -> Option<
    (Seq<char>, Seq<char>),
> {
    if !(spec_starts_with(name, "http://"@) || spec_starts_with(name, "https://"@)) {
        None
    } else {
        let p0: int = if spec_starts_with(name, "http://"@) {
            7
        } else {
            8
        };
        let slash = first_from(name, '/', p0);
        let colon = first_from(name.subrange(p0, slash), ':', 0);
        let host = name.subrange(p0, p0 + colon);
        match spec_relative(host, anchor) {
            Some(hp) => Some(
                (name.subrange(0, p0) + hp, name.subrange(p0 + host.len(), name.len() as int)),
            ),
            None => None,
        }
    }
}

/// Whether the characters `cs[0 .. p.len()]` equal `p`.
pub fn has_prefix_chars(cs: &Vec<char>, p: &Vec<char>) -> (r: bool)
    ensures
        r == spec_starts_with(cs@, p@),
{
    if cs.len() < p.len() {
        return false;
    }
    let mut j: usize = 0;
    while j < p.len()
        invariant
            0 <= j <= p@.len() <= cs@.len(),
            forall|k: int| 0 <= k < j ==> cs@[k] == p@[k],
        decreases p@.len() - j,
    {
        if cs[j] != p[j] {
            proof {
                assert(cs@.subrange(0, p@.len() as int)[j as int] != p@[j as int]);
            }
            return false;
        }
        j = j + 1;
    }
    proof {
        assert(cs@.subrange(0, p@.len() as int) =~= p@);
    }
    true
}

/// Finds the first position at or after `start` holding `c`.
pub fn find_from(cs: &Vec<char>, c: char, start: usize) -> (e: usize)
    requires
        start <= cs@.len(),
    ensures
        e == first_from(cs@, c, start as int),
        start <= e <= cs@.len(),
        e < cs@.len() ==> cs@[e as int] == c,
{
    let mut j: usize = start;
    while j < cs.len() && cs[j] != c
        invariant
            start <= j <= cs@.len(),
            first_from(cs@, c, start as int) == first_from(cs@, c, j as int),
        decreases cs@.len() - j,
    {
        j = j + 1;
    }
    j
}

/// The text of `cs[a..b]` as a string.
pub fn chars_to_string(cs: &Vec<char>, a: usize, b: usize) -> (r: String)
    requires
        a <= b <= cs@.len(),
    ensures
        r@ == cs@.subrange(a as int, b as int),
{
    let mut out: Vec<char> = Vec::new();
    let mut j: usize = a;
    while j < b
        invariant
            a <= j <= b <= cs@.len(),
            out@ == cs@.subrange(a as int, j as int),
        decreases b - j,
    {
        out.push(cs[j]);
        proof {
            assert(out@ =~= cs@.subrange(a as int, j + 1 as int));
        }
        j = j + 1;
    }
    from_chars(&out)
}

/// Splits an `http://` / `https://` destination around the replaced part of
/// its host when the host ends with `anchor` on a label boundary: the text
/// before (scheme plus retained host prefix) and after (port and path) the
/// replaced suffix.
pub fn proxy_subst(name: &String, anchor: &String) -> (r: Option<(String, String)>)
    ensures
        match r {
            Some(p) => spec_proxy_subst(name@, anchor@) == Some((p.0@, p.1@)),
            None => spec_proxy_subst(name@, anchor@) is None,
        },
{
    let cs = to_chars(name.as_str());
    let anchor_cs = to_chars(anchor.as_str());
    let http = to_chars("http://");
    let https = to_chars("https://");
    proof {
        reveal_strlit("http://");
        reveal_strlit("https://");
    }
    let p0: usize = if has_prefix_chars(&cs, &http) {
        7
    } else if has_prefix_chars(&cs, &https) {
        8
    } else {
        return None;
    };
    let slash = find_from(&cs, '/', p0);
    let mut host: Vec<char> = Vec::new();
    let mut j: usize = p0;
    while j < slash
        invariant
            p0 <= j <= slash <= cs@.len(),
            host@ == cs@.subrange(p0 as int, j as int),
        decreases slash - j,
    {
        host.push(cs[j]);
        proof {
            assert(host@ =~= cs@.subrange(p0 as int, j + 1 as int));
        }
        j = j + 1;
    }
    let colon = find_from(&host, ':', 0);
    let host_len = colon;
    proof {
        assert(host@ =~= cs@.subrange(p0 as int, slash as int));
    }
    let mut host_only: Vec<char> = Vec::new();
    let mut m: usize = 0;
    while m < host_len
        invariant
            0 <= m <= host_len <= host@.len(),
            host_only@ == host@.subrange(0, m as int),
        decreases host_len - m,
    {
        host_only.push(host[m]);
        proof {
            assert(host_only@ =~= host@.subrange(0, m + 1 as int));
        }
        m = m + 1;
    }
    proof {
        assert(host_only@ =~= cs@.subrange(p0 as int, p0 + host_len as int));
    }
    match relative_chars(&host_only, &anchor_cs) {
        Some(k) => {
            let prefix = chars_to_string(&cs, 0, p0 + k);
            let suffix = chars_to_string(&cs, p0 + host_len, cs.len());
            proof {
                assert(cs@.subrange(0, (p0 + k) as int) =~= cs@.subrange(0, p0 as int)
                    + host_only@.subrange(0, k as int));
            }
            Some((prefix, suffix))
        },
        None => None,
    }
}

} // verus!
