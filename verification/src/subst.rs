//! The textual substitutions the rewrite rules are built on: variable
//! substitution inside a value (with re-normalization of the segment list),
//! ordered origin-to-destination name and host mappings, ordered regex
//! chains, and the host-portion rewrite of redirect destinations.
use vstd::prelude::*;

use crate::mapping::{first_from, spec_proxy_subst, spec_relative, spec_starts_with};
use crate::mapping::{proxy_subst, relative};
use crate::model::{SegView, Segment, Value, ValueView};
use crate::outside::{regex_replace, regex_valid, regex_replace_first};
use crate::text::{from_chars, to_chars};
use vstd::string::StringExecFns;

verus! {

// ----------------------------------------------------------- ordered lookup

/// The views of a list of string pairs.
pub open spec fn pairs_view(ms: Seq<(String, String)>) -> Seq<(Seq<char>, Seq<char>)> {
    ms.map_values(|p: (String, String)| (p.0@, p.1@))
}

/// The value of the first pair whose key equals `k`, in list order.
pub open spec fn lookup_pair(ms: Seq<(Seq<char>, Seq<char>)>, k: Seq<char>) -> Option<Seq<char>>
    decreases ms.len(),
{
    if ms.len() == 0 {
        None
    } else if ms[0].0 == k {
        Some(ms[0].1)
    } else {
        lookup_pair(ms.drop_first(), k)
    }
}

/// Skipping a non-matching prefix leaves the lookup unchanged.
proof fn lemma_lookup_skip(ms: Seq<(Seq<char>, Seq<char>)>, k: Seq<char>, i: int)
    requires
        0 <= i <= ms.len(),
        forall|j: int| 0 <= j < i ==> (#[trigger] ms[j]).0 != k,
    ensures
        lookup_pair(ms, k) == lookup_pair(ms.subrange(i, ms.len() as int), k),
    decreases i,
{
    if i > 0 {
        assert(ms.drop_first() =~= ms.subrange(1, ms.len() as int));
        lemma_lookup_skip(ms.drop_first(), k, i - 1);
        assert(ms.drop_first().subrange(i - 1, ms.drop_first().len() as int) =~= ms.subrange(
            i,
            ms.len() as int,
        ));
    } else {
        assert(ms.subrange(0, ms.len() as int) =~= ms);
    }
}

/// Finds the first pair whose key equals `k` and returns a copy of its value.
pub fn lookup(ms: &Vec<(String, String)>, k: &String) -> (r: Option<String>)
    ensures
        match r {
            Some(v) => lookup_pair(pairs_view(ms@), k@) == Some(v@),
            None => lookup_pair(pairs_view(ms@), k@) is None,
        },
{
    let mut i: usize = 0;
    while i < ms.len()
        invariant
            0 <= i <= ms@.len(),
            forall|j: int| 0 <= j < i ==> (#[trigger] pairs_view(ms@)[j]).0 != k@,
        decreases ms@.len() - i,
    {
        if ms[i].0.eq(k) {
            proof {
                lemma_lookup_skip(pairs_view(ms@), k@, i as int);
            }
            return Some(ms[i].1.clone());
        }
        i = i + 1;
    }
    proof {
        lemma_lookup_skip(pairs_view(ms@), k@, ms@.len() as int);
    }
    None
}

// ------------------------------------------------- variable substitution

/// One segment after substitution: a variable present in the map becomes the
/// mapped literal; anything else is untouched.
pub open spec fn subst_seg(sg: SegView, ms: Seq<(Seq<char>, Seq<char>)>) -> SegView {
    match sg {
        SegView::Var(n) => match lookup_pair(ms, n) {
            Some(v) => SegView::Lit(v),
            None => sg,
        },
        SegView::Lit(_) => sg,
    }
}

/// The literal text of a literal segment.
pub open spec fn lit_text(sg: SegView) -> Seq<char> {
    match sg {
        SegView::Lit(t) => t,
        SegView::Var(n) => n,
    }
}

/// One normalization step: empty literals vanish and a literal following a
/// literal merges into it.
pub open spec fn norm_step(acc: ValueView, sg: SegView) -> ValueView {
    match sg {
        SegView::Lit(t) => if t.len() == 0 {
            acc
        } else if acc.len() > 0 && acc.last() is Lit {
            acc.drop_last().push(SegView::Lit(lit_text(acc.last()) + t))
        } else {
            acc.push(sg)
        },
        SegView::Var(_) => acc.push(sg),
    }
}

/// The normalized form of a segment list.
pub open spec fn norm(v: ValueView) -> ValueView {
    v.fold_left(Seq::<SegView>::empty(), |acc: ValueView, sg: SegView| norm_step(acc, sg))
}

/// A value after variable substitution: every variable present in the map
/// replaced by its literal, and the segment list re-normalized.
pub open spec fn subst_value(v: ValueView, ms: Seq<(Seq<char>, Seq<char>)>) -> ValueView {
    norm(v.map_values(|sg: SegView| subst_seg(sg, ms)))
}

/// Appends a segment to a normalized segment vector, keeping it normalized.
fn push_norm(out: &mut Vec<Segment>, sg: Segment)
    ensures
        final(out)@.map_values(|s: Segment| s@) == norm_step(
            old(out)@.map_values(|s: Segment| s@),
            sg@,
        ),
{
    let ghost pre = out@.map_values(|s: Segment| s@);
    let ghost sgv = sg@;
    match sg {
        Segment::Lit(t) => {
            if t.as_str().is_empty() {
                proof {
                    assert(norm_step(pre, sgv) =~= pre);
                }
                return ;
            }
            let mut tail_is_lit = false;
            if out.len() > 0 {
                tail_is_lit = match &out[out.len() - 1] {
                    Segment::Lit(_) => true,
                    Segment::Var(_) => false,
                };
                proof {
                    assert(pre.last() == out@[out@.len() - 1]@);
                }
            }
            if tail_is_lit {
                let last = out.pop().unwrap();
                match last {
                    Segment::Lit(u) => {
                        let merged = u.concat(t.as_str());
                        out.push(Segment::Lit(merged));
                        proof {
                            assert(out@.map_values(|s: Segment| s@) =~= pre.drop_last().push(
                                SegView::Lit(lit_text(pre.last()) + t@),
                            ));
                        }
                    },
                    Segment::Var(_) => {
                        proof {
                            assert(false);
                        }
                    },
                }
            } else {
                out.push(Segment::Lit(t));
                proof {
                    assert(out@.map_values(|s: Segment| s@) =~= pre.push(sgv));
                }
            }
        },
        Segment::Var(n) => {
            out.push(Segment::Var(n));
            proof {
                assert(out@.map_values(|s: Segment| s@) =~= pre.push(sgv));
            }
        },
    }
}

/// Applies variable substitution to a value.
pub fn subst_value_exec(v: Value, ms: &Vec<(String, String)>) -> (r: Value)
    ensures
        r@ == subst_value(v@, pairs_view(ms@)),
{
    let ghost vv = v@;
    let ghost msv = pairs_view(ms@);
    let ghost mapped = vv.map_values(|sg: SegView| subst_seg(sg, msv));
    let mut out: Vec<Segment> = Vec::new();
    let mut i: usize = 0;
    let n = v.segs.len();
    while i < n
        invariant
            0 <= i <= n,
            n == v.segs@.len(),
            vv == v@,
            msv == pairs_view(ms@),
            mapped == vv.map_values(|sg: SegView| subst_seg(sg, msv)),
            out@.map_values(|s: Segment| s@) == norm(mapped.subrange(0, i as int)),
        decreases n - i,
    {
        let sg = match &v.segs[i] {
            Segment::Var(name) => {
                match lookup(ms, name) {
                    Some(val) => Segment::Lit(val),
                    None => Segment::Var(name.clone()),
                }
            },
            Segment::Lit(t) => Segment::Lit(t.clone()),
        };
        proof {
            assert(vv[i as int] == v.segs@[i as int]@);
            assert(sg@ == subst_seg(vv[i as int], msv));
            assert(mapped[i as int] == subst_seg(vv[i as int], msv));
        }
        push_norm(&mut out, sg);
        proof {
            let pre = mapped.subrange(0, i as int);
            let cur = mapped.subrange(0, i + 1 as int);
            assert(cur.drop_last() =~= pre);
            assert(cur.last() == mapped[i as int]);
            assert(norm(cur) == norm_step(norm(pre), mapped[i as int]));
        }
        i = i + 1;
    }
    proof {
        assert(mapped.subrange(0, n as int) =~= mapped);
    }
    Value { segs: out }
}

// --------------------------------------------------- ordered name mappings

/// One server-name mapping applied to a name: when the origin is a
/// dot-delimited suffix, the retained prefix plus the destination.
pub open spec fn apply_sn_map1(n: Seq<char>, m: (Seq<char>, Seq<char>)) -> Seq<char> {
    match spec_relative(n, m.0) {
        Some(p) => p + m.1,
        None => n,
    }
}

/// All server-name mappings applied to a name, in list order.
pub open spec fn apply_sn_maps(n: Seq<char>, ms: Seq<(Seq<char>, Seq<char>)>) -> Seq<char>
    decreases ms.len(),
{
    if ms.len() == 0 {
        n
    } else {
        apply_sn_maps(apply_sn_map1(n, ms[0]), ms.drop_first())
    }
}

/// Applies the ordered server-name mappings to one name.
pub fn apply_name_mappings(name: &String, ms: &Vec<(String, String)>) -> (r: String)
    ensures
        r@ == apply_sn_maps(name@, pairs_view(ms@)),
{
    let ghost msv = pairs_view(ms@);
    let mut cur: String = name.clone();
    let mut i: usize = 0;
    proof {
        assert(msv.subrange(0, msv.len() as int) =~= msv);
    }
    while i < ms.len()
        invariant
            0 <= i <= ms@.len(),
            msv == pairs_view(ms@),
            apply_sn_maps(name@, msv) == apply_sn_maps(cur@, msv.subrange(i as int, msv.len() as int)),
        decreases ms@.len() - i,
    {
        let ghost rest = msv.subrange(i as int, msv.len() as int);
        match relative(&cur, &ms[i].0) {
            Some(prefix) => {
                cur = prefix.concat(ms[i].1.as_str());
            },
            None => {},
        }
        proof {
            assert(rest[0] == msv[i as int]);
            assert(rest.drop_first() =~= msv.subrange(i + 1 as int, msv.len() as int));
        }
        i = i + 1;
    }
    proof {
        assert(msv.subrange(msv.len() as int, msv.len() as int) =~= Seq::<(Seq<char>, Seq<char>)>::empty());
    }
    cur
}

// --------------------------------------------------- ordered host mappings

/// One proxy-host mapping applied to a destination text.
pub open spec fn apply_proxy_map1(s: Seq<char>, m: (Seq<char>, Seq<char>)) -> Seq<char> {
    match spec_proxy_subst(s, m.0) {
        Some(p) => p.0 + m.1 + p.1,
        None => s,
    }
}

/// All proxy-host mappings applied to a destination text, in list order.
pub open spec fn apply_proxy_maps(s: Seq<char>, ms: Seq<(Seq<char>, Seq<char>)>) -> Seq<char>
    decreases ms.len(),
{
    if ms.len() == 0 {
        s
    } else {
        apply_proxy_maps(apply_proxy_map1(s, ms[0]), ms.drop_first())
    }
}

/// Applies the ordered proxy-host mappings to one destination text.
pub fn apply_host_mappings(text: &String, ms: &Vec<(String, String)>) -> (r: String)
    ensures
        r@ == apply_proxy_maps(text@, pairs_view(ms@)),
{
    let ghost msv = pairs_view(ms@);
    let mut cur: String = text.clone();
    let mut i: usize = 0;
    proof {
        assert(msv.subrange(0, msv.len() as int) =~= msv);
    }
    while i < ms.len()
        invariant
            0 <= i <= ms@.len(),
            msv == pairs_view(ms@),
            apply_proxy_maps(text@, msv) == apply_proxy_maps(
                cur@,
                msv.subrange(i as int, msv.len() as int),
            ),
        decreases ms@.len() - i,
    {
        let ghost rest = msv.subrange(i as int, msv.len() as int);
        match proxy_subst(&cur, &ms[i].0) {
            Some((pre, suf)) => {
                cur = pre.concat(ms[i].1.as_str()).concat(suf.as_str());
            },
            None => {},
        }
        proof {
            assert(rest[0] == msv[i as int]);
            assert(rest.drop_first() =~= msv.subrange(i + 1 as int, msv.len() as int));
        }
        i = i + 1;
    }
    proof {
        assert(msv.subrange(msv.len() as int, msv.len() as int) =~= Seq::<(Seq<char>, Seq<char>)>::empty());
    }
    cur
}

// --------------------------------------------------------- regex chains

/// Whether every pattern in the chain is a valid regular expression.
pub open spec fn chain_valid(rs: Seq<(Seq<char>, Seq<char>)>) -> bool {
    forall|j: int| 0 <= j < rs.len() ==> regex_valid((#[trigger] rs[j]).0)
}

/// The ordered regex chain applied to a text: each pattern's leftmost match
/// replaced in turn, each on the cumulative result of the previous one.
pub open spec fn apply_regex_chain(s: Seq<char>, rs: Seq<(Seq<char>, Seq<char>)>) -> Seq<char>
    decreases rs.len(),
{
    if rs.len() == 0 {
        s
    } else {
        apply_regex_chain(regex_replace_first(rs[0].0, s, rs[0].1), rs.drop_first())
    }
}

/// Applies the ordered regex chain to one text.
pub fn apply_regexes(text: &String, rs: &Vec<(String, String)>) -> (r: String)
    requires
        chain_valid(pairs_view(rs@)),
    ensures
        r@ == apply_regex_chain(text@, pairs_view(rs@)),
{
    let ghost rsv = pairs_view(rs@);
    let mut cur: String = text.clone();
    let mut i: usize = 0;
    proof {
        assert(rsv.subrange(0, rsv.len() as int) =~= rsv);
    }
    while i < rs.len()
        invariant
            0 <= i <= rs@.len(),
            rsv == pairs_view(rs@),
            chain_valid(rsv),
            apply_regex_chain(text@, rsv) == apply_regex_chain(
                cur@,
                rsv.subrange(i as int, rsv.len() as int),
            ),
        decreases rs@.len() - i,
    {
        let ghost rest = rsv.subrange(i as int, rsv.len() as int);
        proof {
            assert(rest[0] == rsv[i as int]);
        }
        match regex_replace(&rs[i].0, &cur, &rs[i].1) {
            Some(next) => {
                cur = next;
            },
            None => {
                proof {
                    assert(regex_valid(rsv[i as int].0));
                    assert(false);
                }
            },
        }
        proof {
            assert(rest.drop_first() =~= rsv.subrange(i + 1 as int, rsv.len() as int));
        }
        i = i + 1;
    }
    proof {
        assert(rsv.subrange(rsv.len() as int, rsv.len() as int) =~= Seq::<(Seq<char>, Seq<char>)>::empty());
    }
    cur
}

// ------------------------------------------------------- rewrite-host text

/// The length of the scheme prefix a rewrite-host substitution acts behind:
/// `http://`, `https://` or `$scheme://`; `None` for any other destination.
pub open spec fn scheme_prefix_len(s: Seq<char>) -> Option<int> {
    if spec_starts_with(s, "http://"@) {
        Some(7)
    } else if spec_starts_with(s, "https://"@) {
        Some(8)
    } else if spec_starts_with(s, "$scheme://"@) {
        Some(10)
    } else {
        None
    }
}

/// The rewrite destination with its host portion (between the scheme
/// separator and the next `/`, or the end) run through the regex chain.
pub open spec fn rewrite_host_text(s: Seq<char>, p0: int, rs: Seq<(Seq<char>, Seq<char>)>) -> Seq<
    char,
> {
    let hend = first_from(s, '/', p0);
    let host = s.subrange(p0, hend);
    s.subrange(0, p0) + apply_regex_chain(host, rs) + s.subrange(hend, s.len() as int)
}

} // verus!
