//! Parsing and validation of rule arguments: `key=value` splitting, regex
//! validation, and the plain-text check on substitution values.  Every rule
//! argument error is detected here, before any tree is touched.
use vstd::prelude::*;

use crate::model::{item_view, Item};
use crate::outside::{regex_check, regex_valid};
use crate::rules::{repl_view, ErrView, RuleError};
use crate::subst::{chain_valid, pairs_view};
use crate::text::{is_plain_char, plain_char, spec_split_eq, split_eq, to_chars};

verus! {

/// What a list of `key=value` arguments splits into, when every argument
/// holds an `=`.
pub open spec fn split_all(items: Seq<Seq<char>>) -> Seq<(Seq<char>, Seq<char>)> {
    items.map_values(
        |s: Seq<char>|
            match spec_split_eq(s) {
                Some(p) => p,
                None => (s, Seq::<char>::empty()),
            },
    )
}

/// Whether every argument holds an `=`.
pub open spec fn all_have_eq(items: Seq<Seq<char>>) -> bool {
    forall|j: int| 0 <= j < items.len() ==> spec_split_eq(#[trigger] items[j]) is Some
}

/// The views of a list of strings.
pub open spec fn items_view(items: Seq<String>) -> Seq<Seq<char>> {
    items.map_values(|s: String| s@)
}

/// Splits each `key=value` argument at its first `=`.  An argument without
/// `=` is an error naming it; the first such argument wins.
pub fn parse_pairs(items: &Vec<String>) -> (res: Result<Vec<(String, String)>, RuleError>)
    ensures
        match res {
            Ok(ps) => all_have_eq(items_view(items@)) && pairs_view(ps@) == split_all(
                items_view(items@),
            ),
            Err(e) => match e@ {
                ErrView::MissingEq(s) => !all_have_eq(items_view(items@)) && exists|j: int|
                    0 <= j < items@.len() && spec_split_eq(#[trigger] items_view(items@)[j])
                        is None && items@[j]@ == s,
                _ => false,
            },
        },
{
    let mut out: Vec<(String, String)> = Vec::new();
    let mut i: usize = 0;
    while i < items.len()
        invariant
            0 <= i <= items@.len(),
            out@.len() == i,
            forall|j: int|
                0 <= j < i ==> spec_split_eq(#[trigger] items_view(items@)[j]) is Some,
            forall|j: int|
                0 <= j < i ==> ((#[trigger] out@[j]).0@, out@[j].1@) == split_all(
                    items_view(items@),
                )[j],
        decreases items@.len() - i,
    {
        match split_eq(&items[i]) {
            Some(p) => {
                let ghost pv = (p.0@, p.1@);
                out.push(p);
                proof {
                    assert(items_view(items@)[i as int] == items@[i as int]@);
                    assert((out@[i as int].0@, out@[i as int].1@) == pv);
                    assert(split_all(items_view(items@))[i as int] == pv);
                }
            },
            None => {
                return Err(RuleError::MissingEq(items[i].clone()));
            },
        }
        i = i + 1;
    }
    proof {
        assert(pairs_view(out@) =~= split_all(items_view(items@)));
    }
    Ok(out)
}

/// Splits each variable argument at its first `=`; an argument without `=`
/// names a variable substituted by the empty string.
pub fn parse_var_pairs(items: &Vec<String>) -> (r: Vec<(String, String)>)
    ensures
        pairs_view(r@) == split_all(items_view(items@)),
{
    let mut out: Vec<(String, String)> = Vec::new();
    let mut i: usize = 0;
    while i < items.len()
        invariant
            0 <= i <= items@.len(),
            out@.len() == i,
            forall|j: int|
                0 <= j < i ==> ((#[trigger] out@[j]).0@, out@[j].1@) == split_all(
                    items_view(items@),
                )[j],
        decreases items@.len() - i,
    {
        match split_eq(&items[i]) {
            Some(p) => {
                let ghost pv = (p.0@, p.1@);
                out.push(p);
                proof {
                    assert(items_view(items@)[i as int] == items@[i as int]@);
                    assert((out@[i as int].0@, out@[i as int].1@) == pv);
                    assert(split_all(items_view(items@))[i as int] == pv);
                }
            },
            None => {
                out.push((items[i].clone(), String::new()));
                proof {
                    assert(items_view(items@)[i as int] == items@[i as int]@);
                    assert((out@[i as int].0@, out@[i as int].1@) == (
                        items@[i as int]@,
                        Seq::<char>::empty(),
                    ));
                    assert(split_all(items_view(items@))[i as int] == (
                        items@[i as int]@,
                        Seq::<char>::empty(),
                    ));
                }
            },
        }
        i = i + 1;
    }
    proof {
        assert(pairs_view(out@) =~= split_all(items_view(items@)));
    }
    out
}

/// Whether every character of the text is plain (may stand verbatim in a
/// literal segment).
pub open spec fn all_plain(s: Seq<char>) -> bool {
    forall|i: int| 0 <= i < s.len() ==> plain_char(s[i])
}

/// Whether the text is plain throughout.
pub fn is_all_plain(s: &String) -> (r: bool)
    ensures
        r == all_plain(s@),
{
    let cs = to_chars(s.as_str());
    let mut i: usize = 0;
    while i < cs.len()
        invariant
            0 <= i <= cs@.len(),
            cs@ == s@,
            forall|j: int| 0 <= j < i ==> plain_char(cs@[j]),
        decreases cs@.len() - i,
    {
        if !is_plain_char(cs[i]) {
            return false;
        }
        i = i + 1;
    }
    true
}

/// Whether every substituted value is plain text the value grammar can
/// carry back and forth.
pub open spec fn all_values_plain(ps: Seq<(Seq<char>, Seq<char>)>) -> bool {
    forall|j: int| 0 <= j < ps.len() ==> all_plain((#[trigger] ps[j]).1)
}

/// Checks that every substitution value is plain text; the first offending
/// value is the error.
pub fn check_plain_values(ps: &Vec<(String, String)>) -> (res: Result<(), RuleError>)
    ensures
        match res {
            Ok(()) => all_values_plain(pairs_view(ps@)),
            Err(e) => match e@ {
                ErrView::BadSubstValue(v) => exists|j: int|
                    0 <= j < ps@.len() && !all_plain((#[trigger] pairs_view(ps@)[j]).1)
                        && ps@[j].1@ == v,
                _ => false,
            },
        },
{
    let mut i: usize = 0;
    while i < ps.len()
        invariant
            0 <= i <= ps@.len(),
            forall|j: int| 0 <= j < i ==> all_plain((#[trigger] pairs_view(ps@)[j]).1),
        decreases ps@.len() - i,
    {
        if !is_all_plain(&ps[i].1) {
            proof {
                assert(!all_plain(pairs_view(ps@)[i as int].1));
            }
            return Err(RuleError::BadSubstValue(ps[i].1.clone()));
        }
        i = i + 1;
    }
    Ok(())
}

/// Checks that every pattern of a regex chain compiles; the first
/// non-compiling pattern is the error.
pub fn check_regex_pairs(ps: &Vec<(String, String)>) -> (res: Result<(), RuleError>)
    ensures
        match res {
            Ok(()) => chain_valid(pairs_view(ps@)),
            Err(e) => match e@ {
                ErrView::InvalidRegex(p) => exists|j: int|
                    0 <= j < ps@.len() && !regex_valid((#[trigger] pairs_view(ps@)[j]).0)
                        && ps@[j].0@ == p,
                _ => false,
            },
        },
{
    let mut i: usize = 0;
    while i < ps.len()
        invariant
            0 <= i <= ps@.len(),
            forall|j: int| 0 <= j < i ==> regex_valid((#[trigger] pairs_view(ps@)[j]).0),
        decreases ps@.len() - i,
    {
        if !regex_check(&ps[i].0) {
            proof {
                assert(!regex_valid(pairs_view(ps@)[i as int].0));
            }
            return Err(RuleError::InvalidRegex(ps[i].0.clone()));
        }
        i = i + 1;
    }
    Ok(())
}

/// A copy of a list of string pairs.
pub fn clone_pairs(ps: &Vec<(String, String)>) -> (r: Vec<(String, String)>)
    ensures
        pairs_view(r@) == pairs_view(ps@),
{
    let mut out: Vec<(String, String)> = Vec::new();
    let mut i: usize = 0;
    while i < ps.len()
        invariant
            0 <= i <= ps@.len(),
            out@.len() == i,
            forall|j: int|
                0 <= j < i ==> (#[trigger] out@[j]).0@ == ps@[j].0@ && out@[j].1@ == ps@[j].1@,
        decreases ps@.len() - i,
    {
        out.push((ps[i].0.clone(), ps[i].1.clone()));
        i = i + 1;
    }
    proof {
        assert(pairs_view(out@) =~= pairs_view(ps@));
    }
    out
}

/// A copy of a list of strings.
pub fn clone_strs(ss: &Vec<String>) -> (r: Vec<String>)
    ensures
        r@.map_values(|s: String| s@) == ss@.map_values(|s: String| s@),
{
    let mut out: Vec<String> = Vec::new();
    let mut i: usize = 0;
    while i < ss.len()
        invariant
            0 <= i <= ss@.len(),
            out@.len() == i,
            forall|j: int| 0 <= j < i ==> out@[j]@ == ss@[j]@,
        decreases ss@.len() - i,
    {
        out.push(ss[i].clone());
        i = i + 1;
    }
    proof {
        assert(out@.map_values(|s: String| s@) =~= ss@.map_values(|s: String| s@));
    }
    out
}

/// A deep copy of a replacement list.
pub fn clone_repls(rs: &Vec<(String, Item)>) -> (r: Vec<(String, Item)>)
    ensures
        repl_view(r@) == repl_view(rs@),
{
    let mut out: Vec<(String, Item)> = Vec::new();
    let mut i: usize = 0;
    while i < rs.len()
        invariant
            0 <= i <= rs@.len(),
            out@.len() == i,
            forall|j: int|
                0 <= j < i ==> (#[trigger] out@[j]).0@ == rs@[j].0@ && item_view(out@[j].1)
                    == item_view(rs@[j].1),
        decreases rs@.len() - i,
    {
        out.push((rs[i].0.clone(), rs[i].1.deep_clone()));
        i = i + 1;
    }
    proof {
        assert(repl_view(out@) =~= repl_view(rs@));
    }
    out
}

/// Validates one replacement rule argument of the `NAME=directive` form:
/// the name must be non-empty and the replacement text present and
/// non-empty.  The caller parses the replacement text as one directive.
pub fn parse_replacement_arg(s: &String) -> (res: Result<(String, String), RuleError>)
    ensures
        match res {
            Ok(p) => spec_split_eq(s@) == Some((p.0@, p.1@)) && p.0@.len() > 0 && p.1@.len() > 0,
            Err(e) => match e@ {
                ErrView::MissingEq(t) => spec_split_eq(s@) is None && t == s@,
                ErrView::EmptyName(t) => t == s@ && (match spec_split_eq(s@) {
                    Some(p) => p.0.len() == 0 || p.1.len() == 0,
                    None => false,
                }),
                _ => false,
            },
        },
{
    match split_eq(s) {
        Some((name, rest)) => {
            if name.as_str().is_empty() || rest.as_str().is_empty() {
                Err(RuleError::EmptyName(s.clone()))
            } else {
                Ok((name, rest))
            }
        },
        None => Err(RuleError::MissingEq(s.clone())),
    }
}

} // verus!
