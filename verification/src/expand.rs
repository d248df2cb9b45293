//! Expansion of relative file-inclusion directives and the allow-list check
//! on the ones that remain.  The engine decides which paths to read and
//! where their parsed fragments are spliced; reading and parsing the files
//! is the caller's part.
use vstd::prelude::*;

use crate::mapping::{has_prefix_chars, spec_starts_with};
use crate::model::{clone_dirs, dir_view, dirs_view, Directive, DirView, Item, ItemView};
use crate::rules::{ErrView, RuleError};
use crate::text::{from_chars, to_chars};
use crate::value::spec_render_value;
use crate::value::render_value;

verus! {

// ------------------------------------------------------------ path notions

/// Whether a path is relative (does not start with `/`).
pub open spec fn spec_is_relative(p: Seq<char>) -> bool {
    !(p.len() > 0 && p[0] == '/')
}

/// A relative path resolved against the directory of the loaded file.
pub open spec fn spec_resolve(base: Seq<char>, p: Seq<char>) -> Seq<char> {
    base + "/"@ + p
}

/// Whether some allowed prefix is a literal prefix of the path.
pub open spec fn allowed_prefix(p: Seq<char>, allowed: Seq<Seq<char>>) -> bool {
    exists|i: int| 0 <= i < allowed.len() && spec_starts_with(p, allowed[i])
}

/// Whether the rendered path is relative.
fn is_relative_path(p: &String) -> (r: bool)
    ensures
        r == spec_is_relative(p@),
{
    let cs = to_chars(p.as_str());
    !(cs.len() > 0 && cs[0] == '/')
}

/// Resolves a relative path against the base directory.
fn resolve_path(base: &String, p: &String) -> (r: String)
    ensures
        r@ == spec_resolve(base@, p@),
{
    let mut out: Vec<char> = Vec::new();
    crate::render::push_chars(&mut out, &to_chars(base.as_str()));
    out.push('/');
    crate::render::push_chars(&mut out, &to_chars(p.as_str()));
    proof {
        reveal_strlit("/");
        assert(out@ =~= base@ + "/"@ + p@);
    }
    from_chars(&out)
}

/// Whether some allowed prefix is a literal prefix of the path.
fn has_allowed_prefix(p: &String, allowed: &Vec<String>) -> (r: bool)
    ensures
        r == allowed_prefix(p@, allowed@.map_values(|a: String| a@)),
{
    let pcs = to_chars(p.as_str());
    let ghost av = allowed@.map_values(|a: String| a@);
    let mut k: usize = 0;
    while k < allowed.len()
        invariant
            0 <= k <= allowed@.len(),
            av == allowed@.map_values(|a: String| a@),
            pcs@ == p@,
            forall|j: int| 0 <= j < k ==> !spec_starts_with(p@, av[j]),
        decreases allowed@.len() - k,
    {
        let acs = to_chars(allowed[k].as_str());
        if has_prefix_chars(&pcs, &acs) {
            proof {
                assert(spec_starts_with(p@, av[k as int]));
            }
            return true;
        }
        k = k + 1;
    }
    false
}

// --------------------------------------------------------- allow-list check

/// The first file-inclusion path in document order that no allowed prefix
/// covers, inside one directive.
pub open spec fn bad_path_dir(d: DirView, allowed: Seq<Seq<char>>) -> Option<Seq<char>>
    decreases d, 0int,
{
    match d.item {
        ItemView::Include(v) => {
            let p = spec_render_value(v);
            if !allowed_prefix(p, allowed) {
                Some(p)
            } else {
                None
            }
        },
        ItemView::If(_, ch) => bad_path_dirs(ch, allowed),
        ItemView::Block(_, _, ch) => bad_path_dirs(ch, allowed),
        _ => None,
    }
}

/// The first file-inclusion path in document order that no allowed prefix
/// covers, inside a directive list.
pub open spec fn bad_path_dirs(ds: Seq<DirView>, allowed: Seq<Seq<char>>) -> Option<Seq<char>>
    decreases ds, 1int,
{
    if ds.len() == 0 {
        None
    } else {
        match bad_path_dir(ds[0], allowed) {
            Some(p) => Some(p),
            None => bad_path_dirs(ds.drop_first(), allowed),
        }
    }
}

/// Checks every file-inclusion directive's path against the allow-list:
/// each must have one of the allowed path prefixes as a literal prefix.
/// The first offending path aborts with an error naming it and the
/// configured allow-list.  The check does not read the allowed files.
pub fn check_paths(dirs: &Vec<Directive>, allowed: &Vec<String>) -> (res: Result<(), RuleError>)
    ensures
        match res {
            Ok(()) => bad_path_dirs(dirs_view(dirs@), allowed@.map_values(|a: String| a@))
                is None,
            Err(e) => match e@ {
                ErrView::PathNotAllowed(p, al) => bad_path_dirs(
                    dirs_view(dirs@),
                    allowed@.map_values(|a: String| a@),
                ) == Some(p) && al == allowed@.map_values(|a: String| a@),
                _ => false,
            },
        },
    decreases dirs@, 1int,
{
    let ghost dsv = dirs_view(dirs@);
    proof {
        crate::model::lemma_dirs_view_index(dirs@);
        assert(dsv.subrange(0, dsv.len() as int) =~= dsv);
    }
    let mut i: usize = 0;
    while i < dirs.len()
        invariant
            0 <= i <= dirs@.len(),
            dsv == dirs_view(dirs@),
            dsv.len() == dirs@.len(),
            forall|k: int| 0 <= k < dirs@.len() ==> dsv[k] == dir_view(dirs@[k]),
            bad_path_dirs(dsv, allowed@.map_values(|a: String| a@)) == bad_path_dirs(
                dsv.subrange(i as int, dsv.len() as int),
                allowed@.map_values(|a: String| a@),
            ),
        decreases dirs@.len() - i,
    {
        let ghost rest = dsv.subrange(i as int, dsv.len() as int);
        proof {
            assert(rest[0] == dsv[i as int]);
            assert(decreases_to!(dirs@ => dirs@[i as int]));
        }
        match check_path_dir(&dirs[i], allowed) {
            Ok(()) => {},
            Err(e) => {
                return Err(e);
            },
        }
        proof {
            assert(rest.drop_first() =~= dsv.subrange(i + 1 as int, dsv.len() as int));
        }
        i = i + 1;
    }
    proof {
        assert(dsv.subrange(dsv.len() as int, dsv.len() as int).len() == 0);
    }
    Ok(())
}

/// Checks one directive (and its children) against the allow-list.
fn check_path_dir(d: &Directive, allowed: &Vec<String>) -> (res: Result<(), RuleError>)
    ensures
        match res {
            Ok(()) => bad_path_dir(dir_view(*d), allowed@.map_values(|a: String| a@)) is None,
            Err(e) => match e@ {
                ErrView::PathNotAllowed(p, al) => bad_path_dir(
                    dir_view(*d),
                    allowed@.map_values(|a: String| a@),
                ) == Some(p) && al == allowed@.map_values(|a: String| a@),
                _ => false,
            },
        },
    decreases *d, 0int,
{
    match &d.item {
        Item::Include(v) => {
            let p = render_value(v);
            if !has_allowed_prefix(&p, allowed) {
                let mut al: Vec<String> = Vec::new();
                let mut k: usize = 0;
                while k < allowed.len()
                    invariant
                        0 <= k <= allowed@.len(),
                        al@.len() == k,
                        forall|j: int| 0 <= j < k ==> al@[j]@ == allowed@[j]@,
                    decreases allowed@.len() - k,
                {
                    al.push(allowed[k].clone());
                    k = k + 1;
                }
                proof {
                    assert(al@.map_values(|a: String| a@) =~= allowed@.map_values(
                        |a: String| a@,
                    ));
                }
                Err(RuleError::PathNotAllowed(p, al))
            } else {
                Ok(())
            }
        },
        Item::If(_, ch) => {
            proof {
                assert(decreases_to!(*d => ch@)) by {
                    assert(decreases_to!(*d => d.item));
                    assert(decreases_to!(d.item => *ch));
                    assert(decreases_to!(*ch => ch@));
                }
            }
            check_paths(ch, allowed)
        },
        Item::Block(_, _, ch) => {
            proof {
                assert(decreases_to!(*d => ch@)) by {
                    assert(decreases_to!(*d => d.item));
                    assert(decreases_to!(d.item => *ch));
                    assert(decreases_to!(*ch => ch@));
                }
            }
            check_paths(ch, allowed)
        },
        _ => Ok(()),
    }
}

// -------------------------------------------------------- path collection

/// The resolved paths of the relative file-inclusion directives inside one
/// directive, in document order.
pub open spec fn inc_paths_dir(d: DirView, base: Seq<char>) -> Seq<Seq<char>>
    decreases d, 0int,
{
    match d.item {
        ItemView::Include(v) => {
            let p = spec_render_value(v);
            if spec_is_relative(p) {
                seq![spec_resolve(base, p)]
            } else {
                Seq::empty()
            }
        },
        ItemView::If(_, ch) => inc_paths_dirs(ch, base),
        ItemView::Block(_, _, ch) => inc_paths_dirs(ch, base),
        _ => Seq::empty(),
    }
}

/// The resolved paths of the relative file-inclusion directives inside a
/// directive list, in document order.
pub open spec fn inc_paths_dirs(ds: Seq<DirView>, base: Seq<char>) -> Seq<Seq<char>>
    decreases ds, 1int,
{
    if ds.len() == 0 {
        Seq::empty()
    } else {
        inc_paths_dir(ds[0], base) + inc_paths_dirs(ds.drop_first(), base)
    }
}

/// Collects the resolved paths of all relative file-inclusion directives,
/// in document order.  The caller reads and parses each and hands the
/// fragments to [`splice_fragments`].
pub fn relative_inc_paths(dirs: &Vec<Directive>, base: &String) -> (r: Vec<String>)
    ensures
        r@.map_values(|s: String| s@) == inc_paths_dirs(dirs_view(dirs@), base@),
{
    let mut out: Vec<String> = Vec::new();
    collect_paths_dirs(dirs, base, &mut out);
    proof {
        assert(out@.map_values(|s: String| s@) =~= Seq::<Seq<char>>::empty() + inc_paths_dirs(
            dirs_view(dirs@),
            base@,
        ));
    }
    out
}

/// Appends the resolved relative paths of a directive list to `out`.
fn collect_paths_dirs(dirs: &Vec<Directive>, base: &String, out: &mut Vec<String>)
    ensures
        final(out)@.map_values(|s: String| s@) == old(out)@.map_values(|s: String| s@)
            + inc_paths_dirs(dirs_view(dirs@), base@),
    decreases dirs@, 1int,
{
    let ghost dsv = dirs_view(dirs@);
    let ghost base0 = old(out)@.map_values(|s: String| s@);
    proof {
        crate::model::lemma_dirs_view_index(dirs@);
        assert(base0 + inc_paths_dirs(dsv.subrange(0, 0), base@) =~= base0);
    }
    let mut i: usize = 0;
    while i < dirs.len()
        invariant
            0 <= i <= dirs@.len(),
            dsv == dirs_view(dirs@),
            dsv.len() == dirs@.len(),
            base0 == old(out)@.map_values(|s: String| s@),
            forall|k: int| 0 <= k < dirs@.len() ==> dsv[k] == dir_view(dirs@[k]),
            out@.map_values(|s: String| s@) == base0 + inc_paths_dirs_prefix(dsv, i as int, base@),
        decreases dirs@.len() - i,
    {
        proof {
            assert(decreases_to!(dirs@ => dirs@[i as int]));
        }
        let ghost pre = out@.map_values(|s: String| s@);
        collect_paths_dir(&dirs[i], base, out);
        proof {
            lemma_inc_paths_snoc(dsv, i as int, base@);
            assert(out@.map_values(|s: String| s@) =~= base0 + inc_paths_dirs_prefix(
                dsv,
                i + 1 as int,
                base@,
            ));
        }
        i = i + 1;
    }
    proof {
        assert(dsv.subrange(0, dsv.len() as int) =~= dsv);
    }
}

/// The collected paths of the first `i` directives.
pub open spec fn inc_paths_dirs_prefix(ds: Seq<DirView>, i: int, base: Seq<char>) -> Seq<
    Seq<char>,
> {
    inc_paths_dirs(ds.subrange(0, i), base)
}

/// Collecting one more directive appends its paths.
proof fn lemma_inc_paths_snoc(ds: Seq<DirView>, i: int, base: Seq<char>)
    requires
        0 <= i < ds.len(),
    ensures
        inc_paths_dirs(ds.subrange(0, i + 1), base) == inc_paths_dirs(ds.subrange(0, i), base)
            + inc_paths_dir(ds[i], base),
    decreases i,
{
    if i == 0 {
        assert(ds.subrange(0, 1).drop_first() =~= ds.subrange(0, 0));
        assert(ds.subrange(0, 0).len() == 0);
        assert(inc_paths_dirs(ds.subrange(0, 1), base) =~= inc_paths_dirs(ds.subrange(0, 0), base)
            + inc_paths_dir(ds[0], base));
    } else {
        lemma_inc_paths_snoc(ds.drop_first(), i - 1, base);
        assert(ds.subrange(0, i + 1).drop_first() =~= ds.drop_first().subrange(0, i));
        assert(ds.subrange(0, i).drop_first() =~= ds.drop_first().subrange(0, i - 1));
        assert(ds.subrange(0, i + 1)[0] == ds[0]);
        assert(ds.subrange(0, i)[0] == ds[0]);
        assert(ds.drop_first()[i - 1] == ds[i]);
        assert(inc_paths_dirs(ds.subrange(0, i + 1), base) =~= inc_paths_dirs(
            ds.subrange(0, i),
            base,
        ) + inc_paths_dir(ds[i], base));
    }
}

/// Appends the resolved relative paths of one directive to `out`.
fn collect_paths_dir(d: &Directive, base: &String, out: &mut Vec<String>)
    ensures
        final(out)@.map_values(|s: String| s@) == old(out)@.map_values(|s: String| s@)
            + inc_paths_dir(dir_view(*d), base@),
    decreases *d, 0int,
{
    match &d.item {
        Item::Include(v) => {
            let p = render_value(v);
            if is_relative_path(&p) {
                let rp = resolve_path(base, &p);
                let ghost pre = out@.map_values(|s: String| s@);
                out.push(rp);
                proof {
                    assert(out@.map_values(|s: String| s@) =~= pre + inc_paths_dir(
                        dir_view(*d),
                        base@,
                    ));
                }
            } else {
                proof {
                    assert(out@.map_values(|s: String| s@) + inc_paths_dir(dir_view(*d), base@)
                        =~= out@.map_values(|s: String| s@));
                }
            }
        },
        Item::If(_, ch) => {
            proof {
                assert(decreases_to!(*d => ch@)) by {
                    assert(decreases_to!(*d => d.item));
                    assert(decreases_to!(d.item => *ch));
                    assert(decreases_to!(*ch => ch@));
                }
            }
            collect_paths_dirs(ch, base, out);
        },
        Item::Block(_, _, ch) => {
            proof {
                assert(decreases_to!(*d => ch@)) by {
                    assert(decreases_to!(*d => d.item));
                    assert(decreases_to!(d.item => *ch));
                    assert(decreases_to!(*ch => ch@));
                }
            }
            collect_paths_dirs(ch, base, out);
        },
        _ => {
            proof {
                assert(out@.map_values(|s: String| s@) + inc_paths_dir(dir_view(*d), base@)
                    =~= out@.map_values(|s: String| s@));
            }
        },
    }
}

// ---------------------------------------------------------------- splicing

/// The views of a fragment list: resolved path and parsed directives.
pub open spec fn frags_view(fs: Seq<(String, Vec<Directive>)>) -> Seq<(Seq<char>, Seq<DirView>)> {
    fs.map_values(|p: (String, Vec<Directive>)| (p.0@, dirs_view(p.1@)))
}

/// The fragment of the first pair whose path equals `p`.
pub open spec fn lookup_frag(fs: Seq<(Seq<char>, Seq<DirView>)>, p: Seq<char>) -> Option<
    Seq<DirView>,
>
    decreases fs.len(),
{
    if fs.len() == 0 {
        None
    } else if fs[0].0 == p {
        Some(fs[0].1)
    } else {
        lookup_frag(fs.drop_first(), p)
    }
}

/// One directive after expansion: a relative file-inclusion directive is
/// replaced by its fragment's directives; a block keeps its place with its
/// children expanded; anything else keeps its place.  A path without a
/// fragment is an error.
pub open spec fn splice_dir(d: DirView, base: Seq<char>, fs: Seq<(Seq<char>, Seq<DirView>)>)
    -> Result<Seq<DirView>, ErrView>
    decreases d, 0int,
{
    match d.item {
        ItemView::Include(v) => {
            let p = spec_render_value(v);
            if spec_is_relative(p) {
                let rp = spec_resolve(base, p);
                match lookup_frag(fs, rp) {
                    Some(f) => Ok(f),
                    None => Err(ErrView::MissingFragment(rp)),
                }
            } else {
                Ok(seq![d])
            }
        },
        ItemView::If(c, ch) => match splice_dirs(ch, base, fs) {
            Ok(ch2) => Ok(
                seq![DirView { line: d.line, column: d.column, item: ItemView::If(c, ch2) }],
            ),
            Err(e) => Err(e),
        },
        ItemView::Block(n, h, ch) => match splice_dirs(ch, base, fs) {
            Ok(ch2) => Ok(
                seq![
                    DirView { line: d.line, column: d.column, item: ItemView::Block(n, h, ch2) },
                ],
            ),
            Err(e) => Err(e),
        },
        _ => Ok(seq![d]),
    }
}

/// A directive list after expansion of its relative file-inclusion
/// directives, surrounding order preserved.
pub open spec fn splice_dirs(ds: Seq<DirView>, base: Seq<char>, fs: Seq<(Seq<char>, Seq<DirView>)>)
    -> Result<Seq<DirView>, ErrView>
    decreases ds, 1int,
{
    if ds.len() == 0 {
        Ok(Seq::empty())
    } else {
        match splice_dir(ds[0], base, fs) {
            Err(e) => Err(e),
            Ok(head) => match splice_dirs(ds.drop_first(), base, fs) {
                Err(e) => Err(e),
                Ok(rest) => Ok(head + rest),
            },
        }
    }
}

/// Finds the fragment recorded for `p` and returns a deep copy of it.
fn lookup_frag_exec(fs: &Vec<(String, Vec<Directive>)>, p: &String) -> (r: Option<Vec<Directive>>)
    ensures
        match r {
            Some(f) => lookup_frag(frags_view(fs@), p@) == Some(dirs_view(f@)),
            None => lookup_frag(frags_view(fs@), p@) is None,
        },
{
    let mut i: usize = 0;
    while i < fs.len()
        invariant
            0 <= i <= fs@.len(),
            forall|j: int| 0 <= j < i ==> (#[trigger] frags_view(fs@)[j]).0 != p@,
        decreases fs@.len() - i,
    {
        if fs[i].0.eq(p) {
            proof {
                lemma_lookup_frag_skip(frags_view(fs@), p@, i as int);
            }
            return Some(clone_dirs(&fs[i].1));
        }
        i = i + 1;
    }
    proof {
        lemma_lookup_frag_skip(frags_view(fs@), p@, fs@.len() as int);
    }
    None
}

/// Skipping a non-matching prefix leaves the fragment search unchanged.
proof fn lemma_lookup_frag_skip(fs: Seq<(Seq<char>, Seq<DirView>)>, p: Seq<char>, i: int)
    requires
        0 <= i <= fs.len(),
        forall|j: int| 0 <= j < i ==> (#[trigger] fs[j]).0 != p,
    ensures
        lookup_frag(fs, p) == lookup_frag(fs.subrange(i, fs.len() as int), p),
    decreases i,
{
    if i > 0 {
        assert(fs.drop_first() =~= fs.subrange(1, fs.len() as int));
        lemma_lookup_frag_skip(fs.drop_first(), p, i - 1);
        assert(fs.drop_first().subrange(i - 1, fs.drop_first().len() as int) =~= fs.subrange(
            i,
            fs.len() as int,
        ));
    } else {
        assert(fs.subrange(0, fs.len() as int) =~= fs);
    }
}

/// `dirs_view` distributes over concatenation.
pub proof fn lemma_dirs_view_concat(a: Seq<Directive>, b: Seq<Directive>)
    ensures
        dirs_view(a + b) == dirs_view(a) + dirs_view(b),
{
    crate::model::lemma_dirs_view_index(a);
    crate::model::lemma_dirs_view_index(b);
    crate::model::lemma_dirs_view_index(a + b);
    assert(dirs_view(a + b) =~= dirs_view(a) + dirs_view(b));
}

/// Expands the relative file-inclusion directives of a directive list:
/// each is replaced in place by the fragment recorded for its resolved
/// path, preserving surrounding order; nested blocks are expanded too.
/// Fragments are spliced as given and not re-expanded.
pub fn splice_fragments(
    dirs: Vec<Directive>,
    base: &String,
    fs: &Vec<(String, Vec<Directive>)>,
) -> (res: Result<Vec<Directive>, RuleError>)
    ensures
        match res {
            Ok(out) => splice_dirs(dirs_view(dirs@), base@, frags_view(fs@)) == Ok::<
                Seq<DirView>,
                ErrView,
            >(dirs_view(out@)),
            Err(e) => splice_dirs(dirs_view(dirs@), base@, frags_view(fs@)) == Err::<
                Seq<DirView>,
                ErrView,
            >(e@),
        },
    decreases dirs@, 1int,
{
    let ghost ds0 = dirs@;
    let mut rest = dirs;
    if rest.len() == 0 {
        return Ok(Vec::new());
    }
    let d = rest.remove(0);
    proof {
        assert(rest@ =~= ds0.drop_first());
        assert(d == ds0[0]);
        assert(dirs_view(ds0)[0] == dir_view(d));
        assert(dirs_view(ds0).len() > 0);
        assert(dirs_view(ds0).drop_first() =~= dirs_view(ds0.drop_first()));
        assert(decreases_to!(ds0 => ds0[0]));
    }
    let mut head = match splice_one(d, base, fs) {
        Ok(x) => x,
        Err(e) => {
            return Err(e);
        },
    };
    let mut tail = match splice_fragments(rest, base, fs) {
        Ok(x) => x,
        Err(e) => {
            return Err(e);
        },
    };
    let ghost headv = head@;
    let ghost tailv = tail@;
    head.append(&mut tail);
    proof {
        assert(head@ =~= headv + tailv);
        lemma_dirs_view_concat(headv, tailv);
    }
    Ok(head)
}

/// Expands one directive into the list that replaces it.
fn splice_one(d: Directive, base: &String, fs: &Vec<(String, Vec<Directive>)>) -> (res: Result<
    Vec<Directive>,
    RuleError,
>)
    ensures
        match res {
            Ok(out) => splice_dir(dir_view(d), base@, frags_view(fs@)) == Ok::<
                Seq<DirView>,
                ErrView,
            >(dirs_view(out@)),
            Err(e) => splice_dir(dir_view(d), base@, frags_view(fs@)) == Err::<
                Seq<DirView>,
                ErrView,
            >(e@),
        },
    decreases d, 0int,
{
    let ghost dv = dir_view(d);
    let Directive { line, column, item } = d;
    match item {
        Item::Include(v) => {
            let p = render_value(&v);
            if is_relative_path(&p) {
                let rp = resolve_path(base, &p);
                match lookup_frag_exec(fs, &rp) {
                    Some(f) => Ok(f),
                    None => Err(RuleError::MissingFragment(rp)),
                }
            } else {
                let mut out: Vec<Directive> = Vec::new();
                out.push(Directive { line, column, item: Item::Include(v) });
                proof {
                    crate::model::lemma_dirs_view_index(out@);
                    assert(dirs_view(out@) =~= seq![dv]);
                }
                Ok(out)
            }
        },
        Item::If(c, ch) => {
            proof {
                assert(decreases_to!(d => ch@)) by {
                    assert(decreases_to!(d => d.item));
                    assert(d.item == Item::If(c, ch));
                    assert(decreases_to!(Item::If(c, ch) => ch));
                    assert(decreases_to!(ch => ch@));
                }
            }
            match splice_fragments(ch, base, fs) {
                Ok(ch2) => {
                    let mut out: Vec<Directive> = Vec::new();
                    out.push(Directive { line, column, item: Item::If(c, ch2) });
                    proof {
                        crate::model::lemma_dirs_view_index(out@);
                        assert(dirs_view(out@) =~= seq![dir_view(out@[0])]);
                    }
                    Ok(out)
                },
                Err(e) => Err(e),
            }
        },
        Item::Block(n, h, ch) => {
            proof {
                assert(decreases_to!(d => ch@)) by {
                    assert(decreases_to!(d => d.item));
                    assert(d.item == Item::Block(n, h, ch));
                    assert(decreases_to!(Item::Block(n, h, ch) => ch));
                    assert(decreases_to!(ch => ch@));
                }
            }
            match splice_fragments(ch, base, fs) {
                Ok(ch2) => {
                    let mut out: Vec<Directive> = Vec::new();
                    out.push(Directive { line, column, item: Item::Block(n, h, ch2) });
                    proof {
                        crate::model::lemma_dirs_view_index(out@);
                        assert(dirs_view(out@) =~= seq![dir_view(out@[0])]);
                    }
                    Ok(out)
                },
                Err(e) => Err(e),
            }
        },
        other => {
            let mut out: Vec<Directive> = Vec::new();
            out.push(Directive { line, column, item: other });
            proof {
                crate::model::lemma_dirs_view_index(out@);
                assert(dirs_view(out@) =~= seq![dir_view(out@[0])]);
            }
            Ok(out)
        },
    }
}

} // verus!
