//! The mutable traversal: one generic pre-order walk applies a rule's step
//! to every directive, descending into child lists unless the step replaced
//! the directive wholesale; and the listen fan-out, which rewrites whole
//! directive lists rather than single items.
use vstd::prelude::*;

use crate::model::{dir_view, dirs_view, item_view, Directive, DirView, Item, ItemView};
use crate::rules::{spec_step_item, step_item, rule_wf, ErrView, Rule, RuleError};

verus! {

// ------------------------------------------------------------ rule traversal

/// A block item with its child list swapped for `ch`.
pub open spec fn set_children(it: ItemView, ch: Seq<DirView>) -> ItemView {
    match it {
        ItemView::If(c, _) => ItemView::If(c, ch),
        ItemView::Block(n, h, _) => ItemView::Block(n, h, ch),
        _ => it,
    }
}

/// One rule applied to one directive: the step on the item (block kinds
/// handed over childless), then, unless the step said otherwise, the rule
/// applied to the children.
pub open spec fn spec_apply_dir(r: crate::rules::RuleView, d: DirView) -> Result<DirView, ErrView>
    decreases d, 0int,
{
    match d.item {
        ItemView::If(c, ch) => match spec_step_item(r, ItemView::If(c, Seq::empty())) {
            Err(e) => Err(e),
            Ok((it1, descend)) => if !descend {
                Ok(DirView { line: d.line, column: d.column, item: it1 })
            } else {
                match spec_apply_dirs(r, ch) {
                    Err(e) => Err(e),
                    Ok(ch2) => Ok(
                        DirView { line: d.line, column: d.column, item: set_children(it1, ch2) },
                    ),
                }
            },
        },
        ItemView::Block(n, h, ch) => match spec_step_item(
            r,
            ItemView::Block(n, h, Seq::empty()),
        ) {
            Err(e) => Err(e),
            Ok((it1, descend)) => if !descend {
                Ok(DirView { line: d.line, column: d.column, item: it1 })
            } else {
                match spec_apply_dirs(r, ch) {
                    Err(e) => Err(e),
                    Ok(ch2) => Ok(
                        DirView { line: d.line, column: d.column, item: set_children(it1, ch2) },
                    ),
                }
            },
        },
        _ => match spec_step_item(r, d.item) {
            Err(e) => Err(e),
            Ok((it1, _)) => Ok(DirView { line: d.line, column: d.column, item: it1 }),
        },
    }
}

/// One rule applied to a directive list, in order, stopping at the first
/// error.
pub open spec fn spec_apply_dirs(r: crate::rules::RuleView, ds: Seq<DirView>) -> Result<
    Seq<DirView>,
    ErrView,
>
    decreases ds, 1int,
{
    if ds.len() == 0 {
        Ok(Seq::empty())
    } else {
        match spec_apply_dir(r, ds[0]) {
            Err(e) => Err(e),
            Ok(d2) => match spec_apply_dirs(r, ds.drop_first()) {
                Err(e) => Err(e),
                Ok(rest) => Ok(seq![d2] + rest),
            },
        }
    }
}

/// Applies one rule to every directive of the list, in document order.
pub fn apply_rule_dirs(dirs: Vec<Directive>, rule: &Rule) -> (res: Result<
    Vec<Directive>,
    RuleError,
>)
    requires
        rule_wf(rule@),
    ensures
        match res {
            Ok(out) => spec_apply_dirs(rule@, dirs_view(dirs@)) == Ok::<Seq<DirView>, ErrView>(
                dirs_view(out@),
            ),
            Err(e) => spec_apply_dirs(rule@, dirs_view(dirs@)) == Err::<Seq<DirView>, ErrView>(e@),
        },
    decreases dirs@, 1int,
{
    let ghost ds0 = dirs@;
    let mut rest = dirs;
    if rest.len() == 0 {
        return Ok(Vec::new());
    }
    let d = rest.remove(0);
    proof {
        assert(rest@ =~= ds0.drop_first());
        assert(d == ds0[0]);
        assert(dirs_view(ds0) == seq![dir_view(ds0[0])] + dirs_view(ds0.drop_first()));
        assert(dirs_view(ds0)[0] == dir_view(d));
        assert(dirs_view(ds0).len() > 0);
        assert(dirs_view(ds0).drop_first() =~= dirs_view(ds0.drop_first()));
        assert(decreases_to!(ds0 => ds0[0]));
    }
    let d2 = match apply_rule_dir(d, rule) {
        Ok(x) => x,
        Err(e) => {
            return Err(e);
        },
    };
    let mut out = match apply_rule_dirs(rest, rule) {
        Ok(x) => x,
        Err(e) => {
            return Err(e);
        },
    };
    let ghost out_pre = out@;
    out.insert(0, d2);
    proof {
        assert(out@ =~= seq![d2] + out_pre);
        assert(out@[0] == d2);
        assert(out@.drop_first() =~= out_pre);
        assert(dirs_view(out@) == seq![dir_view(d2)] + dirs_view(out_pre));
        assert(spec_apply_dirs(rule@, dirs_view(ds0)) == Ok::<Seq<DirView>, ErrView>(
            seq![dir_view(d2)] + dirs_view(out_pre),
        ));
    }
    Ok(out)
}

/// Applies one rule to one directive and, as the step directs, to its
/// children.
pub fn apply_rule_dir(d: Directive, rule: &Rule) -> (res: Result<Directive, RuleError>)
    requires
        rule_wf(rule@),
    ensures
        match res {
            Ok(out) => spec_apply_dir(rule@, dir_view(d)) == Ok::<DirView, ErrView>(dir_view(out)),
            Err(e) => spec_apply_dir(rule@, dir_view(d)) == Err::<DirView, ErrView>(e@),
        },
    decreases d, 0int,
{
    let ghost dv = dir_view(d);
    let Directive { line, column, item } = d;
    match item {
        Item::If(c, ch) => {
            proof {
                assert(decreases_to!(d => ch@)) by {
                    assert(decreases_to!(d => d.item));
                    assert(d.item == Item::If(c, ch));
                    assert(decreases_to!(Item::If(c, ch) => ch));
                    assert(decreases_to!(ch => ch@));
                }
            }
            let stepped = step_item(Item::If(c, Vec::new()), rule);
            match stepped {
                Err(e) => Err(e),
                Ok((it1, descend)) => {
                    if !descend {
                        Ok(Directive { line, column, item: it1 })
                    } else {
                        match apply_rule_dirs(ch, rule) {
                            Err(e) => Err(e),
                            Ok(ch2) => {
                                let it2 = reattach(it1, ch2);
                                Ok(Directive { line, column, item: it2 })
                            },
                        }
                    }
                },
            }
        },
        Item::Block(n, h, ch) => {
            proof {
                assert(decreases_to!(d => ch@)) by {
                    assert(decreases_to!(d => d.item));
                    assert(d.item == Item::Block(n, h, ch));
                    assert(decreases_to!(Item::Block(n, h, ch) => ch));
                    assert(decreases_to!(ch => ch@));
                }
            }
            let stepped = step_item(Item::Block(n, h, Vec::new()), rule);
            match stepped {
                Err(e) => Err(e),
                Ok((it1, descend)) => {
                    if !descend {
                        Ok(Directive { line, column, item: it1 })
                    } else {
                        match apply_rule_dirs(ch, rule) {
                            Err(e) => Err(e),
                            Ok(ch2) => {
                                let it2 = reattach(it1, ch2);
                                Ok(Directive { line, column, item: it2 })
                            },
                        }
                    }
                },
            }
        },
        other => {
            match step_item(other, rule) {
                Err(e) => Err(e),
                Ok((it1, _)) => Ok(Directive { line, column, item: it1 }),
            }
        },
    }
}

/// Swaps a block item's child list for `ch`.
fn reattach(it: Item, ch: Vec<Directive>) -> (r: Item)
    ensures
        item_view(r) == set_children(item_view(it), dirs_view(ch@)),
{
    match it {
        Item::If(c, _) => Item::If(c, ch),
        Item::Block(n, h, _) => Item::Block(n, h, ch),
        other => other,
    }
}

// ------------------------------------------------------------ listen fan-out

/// The views of a list of replacement listen arguments.
pub open spec fn strs_view(vs: Seq<String>) -> Seq<Seq<char>> {
    vs.map_values(|s: String| s@)
}

/// The first position at or after `from` holding a listen directive, or
/// `ds.len()` when there is none.
pub open spec fn first_listen(ds: Seq<DirView>, from: int) -> int
    decreases ds.len() - from,
{
    if from < 0 || from >= ds.len() {
        ds.len() as int
    } else if ds[from].item is Listen {
        from
    } else {
        first_listen(ds, from + 1)
    }
}

/// The list without its listen directives.
pub open spec fn non_listen(ds: Seq<DirView>) -> Seq<DirView> {
    ds.filter(|d: DirView| !(d.item is Listen))
}

/// The replacement listen directives, in order, at position zero.
pub open spec fn mk_listen_dirs(vals: Seq<Seq<char>>) -> Seq<DirView> {
    vals.map_values(|a: Seq<char>| DirView { line: 0, column: 0, item: ItemView::Listen(a) })
}

/// One list after listen fan-out: a list without listen directives is left
/// untouched; otherwise every listen directive is removed and the
/// replacement list inserted at the position of the first removed one.
pub open spec fn listen_fanout(ds: Seq<DirView>, vals: Seq<Seq<char>>) -> Seq<DirView> {
    let p = first_listen(ds, 0);
    if p >= ds.len() {
        ds
    } else {
        ds.subrange(0, p) + mk_listen_dirs(vals) + non_listen(ds.subrange(p, ds.len() as int))
    }
}

/// One directive after listen replacement in its child lists.
pub open spec fn spec_listen_dir(d: DirView, vals: Seq<Seq<char>>) -> DirView
    decreases d, 0int,
{
    DirView {
        line: d.line,
        column: d.column,
        item: match d.item {
            ItemView::If(c, ch) => ItemView::If(c, spec_listen_dirs(ch, vals)),
            ItemView::Block(n, h, ch) => ItemView::Block(n, h, spec_listen_dirs(ch, vals)),
            x => x,
        },
    }
}

/// Each directive of the list after listen replacement in its child lists,
/// without fan-out at this level.
pub open spec fn spec_listen_each(ds: Seq<DirView>, vals: Seq<Seq<char>>) -> Seq<DirView>
    decreases ds, 1int,
{
    if ds.len() == 0 {
        Seq::empty()
    } else {
        seq![spec_listen_dir(ds[0], vals)] + spec_listen_each(ds.drop_first(), vals)
    }
}

/// A directive list after listen replacement: fan-out applied to this list
/// and, recursively, to every nested child list.
pub open spec fn spec_listen_dirs(ds: Seq<DirView>, vals: Seq<Seq<char>>) -> Seq<DirView>
    decreases ds, 2int,
{
    listen_fanout(spec_listen_each(ds, vals), vals)
}

/// How dropping listen directives treats an appended element.
proof fn lemma_non_listen_push(pre: Seq<DirView>, d: DirView)
    ensures
        non_listen(pre.push(d)) == (if d.item is Listen {
            non_listen(pre)
        } else {
            non_listen(pre).push(d)
        }),
{
    reveal(Seq::filter);
    assert(pre.push(d).drop_last() =~= pre);
    assert(pre.push(d).last() == d);
}

/// Dropping listen directives from an empty list yields an empty list.
proof fn lemma_non_listen_empty(s: Seq<DirView>)
    requires
        s.len() == 0,
    ensures
        non_listen(s) =~= Seq::<DirView>::empty(),
{
    reveal(Seq::filter);
}

/// Whether the directive is a listen directive.
fn is_listen(d: &Directive) -> (r: bool)
    ensures
        r == (dir_view(*d).item is Listen),
{
    match &d.item {
        Item::Listen(_) => true,
        _ => false,
    }
}

/// Performs listen fan-out on one list (this level only).
fn listen_fanout_exec(dirs: Vec<Directive>, vals: &Vec<String>) -> (r: Vec<Directive>)
    ensures
        dirs_view(r@) == listen_fanout(dirs_view(dirs@), strs_view(vals@)),
{
    let ghost dsv = dirs_view(dirs@);
    let ghost valsv = strs_view(vals@);
    proof {
        crate::model::lemma_dirs_view_index(dirs@);
    }
    let n = dirs.len();
    let mut p: usize = 0;
    while p < n && !is_listen(&dirs[p])
        invariant
            0 <= p <= n,
            n == dirs@.len(),
            dsv == dirs_view(dirs@),
            dsv.len() == n,
            forall|i: int| 0 <= i < dsv.len() ==> dsv[i] == dir_view(dirs@[i]),
            first_listen(dsv, 0) == first_listen(dsv, p as int),
        decreases n - p,
    {
        p = p + 1;
    }
    if p == n {
        proof {
            assert(first_listen(dsv, 0) == dsv.len());
        }
        return dirs;
    }
    proof {
        assert(first_listen(dsv, 0) == p);
    }
    let mut rest = dirs;
    let mut out: Vec<Directive> = Vec::new();
    let mut j: usize = 0;
    proof {
        assert(dsv.subrange(0, 0) =~= Seq::<DirView>::empty());
        assert(dirs_view(out@) =~= Seq::<DirView>::empty());
    }
    while rest.len() > 0
        invariant
            0 <= j <= n,
            n == dsv.len(),
            j + rest@.len() == n,
            p < n,
            first_listen(dsv, 0) == p,
            dsv[p as int].item is Listen,
            valsv == strs_view(vals@),
            forall|i: int| 0 <= i < rest@.len() ==> dir_view(rest@[i]) == dsv[j + i],
            j <= p ==> dirs_view(out@) == dsv.subrange(0, j as int),
            j > p ==> dirs_view(out@) == dsv.subrange(0, p as int) + mk_listen_dirs(valsv)
                + non_listen(dsv.subrange(p as int, j as int)),
        decreases rest@.len(),
    {
        let d = rest.remove(0);
        let ghost out_pre = out@;
        proof {
            assert(dir_view(d) == dsv[j as int]);
        }
        if j < p {
            proof {
                crate::model::lemma_dirs_view_push(out@, d);
            }
            out.push(d);
            proof {
                assert(dirs_view(out@) =~= dsv.subrange(0, j + 1 as int));
            }
        } else {
            if j == p {
                let mut k: usize = 0;
                proof {
                    assert(mk_listen_dirs(valsv).subrange(0, 0) =~= Seq::<DirView>::empty());
                    assert(dirs_view(out@) + mk_listen_dirs(valsv).subrange(0, 0) =~= dirs_view(
                        out@,
                    ));
                }
                while k < vals.len()
                    invariant
                        0 <= k <= vals@.len(),
                        p < n,
                        n == dsv.len(),
                        valsv == strs_view(vals@),
                        dirs_view(out@) == dsv.subrange(0, p as int) + mk_listen_dirs(
                            valsv,
                        ).subrange(0, k as int),
                    decreases vals@.len() - k,
                {
                    let nd = Directive {
                        line: 0,
                        column: 0,
                        item: Item::Listen(vals[k].clone()),
                    };
                    proof {
                        crate::model::lemma_dirs_view_push(out@, nd);
                        assert(dir_view(nd) == mk_listen_dirs(valsv)[k as int]);
                    }
                    out.push(nd);
                    proof {
                        assert(mk_listen_dirs(valsv).subrange(0, k + 1 as int)
                            =~= mk_listen_dirs(valsv).subrange(0, k as int).push(
                            mk_listen_dirs(valsv)[k as int],
                        ));
                        assert(dirs_view(out@) =~= dsv.subrange(0, p as int) + mk_listen_dirs(
                            valsv,
                        ).subrange(0, k + 1 as int));
                    }
                    k = k + 1;
                }
                proof {
                    assert(mk_listen_dirs(valsv).subrange(0, valsv.len() as int) =~= mk_listen_dirs(
                        valsv,
                    ));
                    assert(dsv.subrange(p as int, p as int).len() == 0);
                    lemma_non_listen_empty(dsv.subrange(p as int, p as int));
                    assert(dirs_view(out@) =~= dsv.subrange(0, p as int) + mk_listen_dirs(valsv)
                        + non_listen(dsv.subrange(p as int, j as int)));
                }
            }
            let ghost ov = dirs_view(out@);
            proof {
                assert(ov == dsv.subrange(0, p as int) + mk_listen_dirs(valsv) + non_listen(
                    dsv.subrange(p as int, j as int),
                ));
            }
            let keep = !is_listen(&d);
            proof {
                let pre = dsv.subrange(p as int, j as int);
                let cur = dsv.subrange(p as int, j + 1 as int);
                assert(cur =~= pre.push(dsv[j as int]));
                lemma_non_listen_push(pre, dsv[j as int]);
            }
            if keep {
                proof {
                    crate::model::lemma_dirs_view_push(out@, d);
                }
                out.push(d);
                proof {
                    assert(dirs_view(out@) == ov.push(dsv[j as int]));
                    assert(dirs_view(out@) =~= dsv.subrange(0, p as int) + mk_listen_dirs(valsv)
                        + non_listen(dsv.subrange(p as int, j + 1 as int)));
                }
            } else {
                proof {
                    assert(dirs_view(out@) =~= dsv.subrange(0, p as int) + mk_listen_dirs(valsv)
                        + non_listen(dsv.subrange(p as int, j + 1 as int)));
                }
            }
        }
        j = j + 1;
    }
    proof {
        assert(j == n);
        assert(j > p);
        assert(dsv.subrange(p as int, n as int) =~= dsv.subrange(p as int, dsv.len() as int));
        assert(dirs_view(out@) =~= listen_fanout(dsv, valsv));
    }
    out
}

/// Applies listen replacement to a directive list and every nested child
/// list: each list holding at least one listen directive has its listen
/// directives removed and the replacement list inserted at the first one's
/// position; lists without listen directives are untouched.
pub fn listen_apply_dirs(dirs: Vec<Directive>, vals: &Vec<String>) -> (r: Vec<Directive>)
    ensures
        dirs_view(r@) == spec_listen_dirs(dirs_view(dirs@), strs_view(vals@)),
    decreases dirs@, 1int,
{
    let n = dirs.len();
    let ghost ds0 = dirs@;
    let mut rest = dirs;
    let mut each: Vec<Directive> = Vec::new();
    let ghost dsv = dirs_view(ds0);
    proof {
        crate::model::lemma_dirs_view_index(ds0);
        assert(spec_listen_each(dsv.subrange(0, 0), strs_view(vals@)) =~= Seq::<DirView>::empty());
        assert(dirs_view(each@) =~= Seq::<DirView>::empty());
    }
    let mut j: usize = 0;
    while rest.len() > 0
        invariant
            0 <= j <= n,
            n == ds0.len(),
            ds0 == dirs@,
            j + rest@.len() == ds0.len(),
            dsv == dirs_view(ds0),
            dsv.len() == ds0.len(),
            forall|i: int| 0 <= i < ds0.len() ==> dsv[i] == dir_view(ds0[i]),
            forall|i: int| 0 <= i < rest@.len() ==> rest@[i] == ds0[j + i],
            dirs_view(each@) == spec_listen_each(dsv.subrange(0, j as int), strs_view(vals@)),
        decreases rest@.len(),
    {
        let d = rest.remove(0);
        proof {
            assert(d == ds0[j as int]);
            assert(decreases_to!(ds0 => ds0[j as int]));
        }
        let d2 = listen_apply_dir(d, vals);
        proof {
            crate::model::lemma_dirs_view_push(each@, d2);
        }
        each.push(d2);
        proof {
            let pre = dsv.subrange(0, j as int);
            let cur = dsv.subrange(0, j + 1 as int);
            assert(cur =~= pre.push(dsv[j as int]));
            lemma_listen_each_push(pre, dsv[j as int], strs_view(vals@));
        }
        j = j + 1;
    }
    proof {
        assert(dsv.subrange(0, dsv.len() as int) =~= dsv);
    }
    listen_fanout_exec(each, vals)
}

/// `spec_listen_each` distributes over `push`.
proof fn lemma_listen_each_push(ds: Seq<DirView>, d: DirView, vals: Seq<Seq<char>>)
    ensures
        spec_listen_each(ds.push(d), vals) == spec_listen_each(ds, vals).push(
            spec_listen_dir(d, vals),
        ),
    decreases ds.len(),
{
    if ds.len() == 0 {
        assert(ds.push(d).drop_first() =~= ds);
        assert(ds.push(d)[0] == d);
        assert(spec_listen_each(ds.push(d), vals) =~= spec_listen_each(ds, vals).push(
            spec_listen_dir(d, vals),
        ));
    } else {
        assert(ds.push(d).drop_first() =~= ds.drop_first().push(d));
        lemma_listen_each_push(ds.drop_first(), d, vals);
        assert(spec_listen_each(ds.push(d), vals) =~= spec_listen_each(ds, vals).push(
            spec_listen_dir(d, vals),
        ));
    }
}

/// Applies listen replacement inside one directive's child lists.
fn listen_apply_dir(d: Directive, vals: &Vec<String>) -> (r: Directive)
    ensures
        dir_view(r) == spec_listen_dir(dir_view(d), strs_view(vals@)),
    decreases d, 0int,
{
    let Directive { line, column, item } = d;
    match item {
        Item::If(c, ch) => {
            proof {
                assert(decreases_to!(d => ch@)) by {
                    assert(decreases_to!(d => d.item));
                    assert(d.item == Item::If(c, ch));
                    assert(decreases_to!(Item::If(c, ch) => ch));
                    assert(decreases_to!(ch => ch@));
                }
            }
            let ch2 = listen_apply_dirs(ch, vals);
            Directive { line, column, item: Item::If(c, ch2) }
        },
        Item::Block(n, h, ch) => {
            proof {
                assert(decreases_to!(d => ch@)) by {
                    assert(decreases_to!(d => d.item));
                    assert(d.item == Item::Block(n, h, ch));
                    assert(decreases_to!(Item::Block(n, h, ch) => ch));
                    assert(decreases_to!(ch => ch@));
                }
            }
            let ch2 = listen_apply_dirs(ch, vals);
            Directive { line, column, item: Item::Block(n, h, ch2) }
        },
        other => Directive { line, column, item: other },
    }
}

} // verus!
