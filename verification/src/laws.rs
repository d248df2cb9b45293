//! The engine's general laws, each proved over the specification functions
//! the public contracts use.
use vstd::prelude::*;

use crate::config::{spec_pipeline, OptsView};
use crate::expand::bad_path_dirs;
use crate::model::{DirView, ItemView};
use crate::outside::regex_replace_first;
use crate::render::spec_render_dirs;
use crate::rules::{find_replacement, spec_directive_name, spec_step_item, ErrView, RuleView};
use crate::subst::apply_regex_chain;
use crate::walk::{first_listen, listen_fanout, mk_listen_dirs, non_listen};

verus! {

// ------------------------------------------------------- no-op idempotence

/// Running the pipeline with empty rule parameters leaves the tree — and
/// hence its rendered text — untouched, for every input that the always-on
/// allow-list check accepts.  (With an empty allow-list that check rejects
/// every tree holding a file-inclusion directive: such an input fails the
/// pipeline instead of passing through it.)
pub proof fn lemma_noop_pipeline(ds: Seq<DirView>, o: OptsView)
    requires
        o.vars.len() == 0,
        o.listen.len() == 0,
        o.server_names.len() == 0,
        o.proxy_hosts.len() == 0,
        o.proxy_regexes.len() == 0,
        o.if_regexes.len() == 0,
        o.rewrite_host_regexes.len() == 0,
        o.replacements.len() == 0,
        bad_path_dirs(ds, o.allow_prefixes) is None,
    ensures
        spec_pipeline(ds, o) == Ok::<Seq<DirView>, ErrView>(ds),
        spec_pipeline(ds, o) matches Ok(out) && spec_render_dirs(out, Seq::empty())
            == spec_render_dirs(ds, Seq::empty()),
{
}

// -------------------------------------------------- first-match replacement

/// Replacement by name applies exactly the first rule pair whose name
/// matches: where the pairs before `i` miss the directive's name and pair
/// `i` hits it, the directive becomes pair `i`'s item — later pairs with
/// the same name, and everything after `i`, are never consulted.
pub proof fn lemma_replace_first_match_wins(
    rs: Seq<(Seq<char>, ItemView)>,
    it: ItemView,
    i: int,
)
    requires
        0 <= i < rs.len(),
        rs[i].0 == spec_directive_name(it),
        forall|k: int| 0 <= k < i ==> (#[trigger] rs[k]).0 != spec_directive_name(it),
    ensures
        spec_step_item(RuleView::ReplaceByName(rs), it) == Ok::<(ItemView, bool), ErrView>(
            (rs[i].1, false),
        ),
    decreases i,
{
    lemma_find_replacement_at(rs, spec_directive_name(it), i);
}

/// `find_replacement` lands on the first matching index.
proof fn lemma_find_replacement_at(rs: Seq<(Seq<char>, ItemView)>, name: Seq<char>, i: int)
    requires
        0 <= i < rs.len(),
        rs[i].0 == name,
        forall|k: int| 0 <= k < i ==> (#[trigger] rs[k]).0 != name,
    ensures
        find_replacement(rs, name) == Some(rs[i].1),
    decreases i,
{
    if i > 0 {
        lemma_find_replacement_at(rs.drop_first(), name, i - 1);
    }
}

// ----------------------------------------------------------- regex chains

/// A two-element regex chain is sequential, not simultaneous: the second
/// pattern is applied to the result of the first.
pub proof fn lemma_regex_chain_sequential(s: Seq<char>, r1: (Seq<char>, Seq<char>), r2: (Seq<char>, Seq<char>))
    ensures
        apply_regex_chain(s, seq![r1, r2]) == regex_replace_first(
            r2.0,
            regex_replace_first(r1.0, s, r1.1),
            r2.1,
        ),
{
    let rs = seq![r1, r2];
    let m1 = regex_replace_first(r1.0, s, r1.1);
    let m2 = regex_replace_first(r2.0, m1, r2.1);
    assert(rs[0] == r1);
    assert(rs.drop_first()[0] == r2);
    assert(apply_regex_chain(s, rs) == apply_regex_chain(m1, rs.drop_first()));
    assert(apply_regex_chain(m1, rs.drop_first()) == apply_regex_chain(
        m2,
        rs.drop_first().drop_first(),
    ));
    assert(rs.drop_first().drop_first().len() == 0);
    assert(apply_regex_chain(m2, rs.drop_first().drop_first()) == m2);
}

// ------------------------------------------------------------ listen laws

/// The number of listen directives in a list.
pub open spec fn listen_count(ds: Seq<DirView>) -> int {
    ds.len() - non_listen(ds).len()
}

/// No position before the first listen directive holds one.
proof fn lemma_first_listen_front(ds: Seq<DirView>, from: int)
    requires
        0 <= from <= ds.len(),
    ensures
        from <= first_listen(ds, from) <= ds.len(),
        forall|k: int| from <= k < first_listen(ds, from) ==> !((#[trigger] ds[k]).item is Listen),
        first_listen(ds, from) < ds.len() ==> ds[first_listen(ds, from)].item is Listen,
    decreases ds.len() - from,
{
    if from < ds.len() && !(ds[from].item is Listen) {
        lemma_first_listen_front(ds, from + 1);
    }
}

/// A list of listen-free directives is untouched by the filter.
proof fn lemma_non_listen_all(ds: Seq<DirView>)
    requires
        forall|k: int| 0 <= k < ds.len() ==> !((#[trigger] ds[k]).item is Listen),
    ensures
        non_listen(ds) == ds,
    decreases ds.len(),
{
    reveal(Seq::filter);
    if ds.len() > 0 {
        lemma_non_listen_all(ds.drop_last());
        assert(non_listen(ds) =~= ds);
    }
}

/// A list of listen directives filters to nothing.
proof fn lemma_non_listen_none(ds: Seq<DirView>)
    requires
        forall|k: int| 0 <= k < ds.len() ==> (#[trigger] ds[k]).item is Listen,
    ensures
        non_listen(ds).len() == 0,
    decreases ds.len(),
{
    reveal(Seq::filter);
    if ds.len() > 0 {
        lemma_non_listen_none(ds.drop_last());
    }
}

/// Listen fan-out on a list without listen directives changes nothing.
pub proof fn lemma_fanout_without_listen(ds: Seq<DirView>, vals: Seq<Seq<char>>)
    requires
        forall|k: int| 0 <= k < ds.len() ==> !((#[trigger] ds[k]).item is Listen),
    ensures
        listen_fanout(ds, vals) == ds,
    decreases ds.len(),
{
    lemma_first_listen_front(ds, 0);
    if first_listen(ds, 0) < ds.len() {
        assert(ds[first_listen(ds, 0)].item is Listen);
        assert(false);
    }
}

/// Listen fan-out on a list with at least one listen directive yields a
/// list holding exactly the replacement listen directives — however many
/// listen directives the list held before — inserted at the position of
/// the first one.
pub proof fn lemma_fanout_count(ds: Seq<DirView>, vals: Seq<Seq<char>>)
    requires
        exists|k: int| 0 <= k < ds.len() && (#[trigger] ds[k]).item is Listen,
    ensures
        listen_count(listen_fanout(ds, vals)) == vals.len(),
        listen_fanout(ds, vals).len() == ds.len() - listen_count(ds) + vals.len(),
{
    lemma_first_listen_front(ds, 0);
    let p = first_listen(ds, 0);
    if p >= ds.len() {
        let k = choose|k: int| 0 <= k < ds.len() && (#[trigger] ds[k]).item is Listen;
        assert(!(ds[k].item is Listen));
        assert(false);
    }
    let pre = ds.subrange(0, p);
    let mk = mk_listen_dirs(vals);
    let suf = ds.subrange(p, ds.len() as int);
    let out = pre + mk + non_listen(suf);
    assert(listen_fanout(ds, vals) == out);
    broadcast use vstd::prelude::Seq::filter_distributes_over_add;

    assert(non_listen(out) =~= non_listen(pre + mk) + non_listen(non_listen(suf)));
    assert(non_listen(pre + mk) =~= non_listen(pre) + non_listen(mk));
    lemma_non_listen_all(pre);
    assert(forall|k: int|
        0 <= k < mk.len() ==> (#[trigger] mk[k]).item is Listen);
    lemma_non_listen_none(mk);
    lemma_non_listen_idempotent(suf);
    assert(non_listen(out).len() == pre.len() + non_listen(suf).len());
    assert(out.len() == pre.len() + vals.len() + non_listen(suf).len());
    // the whole list splits at the first listen directive
    assert(ds =~= pre + suf);
    assert(non_listen(ds) =~= non_listen(pre) + non_listen(suf));
}

/// Filtering out listen directives is idempotent.
proof fn lemma_non_listen_idempotent(ds: Seq<DirView>)
    ensures
        non_listen(non_listen(ds)) == non_listen(ds),
    decreases ds.len(),
{
    reveal(Seq::filter);
    broadcast use vstd::prelude::Seq::lemma_filter_pred;

    if ds.len() > 0 {
        lemma_non_listen_idempotent(ds.drop_last());
        if !(ds.last().item is Listen) {
            assert(non_listen(ds) == non_listen(ds.drop_last()).push(ds.last()));
            assert(non_listen(ds).drop_last() =~= non_listen(ds.drop_last()));
            assert(non_listen(non_listen(ds)) =~= non_listen(ds));
        } else {
            assert(non_listen(non_listen(ds)) =~= non_listen(ds));
        }
    } else {
        assert(non_listen(non_listen(ds)) =~= non_listen(ds));
    }
}

} // verus!
