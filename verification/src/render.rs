//! Rendering a directive tree back to configuration text.  Nested blocks
//! indent their children by four spaces; every directive ends its line.
use vstd::prelude::*;

use crate::model::{dir_view, dirs_view, CondView, Directive, DirView, Item, ItemView, PatView};
use crate::model::{Cond, ServerNamePattern, Value};
use crate::text::{from_chars, to_chars};
use crate::value::{render_value_onto, spec_render_value};

verus! {

/// The text of one `server_name` pattern.
pub open spec fn spec_pat_text(p: PatView) -> Seq<char> {
    match p {
        PatView::Exact(n) => n,
        PatView::Suffix(n) => "."@ + n,
        PatView::StarSuffix(n) => "*."@ + n,
        PatView::StarPrefix(n) => n + ".*"@,
        PatView::Regex(n) => "~"@ + n,
    }
}

/// The text of the patterns of a `server_name` directive, each preceded by
/// a space.
pub open spec fn spec_pats_text(ps: Seq<PatView>) -> Seq<char>
    decreases ps.len(),
{
    if ps.len() == 0 {
        Seq::empty()
    } else {
        " "@ + spec_pat_text(ps[0]) + spec_pats_text(ps.drop_first())
    }
}

/// The text of an `if` condition.
pub open spec fn spec_cond_text(c: CondView) -> Seq<char> {
    match c {
        CondView::Eq(subj, lit) => spec_render_value(subj) + " = "@ + lit,
        CondView::Neq(subj, lit) => spec_render_value(subj) + " != "@ + lit,
        CondView::Other(t) => t,
    }
}

/// The text of the value arguments of a generic directive, each preceded by
/// a space.
pub open spec fn spec_args_text(args: Seq<Seq<crate::model::SegView>>) -> Seq<char>
    decreases args.len(),
{
    if args.len() == 0 {
        Seq::empty()
    } else {
        " "@ + spec_render_value(args[0]) + spec_args_text(args.drop_first())
    }
}

/// The rendered text of one directive, with `ind` as its indentation.
pub open spec fn spec_render_dir(d: DirView, ind: Seq<char>) -> Seq<char>
    decreases d, 0int,
{
    match d.item {
        ItemView::Listen(a) => ind + "listen "@ + a + ";\n"@,
        ItemView::ServerName(ps) => ind + "server_name"@ + spec_pats_text(ps) + ";\n"@,
        ItemView::ProxyPass(v) => ind + "proxy_pass "@ + spec_render_value(v) + ";\n"@,
        ItemView::If(c, ch) => ind + "if ("@ + spec_cond_text(c) + ") {\n"@ + spec_render_dirs(
            ch,
            ind + "    "@,
        ) + ind + "}\n"@,
        ItemView::Rewrite(p, repl, f) => ind + "rewrite "@ + p + " "@ + spec_render_value(repl) + (
        match f {
            Some(fl) => " "@ + fl,
            None => Seq::empty(),
        }) + ";\n"@,
        ItemView::Include(v) => ind + "include "@ + spec_render_value(v) + ";\n"@,
        ItemView::Block(n, h, ch) => ind + n + (if h.len() == 0 {
            Seq::empty()
        } else {
            " "@ + h
        }) + " {\n"@ + spec_render_dirs(ch, ind + "    "@) + ind + "}\n"@,
        ItemView::Unknown(n, args) => ind + n + spec_args_text(args) + ";\n"@,
        ItemView::Raw(_, t) => ind + t + "\n"@,
    }
}

/// The rendered text of a directive list, with `ind` as the indentation of
/// each directive.
pub open spec fn spec_render_dirs(ds: Seq<DirView>, ind: Seq<char>) -> Seq<char>
    decreases ds, 1int,
{
    if ds.len() == 0 {
        Seq::empty()
    } else {
        spec_render_dir(ds[0], ind) + spec_render_dirs(ds.drop_first(), ind)
    }
}

/// Appends the characters of a literal piece.
fn push_piece(acc: &mut Vec<char>, s: &str)
    ensures
        final(acc)@ == old(acc)@ + s@,
{
    let cs = to_chars(s);
    let mut j: usize = 0;
    while j < cs.len()
        invariant
            0 <= j <= cs@.len(),
            cs@ == s@,
            acc@ == old(acc)@ + cs@.subrange(0, j as int),
        decreases cs@.len() - j,
    {
        acc.push(cs[j]);
        proof {
            assert(acc@ =~= old(acc)@ + cs@.subrange(0, j + 1 as int));
        }
        j = j + 1;
    }
    proof {
        assert(acc@ =~= old(acc)@ + s@);
    }
}

/// Appends the characters of an owned string.
fn push_string(acc: &mut Vec<char>, s: &String)
    ensures
        final(acc)@ == old(acc)@ + s@,
{
    push_piece(acc, s.as_str());
}

/// Appends a copy of `ind` to `acc`.
pub fn push_chars(acc: &mut Vec<char>, ind: &Vec<char>)
    ensures
        final(acc)@ == old(acc)@ + ind@,
{
    let mut j: usize = 0;
    while j < ind.len()
        invariant
            0 <= j <= ind@.len(),
            acc@ == old(acc)@ + ind@.subrange(0, j as int),
        decreases ind@.len() - j,
    {
        acc.push(ind[j]);
        proof {
            assert(acc@ =~= old(acc)@ + ind@.subrange(0, j + 1 as int));
        }
        j = j + 1;
    }
    proof {
        assert(acc@ =~= old(acc)@ + ind@);
    }
}

/// The indentation one block level deeper.
fn deeper(ind: &Vec<char>) -> (r: Vec<char>)
    ensures
        r@ == ind@ + "    "@,
{
    let mut out: Vec<char> = Vec::new();
    push_chars(&mut out, ind);
    push_piece(&mut out, "    ");
    proof {
        assert(out@ =~= ind@ + "    "@);
    }
    out
}

/// Appends the rendered text of one directive.
pub fn render_dir_onto(acc: &mut Vec<char>, d: &Directive, ind: &Vec<char>)
    ensures
        final(acc)@ == old(acc)@ + spec_render_dir(dir_view(*d), ind@),
    decreases *d, 0int,
{
    match &d.item {
        Item::Listen(a) => {
            push_chars(acc, ind);
            push_piece(acc, "listen ");
            push_string(acc, a);
            push_piece(acc, ";\n");
            proof {
                assert(acc@ =~= old(acc)@ + spec_render_dir(dir_view(*d), ind@));
            }
        },
        Item::ServerName(ps) => {
            push_chars(acc, ind);
            push_piece(acc, "server_name");
            let ghost psv = ps@.map_values(|p: ServerNamePattern| p@);
            let ghost base = acc@;
            let mut i: usize = 0;
            proof {
                assert(base + spec_pats_text(psv.subrange(0, 0)) =~= base);
            }
            while i < ps.len()
                invariant
                    0 <= i <= ps@.len(),
                    psv == ps@.map_values(|p: ServerNamePattern| p@),
                    acc@ == base + spec_pats_text(psv.subrange(0, i as int)),
                decreases ps@.len() - i,
            {
                let ghost pre = acc@;
                push_piece(acc, " ");
                match &ps[i] {
                    ServerNamePattern::Exact(n) => {
                        push_string(acc, n);
                    },
                    ServerNamePattern::Suffix(n) => {
                        push_piece(acc, ".");
                        push_string(acc, n);
                    },
                    ServerNamePattern::StarSuffix(n) => {
                        push_piece(acc, "*.");
                        push_string(acc, n);
                    },
                    ServerNamePattern::StarPrefix(n) => {
                        push_string(acc, n);
                        push_piece(acc, ".*");
                    },
                    ServerNamePattern::Regex(n) => {
                        push_piece(acc, "~");
                        push_string(acc, n);
                    },
                }
                proof {
                    assert(psv[i as int] == ps@[i as int]@);
                    assert(acc@ =~= pre + (" "@ + spec_pat_text(psv[i as int])));
                    lemma_pats_text_snoc(psv, i as int);
                    assert(acc@ =~= base + spec_pats_text(psv.subrange(0, i + 1 as int)));
                }
                i = i + 1;
            }
            push_piece(acc, ";\n");
            proof {
                assert(psv.subrange(0, psv.len() as int) =~= psv);
                assert(acc@ =~= old(acc)@ + spec_render_dir(dir_view(*d), ind@));
            }
        },
        Item::ProxyPass(v) => {
            push_chars(acc, ind);
            push_piece(acc, "proxy_pass ");
            render_value_onto(acc, v);
            push_piece(acc, ";\n");
            proof {
                assert(acc@ =~= old(acc)@ + spec_render_dir(dir_view(*d), ind@));
            }
        },
        Item::If(c, ch) => {
            push_chars(acc, ind);
            push_piece(acc, "if (");
            match c {
                Cond::Eq(subj, lit) => {
                    render_value_onto(acc, subj);
                    push_piece(acc, " = ");
                    push_string(acc, lit);
                },
                Cond::Neq(subj, lit) => {
                    render_value_onto(acc, subj);
                    push_piece(acc, " != ");
                    push_string(acc, lit);
                },
                Cond::Other(t) => {
                    push_string(acc, t);
                },
            }
            push_piece(acc, ") {\n");
            let ind2 = deeper(ind);
            proof {
                assert(decreases_to!(*d => ch@)) by {
                    assert(decreases_to!(*d => d.item));
                    assert(decreases_to!(d.item => *ch));
                    assert(decreases_to!(*ch => ch@));
                }
            }
            render_dirs_onto(acc, ch, &ind2);
            push_chars(acc, ind);
            push_piece(acc, "}\n");
            proof {
                assert(acc@ =~= old(acc)@ + spec_render_dir(dir_view(*d), ind@));
            }
        },
        Item::Rewrite(p, repl, f) => {
            push_chars(acc, ind);
            push_piece(acc, "rewrite ");
            push_string(acc, p);
            push_piece(acc, " ");
            render_value_onto(acc, repl);
            match f {
                Some(fl) => {
                    push_piece(acc, " ");
                    push_string(acc, fl);
                },
                None => {},
            }
            push_piece(acc, ";\n");
            proof {
                assert(acc@ =~= old(acc)@ + spec_render_dir(dir_view(*d), ind@));
            }
        },
        Item::Include(v) => {
            push_chars(acc, ind);
            push_piece(acc, "include ");
            render_value_onto(acc, v);
            push_piece(acc, ";\n");
            proof {
                assert(acc@ =~= old(acc)@ + spec_render_dir(dir_view(*d), ind@));
            }
        },
        Item::Block(n, h, ch) => {
            push_chars(acc, ind);
            push_string(acc, n);
            if !h.as_str().is_empty() {
                push_piece(acc, " ");
                push_string(acc, h);
            }
            push_piece(acc, " {\n");
            let ind2 = deeper(ind);
            proof {
                assert(decreases_to!(*d => ch@)) by {
                    assert(decreases_to!(*d => d.item));
                    assert(decreases_to!(d.item => *ch));
                    assert(decreases_to!(*ch => ch@));
                }
            }
            render_dirs_onto(acc, ch, &ind2);
            push_chars(acc, ind);
            push_piece(acc, "}\n");
            proof {
                assert(acc@ =~= old(acc)@ + spec_render_dir(dir_view(*d), ind@));
            }
        },
        Item::Unknown(n, args) => {
            push_chars(acc, ind);
            push_string(acc, n);
            let ghost argsv = args@.map_values(|v: Value| v@);
            let ghost base = acc@;
            let mut i: usize = 0;
            proof {
                assert(base + spec_args_text(argsv.subrange(0, 0)) =~= base);
            }
            while i < args.len()
                invariant
                    0 <= i <= args@.len(),
                    argsv == args@.map_values(|v: Value| v@),
                    acc@ == base + spec_args_text(argsv.subrange(0, i as int)),
                decreases args@.len() - i,
            {
                let ghost pre = acc@;
                push_piece(acc, " ");
                render_value_onto(acc, &args[i]);
                proof {
                    assert(argsv[i as int] == args@[i as int]@);
                    assert(acc@ =~= pre + (" "@ + spec_render_value(argsv[i as int])));
                    lemma_args_text_snoc(argsv, i as int);
                    assert(acc@ =~= base + spec_args_text(argsv.subrange(0, i + 1 as int)));
                }
                i = i + 1;
            }
            push_piece(acc, ";\n");
            proof {
                assert(argsv.subrange(0, argsv.len() as int) =~= argsv);
                assert(acc@ =~= old(acc)@ + spec_render_dir(dir_view(*d), ind@));
            }
        },
        Item::Raw(_, t) => {
            push_chars(acc, ind);
            push_string(acc, t);
            push_piece(acc, "\n");
            proof {
                assert(acc@ =~= old(acc)@ + spec_render_dir(dir_view(*d), ind@));
            }
        },
    }
}

/// Appending one pattern extends the rendered pattern text.
proof fn lemma_pats_text_snoc(ps: Seq<PatView>, i: int)
    requires
        0 <= i < ps.len(),
    ensures
        spec_pats_text(ps.subrange(0, i + 1)) == spec_pats_text(ps.subrange(0, i)) + (" "@
            + spec_pat_text(ps[i])),
    decreases i,
{
    if i == 0 {
        assert(ps.subrange(0, 1).drop_first() =~= ps.subrange(0, 0));
        assert(ps.subrange(0, 0).len() == 0);
        assert(spec_pats_text(ps.subrange(0, 1)) =~= spec_pats_text(ps.subrange(0, 0)) + (" "@
            + spec_pat_text(ps[0])));
    } else {
        lemma_pats_text_snoc(ps.drop_first(), i - 1);
        assert(ps.subrange(0, i + 1).drop_first() =~= ps.drop_first().subrange(0, i));
        assert(ps.subrange(0, i).drop_first() =~= ps.drop_first().subrange(0, i - 1));
        assert(ps.subrange(0, i + 1)[0] == ps[0]);
        assert(ps.subrange(0, i)[0] == ps[0]);
        assert(ps.drop_first()[i - 1] == ps[i]);
        assert(spec_pats_text(ps.subrange(0, i + 1)) =~= spec_pats_text(ps.subrange(0, i)) + (" "@
            + spec_pat_text(ps[i])));
    }
}

/// Appending one argument extends the rendered argument text.
proof fn lemma_args_text_snoc(args: Seq<Seq<crate::model::SegView>>, i: int)
    requires
        0 <= i < args.len(),
    ensures
        spec_args_text(args.subrange(0, i + 1)) == spec_args_text(args.subrange(0, i)) + (" "@
            + spec_render_value(args[i])),
    decreases i,
{
    if i == 0 {
        assert(args.subrange(0, 1).drop_first() =~= args.subrange(0, 0));
        assert(args.subrange(0, 0).len() == 0);
        assert(spec_args_text(args.subrange(0, 1)) =~= spec_args_text(args.subrange(0, 0)) + (" "@
            + spec_render_value(args[0])));
    } else {
        lemma_args_text_snoc(args.drop_first(), i - 1);
        assert(args.subrange(0, i + 1).drop_first() =~= args.drop_first().subrange(0, i));
        assert(args.subrange(0, i).drop_first() =~= args.drop_first().subrange(0, i - 1));
        assert(args.subrange(0, i + 1)[0] == args[0]);
        assert(args.subrange(0, i)[0] == args[0]);
        assert(args.drop_first()[i - 1] == args[i]);
        assert(spec_args_text(args.subrange(0, i + 1)) =~= spec_args_text(args.subrange(0, i)) + (
        " "@ + spec_render_value(args[i])));
    }
}

/// Appends the rendered text of a directive list.
pub fn render_dirs_onto(acc: &mut Vec<char>, ds: &Vec<Directive>, ind: &Vec<char>)
    ensures
        final(acc)@ == old(acc)@ + spec_render_dirs(dirs_view(ds@), ind@),
    decreases ds@, 1int,
{
    let ghost dsv = dirs_view(ds@);
    proof {
        crate::model::lemma_dirs_view_index(ds@);
    }
    let mut i: usize = 0;
    let ghost base = acc@;
    proof {
        assert(base + spec_render_dirs(dsv.subrange(0, 0), ind@) =~= base);
    }
    while i < ds.len()
        invariant
            0 <= i <= ds@.len(),
            dsv == dirs_view(ds@),
            dsv.len() == ds@.len(),
            forall|k: int| 0 <= k < ds@.len() ==> dsv[k] == dir_view(ds@[k]),
            acc@ == base + spec_render_dirs(dsv.subrange(0, i as int), ind@),
        decreases ds@.len() - i,
    {
        let ghost pre = acc@;
        proof {
            assert(decreases_to!(ds@ => ds@[i as int]));
        }
        render_dir_onto(acc, &ds[i], ind);
        proof {
            lemma_render_dirs_snoc(dsv, i as int, ind@);
            assert(acc@ =~= base + spec_render_dirs(dsv.subrange(0, i + 1 as int), ind@));
        }
        i = i + 1;
    }
    proof {
        assert(dsv.subrange(0, dsv.len() as int) =~= dsv);
    }
}

/// Appending one directive extends the rendered list text.
proof fn lemma_render_dirs_snoc(ds: Seq<DirView>, i: int, ind: Seq<char>)
    requires
        0 <= i < ds.len(),
    ensures
        spec_render_dirs(ds.subrange(0, i + 1), ind) == spec_render_dirs(ds.subrange(0, i), ind)
            + spec_render_dir(ds[i], ind),
    decreases i,
{
    if i == 0 {
        assert(ds.subrange(0, 1).drop_first() =~= ds.subrange(0, 0));
        assert(ds.subrange(0, 0).len() == 0);
        assert(spec_render_dirs(ds.subrange(0, 1), ind) =~= spec_render_dirs(
            ds.subrange(0, 0),
            ind,
        ) + spec_render_dir(ds[0], ind));
    } else {
        lemma_render_dirs_snoc(ds.drop_first(), i - 1, ind);
        assert(ds.subrange(0, i + 1).drop_first() =~= ds.drop_first().subrange(0, i));
        assert(ds.subrange(0, i).drop_first() =~= ds.drop_first().subrange(0, i - 1));
        assert(ds.subrange(0, i + 1)[0] == ds[0]);
        assert(ds.subrange(0, i)[0] == ds[0]);
        assert(ds.drop_first()[i - 1] == ds[i]);
        assert(spec_render_dirs(ds.subrange(0, i + 1), ind) =~= spec_render_dirs(
            ds.subrange(0, i),
            ind,
        ) + spec_render_dir(ds[i], ind));
    }
}

/// Renders a directive list to text at the outermost indentation.
pub fn render_dirs(ds: &Vec<Directive>) -> (r: String)
    ensures
        r@ == spec_render_dirs(dirs_view(ds@), Seq::empty()),
{
    let mut acc: Vec<char> = Vec::new();
    let ind: Vec<char> = Vec::new();
    render_dirs_onto(&mut acc, ds, &ind);
    proof {
        assert(acc@ =~= spec_render_dirs(dirs_view(ds@), Seq::empty()));
    }
    from_chars(&acc)
}

} // verus!
