//! The loaded configuration and the ordered rule pipeline.  A `Config`
//! wraps the directive tree of one loaded file; `modify_directives` applies
//! the rewrite rules to a tree in their fixed order and either yields the
//! rewritten tree or the first error, never a partial rewrite.
use vstd::prelude::*;

use crate::expand::bad_path_dirs;
use crate::model::{clone_dirs, dir_view, dirs_view, Directive, DirView, Item, ItemView};
use crate::params::{
    all_values_plain, check_plain_values, check_regex_pairs, clone_pairs, clone_repls, clone_strs,
};
use crate::render::{render_dirs, spec_render_dirs};
use crate::rules::{repl_view, rule_wf, ErrView, Rule, RuleError, RuleView};
use crate::subst::{chain_valid, pairs_view};
use crate::walk::{apply_rule_dirs, listen_apply_dirs, spec_apply_dirs, spec_listen_dirs, strs_view};
use vstd::string::StringExecFns;

verus! {

// ------------------------------------------------------------ entry points

/// The grammatical context a configuration file is parsed under.
#[derive(Clone, Copy, Debug, PartialEq, Eq, Structural)]
pub enum EntryPoint {
    Main,
    Http,
    Server,
    Location,
}

/// The arguments of the validation operation: the file to load and whether
/// to also check that every proxied hostname resolves.
#[derive(Debug)]
pub struct Validate {
    pub file: String,
    pub check_proxy_pass_hostnames: bool,
}

/// An error of loading a configuration: unreadable input, or a syntax
/// error from the parser.  Each carries the underlying display text.
#[derive(Debug)]
pub enum ReadError {
    Input(String),
    Syntax(String),
}

impl ReadError {
    /// The display text of this error.
    pub fn message(&self) -> (r: String)
        ensures
            match self {
                ReadError::Input(m) => r@ == "error reading input: "@ + m@,
                ReadError::Syntax(m) => r@ == "syntax error: "@ + m@,
            },
    {
        match self {
            ReadError::Input(m) => String::from_str("error reading input: ").concat(m.as_str()),
            ReadError::Syntax(m) => String::from_str("syntax error: ").concat(m.as_str()),
        }
    }
}

// ------------------------------------------------------------------- config

/// One loaded configuration: the file it came from, the entry point it was
/// parsed under, and its directive tree.
#[derive(Debug)]
pub struct Config {
    pub filename: Option<String>,
    pub entry: EntryPoint,
    pub directives: Vec<Directive>,
}

impl Config {
    /// The top-level directive list.
    pub fn directives(&self) -> (r: &Vec<Directive>)
        ensures
            r == &self.directives,
    {
        &self.directives
    }

    /// Renders the whole tree to configuration text.
    pub fn render(&self) -> (r: String)
        ensures
            r@ == spec_render_dirs(dirs_view(self.directives@), Seq::empty()),
    {
        render_dirs(&self.directives)
    }

    /// A flattened copy of every directive at every nesting depth, in
    /// document order (each parent before its children).
    pub fn all_directives(&self) -> (r: Vec<Directive>)
        ensures
            dirs_view(r@) == flat_dirs(dirs_view(self.directives@)),
    {
        let mut out: Vec<Directive> = Vec::new();
        flatten_dirs(&self.directives, &mut out);
        proof {
            assert(dirs_view(out@) =~= Seq::<DirView>::empty() + flat_dirs(
                dirs_view(self.directives@),
            ));
        }
        out
    }
}

/// The flattened views of one directive: itself, then its children's
/// flattening.
pub open spec fn flat_dir(d: DirView) -> Seq<DirView>
    decreases d, 0int,
{
    match d.item {
        ItemView::If(_, ch) => seq![d] + flat_dirs(ch),
        ItemView::Block(_, _, ch) => seq![d] + flat_dirs(ch),
        _ => seq![d],
    }
}

/// The flattened views of a directive list, in document order.
pub open spec fn flat_dirs(ds: Seq<DirView>) -> Seq<DirView>
    decreases ds, 1int,
{
    if ds.len() == 0 {
        Seq::empty()
    } else {
        flat_dir(ds[0]) + flat_dirs(ds.drop_first())
    }
}

/// Appends deep copies of the flattening of a directive list.
fn flatten_dirs(dirs: &Vec<Directive>, out: &mut Vec<Directive>)
    ensures
        dirs_view(final(out)@) == dirs_view(old(out)@) + flat_dirs(dirs_view(dirs@)),
    decreases dirs@, 1int,
{
    let ghost dsv = dirs_view(dirs@);
    let ghost base = dirs_view(old(out)@);
    proof {
        crate::model::lemma_dirs_view_index(dirs@);
        assert(base + flat_dirs(dsv.subrange(0, 0)) =~= base);
    }
    let mut i: usize = 0;
    while i < dirs.len()
        invariant
            0 <= i <= dirs@.len(),
            dsv == dirs_view(dirs@),
            dsv.len() == dirs@.len(),
            base == dirs_view(old(out)@),
            forall|k: int| 0 <= k < dirs@.len() ==> dsv[k] == dir_view(dirs@[k]),
            dirs_view(out@) == base + flat_dirs(dsv.subrange(0, i as int)),
        decreases dirs@.len() - i,
    {
        proof {
            assert(decreases_to!(dirs@ => dirs@[i as int]));
        }
        flatten_dir(&dirs[i], out);
        proof {
            lemma_flat_snoc(dsv, i as int);
        }
        i = i + 1;
    }
    proof {
        assert(dsv.subrange(0, dsv.len() as int) =~= dsv);
    }
}

/// Flattening one more directive appends its flattening.
proof fn lemma_flat_snoc(ds: Seq<DirView>, i: int)
    requires
        0 <= i < ds.len(),
    ensures
        flat_dirs(ds.subrange(0, i + 1)) == flat_dirs(ds.subrange(0, i)) + flat_dir(ds[i]),
    decreases i,
{
    if i == 0 {
        assert(ds.subrange(0, 1).drop_first() =~= ds.subrange(0, 0));
        assert(ds.subrange(0, 0).len() == 0);
        assert(flat_dirs(ds.subrange(0, 1)) =~= flat_dirs(ds.subrange(0, 0)) + flat_dir(ds[0]));
    } else {
        lemma_flat_snoc(ds.drop_first(), i - 1);
        assert(ds.subrange(0, i + 1).drop_first() =~= ds.drop_first().subrange(0, i));
        assert(ds.subrange(0, i).drop_first() =~= ds.drop_first().subrange(0, i - 1));
        assert(ds.subrange(0, i + 1)[0] == ds[0]);
        assert(ds.subrange(0, i)[0] == ds[0]);
        assert(ds.drop_first()[i - 1] == ds[i]);
        assert(flat_dirs(ds.subrange(0, i + 1)) =~= flat_dirs(ds.subrange(0, i)) + flat_dir(
            ds[i],
        ));
    }
}

/// Appends a deep copy of one directive and its children's flattening.
fn flatten_dir(d: &Directive, out: &mut Vec<Directive>)
    ensures
        dirs_view(final(out)@) == dirs_view(old(out)@) + flat_dir(dir_view(*d)),
    decreases *d, 0int,
{
    let ghost base = dirs_view(old(out)@);
    let copy = d.deep_clone();
    proof {
        crate::model::lemma_dirs_view_push(out@, copy);
    }
    out.push(copy);
    match &d.item {
        Item::If(_, ch) => {
            proof {
                assert(decreases_to!(*d => ch@)) by {
                    assert(decreases_to!(*d => d.item));
                    assert(decreases_to!(d.item => *ch));
                    assert(decreases_to!(*ch => ch@));
                }
            }
            flatten_dirs(ch, out);
            proof {
                assert(dirs_view(out@) =~= base + flat_dir(dir_view(*d)));
            }
        },
        Item::Block(_, _, ch) => {
            proof {
                assert(decreases_to!(*d => ch@)) by {
                    assert(decreases_to!(*d => d.item));
                    assert(decreases_to!(d.item => *ch));
                    assert(decreases_to!(*ch => ch@));
                }
            }
            flatten_dirs(ch, out);
            proof {
                assert(dirs_view(out@) =~= base + flat_dir(dir_view(*d)));
            }
        },
        _ => {
            proof {
                assert(dirs_view(out@) =~= base + flat_dir(dir_view(*d)));
            }
        },
    }
}

// ------------------------------------------------------------ the pipeline

/// The view of the pipeline's parameters.
pub struct OptsView {
    pub vars: Seq<(Seq<char>, Seq<char>)>,
    pub listen: Seq<Seq<char>>,
    pub server_names: Seq<(Seq<char>, Seq<char>)>,
    pub proxy_hosts: Seq<(Seq<char>, Seq<char>)>,
    pub proxy_regexes: Seq<(Seq<char>, Seq<char>)>,
    pub if_regexes: Seq<(Seq<char>, Seq<char>)>,
    pub rewrite_host_regexes: Seq<(Seq<char>, Seq<char>)>,
    pub allow_prefixes: Seq<Seq<char>>,
    pub replacements: Seq<(Seq<char>, ItemView)>,
}

/// The parameters of one pipeline run.  An empty list switches its rule
/// off; the allow-list check always runs.
#[derive(Debug)]
pub struct ModifyOptions {
    /// Variable substitutions, `name -> literal`.
    pub vars: Vec<(String, String)>,
    /// Replacement listen arguments (fan-out in every block that has a
    /// listen directive).
    pub listen: Vec<String>,
    /// Server-name mappings, `origin -> destination`.
    pub server_names: Vec<(String, String)>,
    /// Proxy-destination host mappings, `origin -> destination`.
    pub proxy_hosts: Vec<(String, String)>,
    /// Regex chain over whole proxy destinations.
    pub proxy_regexes: Vec<(String, String)>,
    /// Regex chain over `=` / `!=` condition literals.
    pub if_regexes: Vec<(String, String)>,
    /// Regex chain over the host portion of rewrite destinations.
    pub rewrite_host_regexes: Vec<(String, String)>,
    /// Allowed path prefixes for remaining file-inclusion directives.
    pub allow_prefixes: Vec<String>,
    /// Wholesale replacements by directive name, first match wins.
    pub replacements: Vec<(String, Item)>,
}

impl View for ModifyOptions {
    type V = OptsView;

    open spec fn view(&self) -> OptsView {
        OptsView {
            vars: pairs_view(self.vars@),
            listen: strs_view(self.listen@),
            server_names: pairs_view(self.server_names@),
            proxy_hosts: pairs_view(self.proxy_hosts@),
            proxy_regexes: pairs_view(self.proxy_regexes@),
            if_regexes: pairs_view(self.if_regexes@),
            rewrite_host_regexes: pairs_view(self.rewrite_host_regexes@),
            allow_prefixes: self.allow_prefixes@.map_values(|s: String| s@),
            replacements: repl_view(self.replacements@),
        }
    }
}

impl ModifyOptions {
    /// Parameters that switch every rule off and allow no path prefix.
    pub fn empty() -> (r: ModifyOptions)
        ensures
            r@.vars.len() == 0,
            r@.listen.len() == 0,
            r@.server_names.len() == 0,
            r@.proxy_hosts.len() == 0,
            r@.proxy_regexes.len() == 0,
            r@.if_regexes.len() == 0,
            r@.rewrite_host_regexes.len() == 0,
            r@.allow_prefixes.len() == 0,
            r@.replacements.len() == 0,
    {
        ModifyOptions {
            vars: Vec::new(),
            listen: Vec::new(),
            server_names: Vec::new(),
            proxy_hosts: Vec::new(),
            proxy_regexes: Vec::new(),
            if_regexes: Vec::new(),
            rewrite_host_regexes: Vec::new(),
            allow_prefixes: Vec::new(),
            replacements: Vec::new(),
        }
    }
}

/// Well-formed parameters: every regex pattern compiles and every
/// substitution value is plain text.
pub open spec fn opts_wf(o: OptsView) -> bool {
    chain_valid(o.proxy_regexes) && chain_valid(o.if_regexes) && chain_valid(
        o.rewrite_host_regexes,
    ) && all_values_plain(o.vars)
}

/// One conditional pipeline step: an error passes through; an enabled rule
/// applies; a disabled rule leaves the tree untouched.
pub open spec fn pipe_step(
    res: Result<Seq<DirView>, ErrView>,
    enabled: bool,
    r: RuleView,
) -> Result<Seq<DirView>, ErrView> {
    match res {
        Err(e) => Err(e),
        Ok(ds) => if enabled {
            spec_apply_dirs(r, ds)
        } else {
            Ok(ds)
        },
    }
}

/// The whole pipeline in its fixed order: variable substitution, listen
/// fan-out, server-name mapping, proxy-host mapping, the proxy, condition
/// and rewrite-host regex chains, the allow-list check on remaining
/// file-inclusion paths, and replacement by name.  The first error aborts
/// the rest.
pub open spec fn spec_pipeline(ds: Seq<DirView>, o: OptsView) -> Result<Seq<DirView>, ErrView> {
    let r1 = pipe_step(Ok(ds), o.vars.len() > 0, RuleView::SubstVars(o.vars));
    let r2 = match r1 {
        Err(e) => Err(e),
        Ok(d) => if o.listen.len() > 0 {
            Ok(spec_listen_dirs(d, o.listen))
        } else {
            Ok(d)
        },
    };
    let r3 = pipe_step(r2, o.server_names.len() > 0, RuleView::ServerNames(o.server_names));
    let r4 = pipe_step(r3, o.proxy_hosts.len() > 0, RuleView::ProxyHosts(o.proxy_hosts));
    let r5 = pipe_step(r4, o.proxy_regexes.len() > 0, RuleView::ProxyRegex(o.proxy_regexes));
    let r6 = pipe_step(r5, o.if_regexes.len() > 0, RuleView::IfRegex(o.if_regexes));
    let r7 = pipe_step(
        r6,
        o.rewrite_host_regexes.len() > 0,
        RuleView::RewriteHostRegex(o.rewrite_host_regexes),
    );
    let r8 = match r7 {
        Err(e) => Err(e),
        Ok(d) => match bad_path_dirs(d, o.allow_prefixes) {
            Some(p) => Err(ErrView::PathNotAllowed(p, o.allow_prefixes)),
            None => Ok(d),
        },
    };
    pipe_step(r8, o.replacements.len() > 0, RuleView::ReplaceByName(o.replacements))
}

/// Applies the ordered rule pipeline to a directive tree.  Malformed
/// parameters (a regex that does not compile, a substitution value the
/// value grammar cannot carry) abort before any rule runs; afterwards the
/// result is exactly what the pipeline yields: the rewritten tree, or the
/// first error with nothing of the rewrite kept.
pub fn modify_directives(dirs: Vec<Directive>, opts: &ModifyOptions) -> (res: Result<
    Vec<Directive>,
    RuleError,
>)
    ensures
        match res {
            Ok(out) => opts_wf(opts@) && spec_pipeline(dirs_view(dirs@), opts@) == Ok::<
                Seq<DirView>,
                ErrView,
            >(dirs_view(out@)),
            Err(e) => if opts_wf(opts@) {
                spec_pipeline(dirs_view(dirs@), opts@) == Err::<Seq<DirView>, ErrView>(e@)
            } else {
                e@ is InvalidRegex || e@ is BadSubstValue
            },
        },
{
    match check_plain_values(&opts.vars) {
        Ok(()) => {},
        Err(e) => {
            return Err(e);
        },
    }
    match check_regex_pairs(&opts.proxy_regexes) {
        Ok(()) => {},
        Err(e) => {
            return Err(e);
        },
    }
    match check_regex_pairs(&opts.if_regexes) {
        Ok(()) => {},
        Err(e) => {
            return Err(e);
        },
    }
    match check_regex_pairs(&opts.rewrite_host_regexes) {
        Ok(()) => {},
        Err(e) => {
            return Err(e);
        },
    }
    let ghost o = opts@;
    let ghost s0 = dirs_view(dirs@);
    proof {
        assert(opts_wf(o));
    }
    let mut cur = dirs;

    // 1. variable substitution
    let ghost r1 = pipe_step(Ok(s0), o.vars.len() > 0, RuleView::SubstVars(o.vars));
    if opts.vars.len() > 0 {
        let rule = Rule::SubstVars(clone_pairs(&opts.vars));
        proof {
            assert(rule@ == RuleView::SubstVars(o.vars));
        }
        cur = match apply_rule_dirs(cur, &rule) {
            Ok(x) => x,
            Err(e) => {
                proof {
                    assert(spec_pipeline(s0, o) == Err::<Seq<DirView>, ErrView>(e@));
                }
                return Err(e);
            },
        };
    }
    proof {
        assert(r1 == Ok::<Seq<DirView>, ErrView>(dirs_view(cur@)));
    }

    // 2. listen fan-out
    if opts.listen.len() > 0 {
        let vals = clone_strs(&opts.listen);
        proof {
            assert(strs_view(vals@) == o.listen);
        }
        cur = listen_apply_dirs(cur, &vals);
    }
    let ghost r2 = match r1 {
        Err(e) => Err::<Seq<DirView>, ErrView>(e),
        Ok(d) => if o.listen.len() > 0 {
            Ok(spec_listen_dirs(d, o.listen))
        } else {
            Ok(d)
        },
    };
    proof {
        assert(r2 == Ok::<Seq<DirView>, ErrView>(dirs_view(cur@)));
    }

    // 3. server-name mapping
    let ghost r3 = pipe_step(r2, o.server_names.len() > 0, RuleView::ServerNames(o.server_names));
    if opts.server_names.len() > 0 {
        let rule = Rule::ServerNames(clone_pairs(&opts.server_names));
        cur = match apply_rule_dirs(cur, &rule) {
            Ok(x) => x,
            Err(e) => {
                proof {
                    assert(spec_pipeline(s0, o) == Err::<Seq<DirView>, ErrView>(e@));
                }
                return Err(e);
            },
        };
    }
    proof {
        assert(r3 == Ok::<Seq<DirView>, ErrView>(dirs_view(cur@)));
    }

    // 4. proxy-host mapping
    let ghost r4 = pipe_step(r3, o.proxy_hosts.len() > 0, RuleView::ProxyHosts(o.proxy_hosts));
    if opts.proxy_hosts.len() > 0 {
        let rule = Rule::ProxyHosts(clone_pairs(&opts.proxy_hosts));
        cur = match apply_rule_dirs(cur, &rule) {
            Ok(x) => x,
            Err(e) => {
                proof {
                    assert(spec_pipeline(s0, o) == Err::<Seq<DirView>, ErrView>(e@));
                }
                return Err(e);
            },
        };
    }
    proof {
        assert(r4 == Ok::<Seq<DirView>, ErrView>(dirs_view(cur@)));
    }

    // 5. proxy-destination regex chain
    let ghost r5 = pipe_step(r4, o.proxy_regexes.len() > 0, RuleView::ProxyRegex(o.proxy_regexes));
    if opts.proxy_regexes.len() > 0 {
        let rule = Rule::ProxyRegex(clone_pairs(&opts.proxy_regexes));
        proof {
            assert(rule_wf(rule@));
        }
        cur = match apply_rule_dirs(cur, &rule) {
            Ok(x) => x,
            Err(e) => {
                proof {
                    assert(spec_pipeline(s0, o) == Err::<Seq<DirView>, ErrView>(e@));
                }
                return Err(e);
            },
        };
    }
    proof {
        assert(r5 == Ok::<Seq<DirView>, ErrView>(dirs_view(cur@)));
    }

    // 6. condition-literal regex chain
    let ghost r6 = pipe_step(r5, o.if_regexes.len() > 0, RuleView::IfRegex(o.if_regexes));
    if opts.if_regexes.len() > 0 {
        let rule = Rule::IfRegex(clone_pairs(&opts.if_regexes));
        proof {
            assert(rule_wf(rule@));
        }
        cur = match apply_rule_dirs(cur, &rule) {
            Ok(x) => x,
            Err(e) => {
                proof {
                    assert(spec_pipeline(s0, o) == Err::<Seq<DirView>, ErrView>(e@));
                }
                return Err(e);
            },
        };
    }
    proof {
        assert(r6 == Ok::<Seq<DirView>, ErrView>(dirs_view(cur@)));
    }

    // 7. rewrite-host regex chain
    let ghost r7 = pipe_step(
        r6,
        o.rewrite_host_regexes.len() > 0,
        RuleView::RewriteHostRegex(o.rewrite_host_regexes),
    );
    if opts.rewrite_host_regexes.len() > 0 {
        let rule = Rule::RewriteHostRegex(clone_pairs(&opts.rewrite_host_regexes));
        proof {
            assert(rule_wf(rule@));
        }
        cur = match apply_rule_dirs(cur, &rule) {
            Ok(x) => x,
            Err(e) => {
                proof {
                    assert(spec_pipeline(s0, o) == Err::<Seq<DirView>, ErrView>(e@));
                }
                return Err(e);
            },
        };
    }
    proof {
        assert(r7 == Ok::<Seq<DirView>, ErrView>(dirs_view(cur@)));
    }

    // 8. allow-list check on remaining file-inclusion paths
    match crate::expand::check_paths(&cur, &opts.allow_prefixes) {
        Ok(()) => {},
        Err(e) => {
            proof {
                assert(spec_pipeline(s0, o) == Err::<Seq<DirView>, ErrView>(e@));
            }
            return Err(e);
        },
    }
    let ghost r8 = match r7 {
        Err(e) => Err::<Seq<DirView>, ErrView>(e),
        Ok(d) => match bad_path_dirs(d, o.allow_prefixes) {
            Some(p) => Err(ErrView::PathNotAllowed(p, o.allow_prefixes)),
            None => Ok(d),
        },
    };
    proof {
        assert(r8 == Ok::<Seq<DirView>, ErrView>(dirs_view(cur@)));
    }

    // 9. replacement by name
    if opts.replacements.len() > 0 {
        let rule = Rule::ReplaceByName(clone_repls(&opts.replacements));
        cur = match apply_rule_dirs(cur, &rule) {
            Ok(x) => x,
            Err(e) => {
                proof {
                    assert(spec_pipeline(s0, o) == Err::<Seq<DirView>, ErrView>(e@));
                }
                return Err(e);
            },
        };
    }
    proof {
        assert(spec_pipeline(s0, o) == Ok::<Seq<DirView>, ErrView>(dirs_view(cur@)));
    }
    Ok(cur)
}

/// Applies the ordered rule pipeline to a loaded configuration.
pub fn modify_config(cfg: Config, opts: &ModifyOptions) -> (res: Result<Config, RuleError>)
    ensures
        match res {
            Ok(out) => opts_wf(opts@) && spec_pipeline(dirs_view(cfg.directives@), opts@) == Ok::<
                Seq<DirView>,
                ErrView,
            >(dirs_view(out.directives@)) && out.filename == cfg.filename && out.entry
                == cfg.entry,
            Err(e) => if opts_wf(opts@) {
                spec_pipeline(dirs_view(cfg.directives@), opts@) == Err::<Seq<DirView>, ErrView>(
                    e@,
                )
            } else {
                e@ is InvalidRegex || e@ is BadSubstValue
            },
        },
{
    let Config { filename, entry, directives } = cfg;
    match modify_directives(directives, opts) {
        Ok(out) => Ok(Config { filename, entry, directives: out }),
        Err(e) => Err(e),
    }
}

} // verus!
