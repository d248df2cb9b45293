//! The rewrite rules: the rule and error types and the per-directive step
//! each rule performs.  A step inspects one item (with block kinds handed
//! over without their children), returns the rewritten item, and says
//! whether the traversal should descend into the directive's children.
use vstd::prelude::*;

use crate::model::{Cond, CondView, Item, ItemView, ServerNamePattern, PatView, Value, ValueView};
use crate::model::item_view;
use crate::subst::{
    apply_proxy_maps, apply_regex_chain, apply_sn_maps, chain_valid, pairs_view, rewrite_host_text,
    scheme_prefix_len, subst_value,
};
use crate::subst::{apply_host_mappings, apply_name_mappings, apply_regexes, subst_value_exec};
use crate::value::{parse_value, render_value, spec_parse_value, spec_render_value};
use vstd::string::StringExecFns;

verus! {

// -------------------------------------------------------------------- errors

/// The view of a pipeline error.
pub enum ErrView {
    /// A `key=value` rule argument without `=`.
    MissingEq(Seq<char>),
    /// A rule argument with an empty key.
    EmptyName(Seq<char>),
    /// A rule argument whose pattern is not a valid regular expression.
    InvalidRegex(Seq<char>),
    /// A substitution value that the value grammar cannot carry.
    BadSubstValue(Seq<char>),
    /// A rewritten `proxy_pass` destination that no longer parses.
    BadProxyPass(Seq<char>),
    /// A rewritten `rewrite` replacement that no longer parses.
    BadRewrite(Seq<char>),
    /// A file-inclusion path outside the allow-list; carries the path and
    /// the allow-list.
    PathNotAllowed(Seq<char>, Seq<Seq<char>>),
    /// An expansion fragment missing for a path.
    MissingFragment(Seq<char>),
}

/// An error raised by rule-argument parsing or by the pipeline.
#[derive(Debug)]
pub enum RuleError {
    MissingEq(String),
    EmptyName(String),
    InvalidRegex(String),
    BadSubstValue(String),
    BadProxyPass(String),
    BadRewrite(String),
    PathNotAllowed(String, Vec<String>),
    MissingFragment(String),
}

impl View for RuleError {
    type V = ErrView;

    open spec fn view(&self) -> ErrView {
        match self {
            RuleError::MissingEq(s) => ErrView::MissingEq(s@),
            RuleError::EmptyName(s) => ErrView::EmptyName(s@),
            RuleError::InvalidRegex(s) => ErrView::InvalidRegex(s@),
            RuleError::BadSubstValue(s) => ErrView::BadSubstValue(s@),
            RuleError::BadProxyPass(s) => ErrView::BadProxyPass(s@),
            RuleError::BadRewrite(s) => ErrView::BadRewrite(s@),
            RuleError::PathNotAllowed(p, al) => ErrView::PathNotAllowed(
                p@,
                al@.map_values(|a: String| a@),
            ),
            RuleError::MissingFragment(s) => ErrView::MissingFragment(s@),
        }
    }
}

// --------------------------------------------------------------------- rules

/// The view of one rewrite rule.
pub enum RuleView {
    SubstVars(Seq<(Seq<char>, Seq<char>)>),
    ServerNames(Seq<(Seq<char>, Seq<char>)>),
    ProxyHosts(Seq<(Seq<char>, Seq<char>)>),
    ProxyRegex(Seq<(Seq<char>, Seq<char>)>),
    IfRegex(Seq<(Seq<char>, Seq<char>)>),
    RewriteHostRegex(Seq<(Seq<char>, Seq<char>)>),
    ReplaceByName(Seq<(Seq<char>, ItemView)>),
}

/// One rewrite rule with its parameters.  Listen replacement is a separate
/// list-level transformation, not a per-item rule.
#[derive(Debug)]
pub enum Rule {
    /// Variable substitution: ordered `name -> literal` pairs.
    SubstVars(Vec<(String, String)>),
    /// Server-name mapping: ordered `origin -> destination` domain pairs.
    ServerNames(Vec<(String, String)>),
    /// Proxy-destination host mapping: ordered `origin -> destination` pairs.
    ProxyHosts(Vec<(String, String)>),
    /// Regex chain over whole `proxy_pass` destinations.
    ProxyRegex(Vec<(String, String)>),
    /// Regex chain over the literal operand of `=` / `!=` conditions.
    IfRegex(Vec<(String, String)>),
    /// Regex chain over the host portion of `rewrite` destinations.
    RewriteHostRegex(Vec<(String, String)>),
    /// Wholesale replacement by directive name: first matching pair wins.
    ReplaceByName(Vec<(String, Item)>),
}

/// The views of a replacement list.
pub open spec fn repl_view(rs: Seq<(String, Item)>) -> Seq<(Seq<char>, ItemView)> {
    rs.map_values(|p: (String, Item)| (p.0@, item_view(p.1)))
}

impl View for Rule {
    type V = RuleView;

    open spec fn view(&self) -> RuleView {
        match self {
            Rule::SubstVars(ms) => RuleView::SubstVars(pairs_view(ms@)),
            Rule::ServerNames(ms) => RuleView::ServerNames(pairs_view(ms@)),
            Rule::ProxyHosts(ms) => RuleView::ProxyHosts(pairs_view(ms@)),
            Rule::ProxyRegex(ms) => RuleView::ProxyRegex(pairs_view(ms@)),
            Rule::IfRegex(ms) => RuleView::IfRegex(pairs_view(ms@)),
            Rule::RewriteHostRegex(ms) => RuleView::RewriteHostRegex(pairs_view(ms@)),
            Rule::ReplaceByName(rs) => RuleView::ReplaceByName(repl_view(rs@)),
        }
    }
}

/// A rule is well-formed when every regex pattern it carries compiles.
/// Rule constructors establish this before any tree is touched.
pub open spec fn rule_wf(r: RuleView) -> bool {
    match r {
        RuleView::ProxyRegex(rs) => chain_valid(rs),
        RuleView::IfRegex(rs) => chain_valid(rs),
        RuleView::RewriteHostRegex(rs) => chain_valid(rs),
        _ => true,
    }
}

// ----------------------------------------------------------- directive names

/// The canonical name of a directive item.
pub open spec fn spec_directive_name(it: ItemView) -> Seq<char> {
    match it {
        ItemView::Listen(_) => "listen"@,
        ItemView::ServerName(_) => "server_name"@,
        ItemView::ProxyPass(_) => "proxy_pass"@,
        ItemView::If(_, _) => "if"@,
        ItemView::Rewrite(_, _, _) => "rewrite"@,
        ItemView::Include(_) => "include"@,
        ItemView::Block(n, _, _) => n,
        ItemView::Unknown(n, _) => n,
        ItemView::Raw(n, _) => n,
    }
}

impl Item {
    /// The canonical name of this directive item.
    pub fn directive_name(&self) -> (r: String)
        ensures
            r@ == spec_directive_name(item_view(*self)),
    {
        match self {
            Item::Listen(_) => String::from_str("listen"),
            Item::ServerName(_) => String::from_str("server_name"),
            Item::ProxyPass(_) => String::from_str("proxy_pass"),
            Item::If(_, _) => String::from_str("if"),
            Item::Rewrite(_, _, _) => String::from_str("rewrite"),
            Item::Include(_) => String::from_str("include"),
            Item::Block(n, _, _) => n.clone(),
            Item::Unknown(n, _) => n.clone(),
            Item::Raw(n, _) => n.clone(),
        }
    }
}

/// The replacement of the first pair whose name equals `name`, in list
/// order; `None` when no pair matches.
pub open spec fn find_replacement(rs: Seq<(Seq<char>, ItemView)>, name: Seq<char>) -> Option<
    ItemView,
>
    decreases rs.len(),
{
    if rs.len() == 0 {
        None
    } else if rs[0].0 == name {
        Some(rs[0].1)
    } else {
        find_replacement(rs.drop_first(), name)
    }
}

/// Skipping a non-matching prefix leaves the replacement search unchanged.
proof fn lemma_find_replacement_skip(rs: Seq<(Seq<char>, ItemView)>, name: Seq<char>, i: int)
    requires
        0 <= i <= rs.len(),
        forall|j: int| 0 <= j < i ==> (#[trigger] rs[j]).0 != name,
    ensures
        find_replacement(rs, name) == find_replacement(rs.subrange(i, rs.len() as int), name),
    decreases i,
{
    if i > 0 {
        assert(rs.drop_first() =~= rs.subrange(1, rs.len() as int));
        lemma_find_replacement_skip(rs.drop_first(), name, i - 1);
        assert(rs.drop_first().subrange(i - 1, rs.drop_first().len() as int) =~= rs.subrange(
            i,
            rs.len() as int,
        ));
    } else {
        assert(rs.subrange(0, rs.len() as int) =~= rs);
    }
}

/// Finds the first replacement pair matching `name` and returns a deep copy
/// of its item.
fn find_replacement_exec(rs: &Vec<(String, Item)>, name: &String) -> (r: Option<Item>)
    ensures
        match r {
            Some(it) => find_replacement(repl_view(rs@), name@) == Some(item_view(it)),
            None => find_replacement(repl_view(rs@), name@) is None,
        },
{
    let mut i: usize = 0;
    while i < rs.len()
        invariant
            0 <= i <= rs@.len(),
            forall|j: int| 0 <= j < i ==> (#[trigger] repl_view(rs@)[j]).0 != name@,
        decreases rs@.len() - i,
    {
        if rs[i].0.eq(name) {
            proof {
                lemma_find_replacement_skip(repl_view(rs@), name@, i as int);
            }
            return Some(rs[i].1.deep_clone());
        }
        i = i + 1;
    }
    proof {
        lemma_find_replacement_skip(repl_view(rs@), name@, rs@.len() as int);
    }
    None
}

// ------------------------------------------------------- per-rule item maps

/// Variable substitution applied to every value field of an item (children
/// are untouched; the traversal reaches them separately).
pub open spec fn subst_item(it: ItemView, ms: Seq<(Seq<char>, Seq<char>)>) -> ItemView {
    match it {
        ItemView::ProxyPass(v) => ItemView::ProxyPass(subst_value(v, ms)),
        ItemView::If(c, ch) => ItemView::If(
            match c {
                CondView::Eq(subj, lit) => CondView::Eq(subst_value(subj, ms), lit),
                CondView::Neq(subj, lit) => CondView::Neq(subst_value(subj, ms), lit),
                CondView::Other(t) => CondView::Other(t),
            },
            ch,
        ),
        ItemView::Rewrite(p, repl, f) => ItemView::Rewrite(p, subst_value(repl, ms), f),
        ItemView::Include(v) => ItemView::Include(subst_value(v, ms)),
        ItemView::Unknown(n, args) => ItemView::Unknown(
            n,
            args.map_values(|v: ValueView| subst_value(v, ms)),
        ),
        _ => it,
    }
}

/// Server-name mapping applied to one pattern: `Exact`, `Suffix` and
/// `StarSuffix` names run through the ordered mappings; `StarPrefix` and
/// `Regex` patterns are never rewritten.
pub open spec fn sn_pattern(p: PatView, ms: Seq<(Seq<char>, Seq<char>)>) -> PatView {
    match p {
        PatView::Exact(n) => PatView::Exact(apply_sn_maps(n, ms)),
        PatView::Suffix(n) => PatView::Suffix(apply_sn_maps(n, ms)),
        PatView::StarSuffix(n) => PatView::StarSuffix(apply_sn_maps(n, ms)),
        PatView::StarPrefix(_) => p,
        PatView::Regex(_) => p,
    }
}

/// Server-name mapping applied to an item.
pub open spec fn sn_item(it: ItemView, ms: Seq<(Seq<char>, Seq<char>)>) -> ItemView {
    match it {
        ItemView::ServerName(ps) => ItemView::ServerName(
            ps.map_values(|p: PatView| sn_pattern(p, ms)),
        ),
        _ => it,
    }
}

// ----------------------------------------------------------------- the step

/// What one rule does to one item: the rewritten item and whether the
/// traversal descends into the directive's children afterwards, or the
/// first error.  Block-kind items are handed over with empty children.
pub open spec fn spec_step_item(r: RuleView, it: ItemView) -> Result<(ItemView, bool), ErrView> {
    match r {
        RuleView::SubstVars(ms) => Ok((subst_item(it, ms), true)),
        RuleView::ServerNames(ms) => Ok((sn_item(it, ms), true)),
        RuleView::ProxyHosts(ms) => match it {
            ItemView::ProxyPass(v) => {
                let s2 = apply_proxy_maps(spec_render_value(v), ms);
                match spec_parse_value(s2) {
                    Some(v2) => Ok((ItemView::ProxyPass(v2), true)),
                    None => Err(ErrView::BadProxyPass(s2)),
                }
            },
            _ => Ok((it, true)),
        },
        RuleView::ProxyRegex(rs) => match it {
            ItemView::ProxyPass(v) => {
                let s2 = apply_regex_chain(spec_render_value(v), rs);
                match spec_parse_value(s2) {
                    Some(v2) => Ok((ItemView::ProxyPass(v2), true)),
                    None => Err(ErrView::BadProxyPass(s2)),
                }
            },
            _ => Ok((it, true)),
        },
        RuleView::IfRegex(rs) => match it {
            ItemView::If(CondView::Eq(subj, lit), ch) => Ok(
                (ItemView::If(CondView::Eq(subj, apply_regex_chain(lit, rs)), ch), true),
            ),
            ItemView::If(CondView::Neq(subj, lit), ch) => Ok(
                (ItemView::If(CondView::Neq(subj, apply_regex_chain(lit, rs)), ch), true),
            ),
            _ => Ok((it, true)),
        },
        RuleView::RewriteHostRegex(rs) => match it {
            ItemView::Rewrite(p, repl, f) => {
                let s = spec_render_value(repl);
                match scheme_prefix_len(s) {
                    None => Ok((it, true)),
                    Some(p0) => {
                        let s2 = rewrite_host_text(s, p0, rs);
                        match spec_parse_value(s2) {
                            Some(v2) => Ok((ItemView::Rewrite(p, v2, f), true)),
                            None => Err(ErrView::BadRewrite(s2)),
                        }
                    },
                }
            },
            _ => Ok((it, true)),
        },
        RuleView::ReplaceByName(rs) => match find_replacement(rs, spec_directive_name(it)) {
            Some(rep) => Ok((rep, false)),
            None => Ok((it, true)),
        },
    }
}

/// Applies variable substitution to each argument value.
fn subst_args(args: Vec<Value>, ms: &Vec<(String, String)>) -> (r: Vec<Value>)
    ensures
        r@.map_values(|v: Value| v@) == args@.map_values(|v: Value| v@).map_values(
            |v: ValueView| subst_value(v, pairs_view(ms@)),
        ),
{
    let ghost argvs = args@.map_values(|v: Value| v@);
    let mut rest = args;
    let mut out: Vec<Value> = Vec::new();
    let mut i: usize = 0;
    while rest.len() > 0
        invariant
            0 <= i <= argvs.len(),
            i + rest@.len() == argvs.len(),
            forall|j: int| 0 <= j < rest@.len() ==> rest@[j]@ == argvs[i + j],
            out@.len() == i,
            forall|j: int|
                0 <= j < i ==> out@[j]@ == subst_value(argvs[j], pairs_view(ms@)),
        decreases rest@.len(),
    {
        let v = rest.remove(0);
        out.push(subst_value_exec(v, ms));
        i = out.len();
    }
    proof {
        assert(out@.map_values(|v: Value| v@) =~= argvs.map_values(
            |v: ValueView| subst_value(v, pairs_view(ms@)),
        ));
    }
    out
}

/// Applies the server-name mappings to each pattern.
fn sn_patterns(ps: Vec<ServerNamePattern>, ms: &Vec<(String, String)>) -> (r: Vec<
    ServerNamePattern,
>)
    ensures
        r@.map_values(|p: ServerNamePattern| p@) == ps@.map_values(|p: ServerNamePattern| p@)
            .map_values(|p: PatView| sn_pattern(p, pairs_view(ms@))),
{
    let ghost psv = ps@.map_values(|p: ServerNamePattern| p@);
    let mut rest = ps;
    let mut out: Vec<ServerNamePattern> = Vec::new();
    let mut i: usize = 0;
    while rest.len() > 0
        invariant
            0 <= i <= psv.len(),
            i + rest@.len() == psv.len(),
            forall|j: int| 0 <= j < rest@.len() ==> rest@[j]@ == psv[i + j],
            out@.len() == i,
            forall|j: int|
                0 <= j < i ==> out@[j]@ == sn_pattern(psv[j], pairs_view(ms@)),
        decreases rest@.len(),
    {
        let p = rest.remove(0);
        let p2 = match p {
            ServerNamePattern::Exact(n) => ServerNamePattern::Exact(apply_name_mappings(&n, ms)),
            ServerNamePattern::Suffix(n) => ServerNamePattern::Suffix(apply_name_mappings(&n, ms)),
            ServerNamePattern::StarSuffix(n) => ServerNamePattern::StarSuffix(
                apply_name_mappings(&n, ms),
            ),
            ServerNamePattern::StarPrefix(n) => ServerNamePattern::StarPrefix(n),
            ServerNamePattern::Regex(n) => ServerNamePattern::Regex(n),
        };
        out.push(p2);
        i = out.len();
    }
    proof {
        assert(out@.map_values(|p: ServerNamePattern| p@) =~= psv.map_values(
            |p: PatView| sn_pattern(p, pairs_view(ms@)),
        ));
    }
    out
}

/// Performs one rule's step on one item.
pub fn step_item(it: Item, rule: &Rule) -> (res: Result<(Item, bool), RuleError>)
    requires
        rule_wf(rule@),
    ensures
        match res {
            Ok(p) => spec_step_item(rule@, item_view(it)) == Ok::<(ItemView, bool), ErrView>(
                (item_view(p.0), p.1),
            ),
            Err(e) => spec_step_item(rule@, item_view(it)) == Err::<(ItemView, bool), ErrView>(e@),
        },
{
    let ghost itv = item_view(it);
    match rule {
        Rule::SubstVars(ms) => {
            let it2 = match it {
                Item::ProxyPass(v) => Item::ProxyPass(subst_value_exec(v, ms)),
                Item::If(c, ch) => Item::If(
                    match c {
                        Cond::Eq(subj, lit) => Cond::Eq(subst_value_exec(subj, ms), lit),
                        Cond::Neq(subj, lit) => Cond::Neq(subst_value_exec(subj, ms), lit),
                        Cond::Other(t) => Cond::Other(t),
                    },
                    ch,
                ),
                Item::Rewrite(p, repl, f) => Item::Rewrite(p, subst_value_exec(repl, ms), f),
                Item::Include(v) => Item::Include(subst_value_exec(v, ms)),
                Item::Unknown(n, args) => Item::Unknown(n, subst_args(args, ms)),
                other => other,
            };
            Ok((it2, true))
        },
        Rule::ServerNames(ms) => {
            let it2 = match it {
                Item::ServerName(ps) => Item::ServerName(sn_patterns(ps, ms)),
                other => other,
            };
            Ok((it2, true))
        },
        Rule::ProxyHosts(ms) => match it {
            Item::ProxyPass(v) => {
                let s = render_value(&v);
                let s2 = apply_host_mappings(&s, ms);
                match parse_value(&s2) {
                    Some(v2) => Ok((Item::ProxyPass(v2), true)),
                    None => Err(RuleError::BadProxyPass(s2)),
                }
            },
            other => Ok((other, true)),
        },
        Rule::ProxyRegex(rs) => match it {
            Item::ProxyPass(v) => {
                let s = render_value(&v);
                let s2 = apply_regexes(&s, rs);
                match parse_value(&s2) {
                    Some(v2) => Ok((Item::ProxyPass(v2), true)),
                    None => Err(RuleError::BadProxyPass(s2)),
                }
            },
            other => Ok((other, true)),
        },
        Rule::IfRegex(rs) => match it {
            Item::If(Cond::Eq(subj, lit), ch) => {
                let lit2 = apply_regexes(&lit, rs);
                Ok((Item::If(Cond::Eq(subj, lit2), ch), true))
            },
            Item::If(Cond::Neq(subj, lit), ch) => {
                let lit2 = apply_regexes(&lit, rs);
                Ok((Item::If(Cond::Neq(subj, lit2), ch), true))
            },
            other => Ok((other, true)),
        },
        Rule::RewriteHostRegex(rs) => match it {
            Item::Rewrite(p, repl, f) => {
                let s = render_value(&repl);
                match rewrite_host_exec(&s, rs) {
                    None => Ok((Item::Rewrite(p, repl, f), true)),
                    Some(s2) => match parse_value(&s2) {
                        Some(v2) => Ok((Item::Rewrite(p, v2, f), true)),
                        None => Err(RuleError::BadRewrite(s2)),
                    },
                }
            },
            other => Ok((other, true)),
        },
        Rule::ReplaceByName(rs) => {
            let name = it.directive_name();
            match find_replacement_exec(rs, &name) {
                Some(rep) => Ok((rep, false)),
                None => Ok((it, true)),
            }
        },
    }
}

/// Applies the regex chain to the host portion of a destination carrying an
/// `http://`, `https://` or `$scheme://` prefix; `None` when the text
/// carries no such prefix.
fn rewrite_host_exec(s: &String, rs: &Vec<(String, String)>) -> (r: Option<String>)
    requires
        chain_valid(pairs_view(rs@)),
    ensures
        match r {
            Some(out) => scheme_prefix_len(s@) is Some && out@ == rewrite_host_text(
                s@,
                scheme_prefix_len(s@)->0,
                pairs_view(rs@),
            ),
            None => scheme_prefix_len(s@) is None,
        },
{
    let cs = crate::text::to_chars(s.as_str());
    let http = crate::text::to_chars("http://");
    let https = crate::text::to_chars("https://");
    let scheme_var = crate::text::to_chars("$scheme://");
    proof {
        reveal_strlit("http://");
        reveal_strlit("https://");
        reveal_strlit("$scheme://");
    }
    let p0: usize = if crate::mapping::has_prefix_chars(&cs, &http) {
        7
    } else if crate::mapping::has_prefix_chars(&cs, &https) {
        8
    } else if crate::mapping::has_prefix_chars(&cs, &scheme_var) {
        10
    } else {
        return None;
    };
    let hend = crate::mapping::find_from(&cs, '/', p0);
    let prefix = crate::mapping::chars_to_string(&cs, 0, p0);
    let host = crate::mapping::chars_to_string(&cs, p0, hend);
    let suffix = crate::mapping::chars_to_string(&cs, hend, cs.len());
    let host2 = apply_regexes(&host, rs);
    let out = prefix.concat(host2.as_str()).concat(suffix.as_str());
    proof {
        assert(out@ =~= rewrite_host_text(s@, p0 as int, pairs_view(rs@)));
    }
    Some(out)
}

} // verus!
