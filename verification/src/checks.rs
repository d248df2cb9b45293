//! The hostname-resolvability check on `proxy_pass` destinations.  The
//! engine plans which hostnames to look up — scanning every `proxy_pass`
//! directive, classifying its destination as a URL, and applying the
//! caller-supplied exclusion patterns — and aggregates the outcomes the
//! caller obtained; the lookups themselves are the caller's part.
use vstd::prelude::*;

use crate::model::{dir_view, dirs_view, Directive, DirView, Item, ItemView};
use crate::outside::{inspect_url, regex_check, regex_match, regex_matches, regex_valid, url_inspect, UrlHost, UrlHostView};
use crate::rules::RuleError;
use crate::value::{render_value, spec_render_value};

verus! {

// --------------------------------------------------------------------- data

/// The view of one planned lookup.
pub struct ProbeView {
    pub domain: Seq<char>,
    pub port: u16,
    pub url: Seq<char>,
}

/// One planned lookup: the domain to resolve, the port to resolve it at
/// (the port the URL carries, or 80 when it carries none), and the full
/// destination text.
#[derive(Debug)]
pub struct HostProbe {
    pub domain: String,
    pub port: u16,
    pub url: String,
}

impl View for HostProbe {
    type V = ProbeView;

    open spec fn view(&self) -> ProbeView {
        ProbeView { domain: self.domain@, port: self.port, url: self.url@ }
    }
}

/// The view of one diagnostic.
pub enum CheckErrView {
    /// A destination that is not a valid URL: the text and the parse
    /// error's display text.
    InvalidUrl(Seq<char>, Seq<char>),
    /// A domain that did not resolve: the domain, the destination text and
    /// the failure's display text.
    Resolve(Seq<char>, Seq<char>, Seq<char>),
}

/// One diagnostic of the hostname check.
#[derive(Debug)]
pub enum CheckError {
    InvalidUrl(String, String),
    Resolve(String, String, String),
}

impl View for CheckError {
    type V = CheckErrView;

    open spec fn view(&self) -> CheckErrView {
        match self {
            CheckError::InvalidUrl(u, m) => CheckErrView::InvalidUrl(u@, m@),
            CheckError::Resolve(d, u, m) => CheckErrView::Resolve(d@, u@, m@),
        }
    }
}

// ------------------------------------------------------------------ the plan

/// Whether a domain is excluded by some pattern.
pub open spec fn spec_excluded(dom: Seq<char>, pats: Seq<Seq<char>>) -> bool {
    exists|i: int| 0 <= i < pats.len() && regex_matches(pats[i], dom)
}

/// What the scan of one directive plans: the lookups and the invalid-URL
/// diagnostics, in document order.
pub open spec fn scan_dir(d: DirView, pats: Seq<Seq<char>>) -> (Seq<ProbeView>, Seq<CheckErrView>)
    decreases d, 0int,
{
    match d.item {
        ItemView::ProxyPass(v) => {
            let s = spec_render_value(v);
            match url_inspect(s) {
                UrlHostView::Invalid(msg) => (
                    Seq::empty(),
                    seq![CheckErrView::InvalidUrl(s, msg)],
                ),
                UrlHostView::Domain(dom, port) => if !spec_excluded(dom, pats) {
                    (
                        seq![
                            ProbeView {
                                domain: dom,
                                port: match port {
                                    Some(p) => p,
                                    None => 80,
                                },
                                url: s,
                            },
                        ],
                        Seq::empty(),
                    )
                } else {
                    (Seq::empty(), Seq::empty())
                },
                UrlHostView::Other => (Seq::empty(), Seq::empty()),
            }
        },
        ItemView::If(_, ch) => scan_dirs(ch, pats),
        ItemView::Block(_, _, ch) => scan_dirs(ch, pats),
        _ => (Seq::empty(), Seq::empty()),
    }
}

/// What the scan of a directive list plans, in document order.
pub open spec fn scan_dirs(ds: Seq<DirView>, pats: Seq<Seq<char>>) -> (
    Seq<ProbeView>,
    Seq<CheckErrView>,
)
    decreases ds, 1int,
{
    if ds.len() == 0 {
        (Seq::empty(), Seq::empty())
    } else {
        let head = scan_dir(ds[0], pats);
        let rest = scan_dirs(ds.drop_first(), pats);
        (head.0 + rest.0, head.1 + rest.1)
    }
}

/// Whether a domain is excluded by some pattern.
fn excluded(dom: &String, pats: &Vec<String>) -> (r: bool)
    requires
        forall|i: int| 0 <= i < pats@.len() ==> regex_valid((#[trigger] pats@[i])@),
    ensures
        r == spec_excluded(dom@, pats@.map_values(|s: String| s@)),
{
    let ghost pv = pats@.map_values(|s: String| s@);
    let mut k: usize = 0;
    while k < pats.len()
        invariant
            0 <= k <= pats@.len(),
            pv == pats@.map_values(|s: String| s@),
            forall|i: int| 0 <= i < pats@.len() ==> regex_valid((#[trigger] pats@[i])@),
            forall|j: int| 0 <= j < k ==> !regex_matches(pv[j], dom@),
        decreases pats@.len() - k,
    {
        match regex_match(&pats[k], dom) {
            Some(m) => {
                if m {
                    proof {
                        assert(regex_matches(pv[k as int], dom@));
                    }
                    return true;
                }
            },
            None => {
                proof {
                    assert(false);
                }
            },
        }
        k = k + 1;
    }
    false
}

/// Plans the hostname lookups for a directive tree: every `proxy_pass`
/// destination is rendered and inspected as a URL; a malformed destination
/// becomes an invalid-URL diagnostic; a destination whose host is a domain
/// that no exclusion pattern matches becomes a lookup at its explicit port,
/// or port 80.  An invalid exclusion pattern aborts before any scanning.
pub fn plan_hostname_checks(dirs: &Vec<Directive>, excludes: &Vec<String>) -> (res: Result<
    (Vec<HostProbe>, Vec<CheckError>),
    RuleError,
>)
    ensures
        match res {
            Ok(pair) => {
                let plan = scan_dirs(
                    dirs_view(dirs@),
                    excludes@.map_values(|s: String| s@),
                );
                pair.0@.map_values(|p: HostProbe| p@) == plan.0 && pair.1@.map_values(
                    |e: CheckError| e@,
                ) == plan.1 && (forall|i: int|
                    0 <= i < excludes@.len() ==> regex_valid((#[trigger] excludes@[i])@))
            },
            Err(e) => match e@ {
                crate::rules::ErrView::InvalidRegex(p) => exists|i: int|
                    0 <= i < excludes@.len() && !regex_valid((#[trigger] excludes@[i])@)
                        && excludes@[i]@ == p,
                _ => false,
            },
        },
{
    let mut k: usize = 0;
    while k < excludes.len()
        invariant
            0 <= k <= excludes@.len(),
            forall|i: int| 0 <= i < k ==> regex_valid((#[trigger] excludes@[i])@),
        decreases excludes@.len() - k,
    {
        if !regex_check(&excludes[k]) {
            return Err(RuleError::InvalidRegex(excludes[k].clone()));
        }
        k = k + 1;
    }
    let mut probes: Vec<HostProbe> = Vec::new();
    let mut invalid: Vec<CheckError> = Vec::new();
    scan_dirs_exec(dirs, excludes, &mut probes, &mut invalid);
    proof {
        let plan = scan_dirs(dirs_view(dirs@), excludes@.map_values(|s: String| s@));
        assert(probes@.map_values(|p: HostProbe| p@) =~= Seq::<ProbeView>::empty() + plan.0);
        assert(invalid@.map_values(|e: CheckError| e@) =~= Seq::<CheckErrView>::empty() + plan.1);
    }
    Ok((probes, invalid))
}

/// Appends the plan of a directive list to the accumulators.
fn scan_dirs_exec(
    dirs: &Vec<Directive>,
    pats: &Vec<String>,
    probes: &mut Vec<HostProbe>,
    invalid: &mut Vec<CheckError>,
)
    requires
        forall|i: int| 0 <= i < pats@.len() ==> regex_valid((#[trigger] pats@[i])@),
    ensures
        final(probes)@.map_values(|p: HostProbe| p@) == old(probes)@.map_values(|p: HostProbe| p@)
            + scan_dirs(dirs_view(dirs@), pats@.map_values(|s: String| s@)).0,
        final(invalid)@.map_values(|e: CheckError| e@) == old(invalid)@.map_values(
            |e: CheckError| e@,
        ) + scan_dirs(dirs_view(dirs@), pats@.map_values(|s: String| s@)).1,
    decreases dirs@, 1int,
{
    let ghost dsv = dirs_view(dirs@);
    let ghost pv = pats@.map_values(|s: String| s@);
    let ghost probes0 = old(probes)@.map_values(|p: HostProbe| p@);
    let ghost invalid0 = old(invalid)@.map_values(|e: CheckError| e@);
    proof {
        crate::model::lemma_dirs_view_index(dirs@);
        assert(probes0 + scan_dirs(dsv.subrange(0, 0), pv).0 =~= probes0);
        assert(invalid0 + scan_dirs(dsv.subrange(0, 0), pv).1 =~= invalid0);
    }
    let mut i: usize = 0;
    while i < dirs.len()
        invariant
            0 <= i <= dirs@.len(),
            dsv == dirs_view(dirs@),
            pv == pats@.map_values(|s: String| s@),
            dsv.len() == dirs@.len(),
            forall|k: int| 0 <= k < dirs@.len() ==> dsv[k] == dir_view(dirs@[k]),
            forall|k: int| 0 <= k < pats@.len() ==> regex_valid((#[trigger] pats@[k])@),
            probes0 == old(probes)@.map_values(|p: HostProbe| p@),
            invalid0 == old(invalid)@.map_values(|e: CheckError| e@),
            probes@.map_values(|p: HostProbe| p@) == probes0 + scan_dirs(
                dsv.subrange(0, i as int),
                pv,
            ).0,
            invalid@.map_values(|e: CheckError| e@) == invalid0 + scan_dirs(
                dsv.subrange(0, i as int),
                pv,
            ).1,
        decreases dirs@.len() - i,
    {
        proof {
            assert(decreases_to!(dirs@ => dirs@[i as int]));
        }
        scan_dir_exec(&dirs[i], pats, probes, invalid);
        proof {
            lemma_scan_snoc(dsv, i as int, pv);
        }
        i = i + 1;
    }
    proof {
        assert(dsv.subrange(0, dsv.len() as int) =~= dsv);
    }
}

/// Scanning one more directive appends its plan.
proof fn lemma_scan_snoc(ds: Seq<DirView>, i: int, pats: Seq<Seq<char>>)
    requires
        0 <= i < ds.len(),
    ensures
        scan_dirs(ds.subrange(0, i + 1), pats).0 == scan_dirs(ds.subrange(0, i), pats).0
            + scan_dir(ds[i], pats).0,
        scan_dirs(ds.subrange(0, i + 1), pats).1 == scan_dirs(ds.subrange(0, i), pats).1
            + scan_dir(ds[i], pats).1,
    decreases i,
{
    if i == 0 {
        assert(ds.subrange(0, 1).drop_first() =~= ds.subrange(0, 0));
        assert(ds.subrange(0, 0).len() == 0);
        assert(scan_dirs(ds.subrange(0, 1), pats).0 =~= scan_dirs(ds.subrange(0, 0), pats).0
            + scan_dir(ds[0], pats).0);
        assert(scan_dirs(ds.subrange(0, 1), pats).1 =~= scan_dirs(ds.subrange(0, 0), pats).1
            + scan_dir(ds[0], pats).1);
    } else {
        lemma_scan_snoc(ds.drop_first(), i - 1, pats);
        assert(ds.subrange(0, i + 1).drop_first() =~= ds.drop_first().subrange(0, i));
        assert(ds.subrange(0, i).drop_first() =~= ds.drop_first().subrange(0, i - 1));
        assert(ds.subrange(0, i + 1)[0] == ds[0]);
        assert(ds.subrange(0, i)[0] == ds[0]);
        assert(ds.drop_first()[i - 1] == ds[i]);
        assert(scan_dirs(ds.subrange(0, i + 1), pats).0 =~= scan_dirs(ds.subrange(0, i), pats).0
            + scan_dir(ds[i], pats).0);
        assert(scan_dirs(ds.subrange(0, i + 1), pats).1 =~= scan_dirs(ds.subrange(0, i), pats).1
            + scan_dir(ds[i], pats).1);
    }
}

/// Appends the plan of one directive to the accumulators.
fn scan_dir_exec(
    d: &Directive,
    pats: &Vec<String>,
    probes: &mut Vec<HostProbe>,
    invalid: &mut Vec<CheckError>,
)
    requires
        forall|i: int| 0 <= i < pats@.len() ==> regex_valid((#[trigger] pats@[i])@),
    ensures
        final(probes)@.map_values(|p: HostProbe| p@) == old(probes)@.map_values(|p: HostProbe| p@)
            + scan_dir(dir_view(*d), pats@.map_values(|s: String| s@)).0,
        final(invalid)@.map_values(|e: CheckError| e@) == old(invalid)@.map_values(
            |e: CheckError| e@,
        ) + scan_dir(dir_view(*d), pats@.map_values(|s: String| s@)).1,
    decreases *d, 0int,
{
    let ghost probes0 = old(probes)@.map_values(|p: HostProbe| p@);
    let ghost invalid0 = old(invalid)@.map_values(|e: CheckError| e@);
    match &d.item {
        Item::ProxyPass(v) => {
            let s = render_value(v);
            match inspect_url(&s) {
                UrlHost::Invalid(msg) => {
                    invalid.push(CheckError::InvalidUrl(s, msg));
                    proof {
                        assert(invalid@.map_values(|e: CheckError| e@) =~= invalid0 + scan_dir(
                            dir_view(*d),
                            pats@.map_values(|x: String| x@),
                        ).1);
                        assert(probes@.map_values(|p: HostProbe| p@) =~= probes0 + scan_dir(
                            dir_view(*d),
                            pats@.map_values(|x: String| x@),
                        ).0);
                    }
                },
                UrlHost::Domain(dom, port) => {
                    if !excluded(&dom, pats) {
                        let pt: u16 = match port {
                            Some(p) => p,
                            None => 80,
                        };
                        probes.push(HostProbe { domain: dom, port: pt, url: s });
                        proof {
                            assert(probes@.map_values(|p: HostProbe| p@) =~= probes0 + scan_dir(
                                dir_view(*d),
                                pats@.map_values(|x: String| x@),
                            ).0);
                            assert(invalid@.map_values(|e: CheckError| e@) =~= invalid0 + scan_dir(
                                dir_view(*d),
                                pats@.map_values(|x: String| x@),
                            ).1);
                        }
                    } else {
                        proof {
                            assert(probes@.map_values(|p: HostProbe| p@) + scan_dir(
                                dir_view(*d),
                                pats@.map_values(|x: String| x@),
                            ).0 =~= probes@.map_values(|p: HostProbe| p@));
                            assert(invalid@.map_values(|e: CheckError| e@) + scan_dir(
                                dir_view(*d),
                                pats@.map_values(|x: String| x@),
                            ).1 =~= invalid@.map_values(|e: CheckError| e@));
                        }
                    }
                },
                UrlHost::Other => {
                    proof {
                        assert(probes@.map_values(|p: HostProbe| p@) + scan_dir(
                            dir_view(*d),
                            pats@.map_values(|x: String| x@),
                        ).0 =~= probes@.map_values(|p: HostProbe| p@));
                        assert(invalid@.map_values(|e: CheckError| e@) + scan_dir(
                            dir_view(*d),
                            pats@.map_values(|x: String| x@),
                        ).1 =~= invalid@.map_values(|e: CheckError| e@));
                    }
                },
            }
        },
        Item::If(_, ch) => {
            proof {
                assert(decreases_to!(*d => ch@)) by {
                    assert(decreases_to!(*d => d.item));
                    assert(decreases_to!(d.item => *ch));
                    assert(decreases_to!(*ch => ch@));
                }
            }
            scan_dirs_exec(ch, pats, probes, invalid);
        },
        Item::Block(_, _, ch) => {
            proof {
                assert(decreases_to!(*d => ch@)) by {
                    assert(decreases_to!(*d => d.item));
                    assert(decreases_to!(d.item => *ch));
                    assert(decreases_to!(*ch => ch@));
                }
            }
            scan_dirs_exec(ch, pats, probes, invalid);
        },
        _ => {
            proof {
                assert(probes@.map_values(|p: HostProbe| p@) + scan_dir(
                    dir_view(*d),
                    pats@.map_values(|x: String| x@),
                ).0 =~= probes@.map_values(|p: HostProbe| p@));
                assert(invalid@.map_values(|e: CheckError| e@) + scan_dir(
                    dir_view(*d),
                    pats@.map_values(|x: String| x@),
                ).1 =~= invalid@.map_values(|e: CheckError| e@));
            }
        },
    }
}

// -------------------------------------------------------------- aggregation

/// The diagnostics of the failed lookups, in plan order: one per probe
/// whose outcome is a failure message.
pub open spec fn resolve_errs(probes: Seq<ProbeView>, outcomes: Seq<Option<Seq<char>>>) -> Seq<
    CheckErrView,
>
    decreases probes.len(),
{
    if probes.len() == 0 || outcomes.len() == 0 {
        Seq::empty()
    } else {
        let rest = resolve_errs(probes.drop_first(), outcomes.drop_first());
        match outcomes[0] {
            Some(msg) => seq![
                CheckErrView::Resolve(probes[0].domain, probes[0].url, msg),
            ] + rest,
            None => rest,
        }
    }
}

/// The number of failed outcomes.
pub open spec fn failure_count(outcomes: Seq<Option<Seq<char>>>) -> int
    decreases outcomes.len(),
{
    if outcomes.len() == 0 {
        0
    } else {
        (if outcomes[0] is Some {
            1int
        } else {
            0int
        }) + failure_count(outcomes.drop_first())
    }
}

/// Aggregation never drops a failure and never short-circuits: with as many
/// outcomes as probes, the diagnostics number exactly the failed outcomes.
pub proof fn lemma_diagnostics_count(probes: Seq<ProbeView>, outcomes: Seq<Option<Seq<char>>>)
    requires
        probes.len() == outcomes.len(),
    ensures
        resolve_errs(probes, outcomes).len() == failure_count(outcomes),
    decreases probes.len(),
{
    if probes.len() > 0 {
        lemma_diagnostics_count(probes.drop_first(), outcomes.drop_first());
    }
}

/// The views of a list of outcomes.
pub open spec fn outcomes_view(os: Seq<Option<String>>) -> Seq<Option<Seq<char>>> {
    os.map_values(
        |o: Option<String>|
            match o {
                Some(s) => Some(s@),
                None => None,
            },
    )
}

/// Aggregates the caller's lookup outcomes with the invalid-URL
/// diagnostics: success exactly when there is no diagnostic at all; any
/// failure surfaces every diagnostic together, the invalid-URL ones first,
/// then one per failed lookup, in plan order.
pub fn finish_hostname_check(
    invalid: Vec<CheckError>,
    probes: &Vec<HostProbe>,
    outcomes: Vec<Option<String>>,
) -> (res: Result<(), Vec<CheckError>>)
    requires
        outcomes@.len() == probes@.len(),
    ensures
        match res {
            Ok(()) => invalid@.len() == 0 && resolve_errs(
                probes@.map_values(|p: HostProbe| p@),
                outcomes_view(outcomes@),
            ).len() == 0,
            Err(es) => es@.map_values(|e: CheckError| e@) == invalid@.map_values(
                |e: CheckError| e@,
            ) + resolve_errs(
                probes@.map_values(|p: HostProbe| p@),
                outcomes_view(outcomes@),
            ) && es@.len() > 0,
        },
{
    let ghost probesv = probes@.map_values(|p: HostProbe| p@);
    let ghost osv = outcomes_view(outcomes@);
    let mut errs = invalid;
    let ghost invalid0 = errs@.map_values(|e: CheckError| e@);
    let n = outcomes.len();
    let mut rest = outcomes;
    let mut i: usize = 0;
    proof {
        assert(resolve_errs_prefix(probesv, osv, 0) =~= Seq::<CheckErrView>::empty());
        assert(errs@.map_values(|e: CheckError| e@) =~= invalid0 + resolve_errs_prefix(
            probesv,
            osv,
            0,
        ));
    }
    while rest.len() > 0
        invariant
            0 <= i <= n,
            n == osv.len(),
            probesv == probes@.map_values(|p: HostProbe| p@),
            probesv.len() == osv.len(),
            i + rest@.len() == osv.len(),
            forall|j: int| 0 <= j < rest@.len() ==> outcomes_view(rest@)[j] == osv[i + j],
            errs@.map_values(|e: CheckError| e@) == invalid0 + resolve_errs_prefix(
                probesv,
                osv,
                i as int,
            ),
        decreases rest@.len(),
    {
        let ghost restv = outcomes_view(rest@);
        let o = rest.remove(0);
        proof {
            assert(restv[0] == osv[i as int]);
            assert(outcomes_view(rest@) =~= restv.drop_first());
            assert((match o {
                Some(s) => Some(s@),
                None => None::<Seq<char>>,
            }) == osv[i as int]);
        }
        match o {
            Some(msg) => {
                let ghost pre = errs@.map_values(|e: CheckError| e@);
                errs.push(
                    CheckError::Resolve(
                        probes[i].domain.clone(),
                        probes[i].url.clone(),
                        msg,
                    ),
                );
                proof {
                    assert(errs@.map_values(|e: CheckError| e@) =~= pre.push(
                        CheckErrView::Resolve(probesv[i as int].domain, probesv[i as int].url, osv[i as int]->0),
                    ));
                    lemma_resolve_errs_snoc(probesv, osv, i as int);
                    assert(errs@.map_values(|e: CheckError| e@) =~= invalid0 + resolve_errs_prefix(
                        probesv,
                        osv,
                        i + 1 as int,
                    ));
                }
            },
            None => {
                proof {
                    lemma_resolve_errs_snoc(probesv, osv, i as int);
                    assert(errs@.map_values(|e: CheckError| e@) =~= invalid0 + resolve_errs_prefix(
                        probesv,
                        osv,
                        i + 1 as int,
                    ));
                }
            },
        }
        i = i + 1;
    }
    proof {
        assert(i == osv.len());
        lemma_resolve_errs_prefix_all(probesv, osv);
    }
    if errs.len() == 0 {
        proof {
            assert(invalid0.len() + resolve_errs(probesv, osv).len() == 0);
        }
        Ok(())
    } else {
        Err(errs)
    }
}

/// The diagnostics of the first `i` outcomes.
pub open spec fn resolve_errs_prefix(
    probes: Seq<ProbeView>,
    outcomes: Seq<Option<Seq<char>>>,
    i: int,
) -> Seq<CheckErrView> {
    resolve_errs(probes.subrange(0, i), outcomes.subrange(0, i))
}

/// Extending the prefix by one outcome appends its diagnostic, if any.
proof fn lemma_resolve_errs_snoc(probes: Seq<ProbeView>, outcomes: Seq<Option<Seq<char>>>, i: int)
    requires
        0 <= i < probes.len(),
        probes.len() == outcomes.len(),
    ensures
        resolve_errs_prefix(probes, outcomes, i + 1) == resolve_errs_prefix(probes, outcomes, i)
            + (match outcomes[i] {
            Some(msg) => seq![CheckErrView::Resolve(probes[i].domain, probes[i].url, msg)],
            None => Seq::<CheckErrView>::empty(),
        }),
    decreases i,
{
    if i == 0 {
        assert(probes.subrange(0, 1).drop_first() =~= probes.subrange(0, 0));
        assert(outcomes.subrange(0, 1).drop_first() =~= outcomes.subrange(0, 0));
        assert(probes.subrange(0, 0).len() == 0);
        match outcomes[0] {
            Some(msg) => {
                assert(resolve_errs_prefix(probes, outcomes, 1) =~= resolve_errs_prefix(
                    probes,
                    outcomes,
                    0,
                ) + seq![CheckErrView::Resolve(probes[0].domain, probes[0].url, msg)]);
            },
            None => {
                assert(resolve_errs_prefix(probes, outcomes, 1) =~= resolve_errs_prefix(
                    probes,
                    outcomes,
                    0,
                ));
            },
        }
    } else {
        lemma_resolve_errs_snoc(probes.drop_first(), outcomes.drop_first(), i - 1);
        assert(probes.subrange(0, i + 1).drop_first() =~= probes.drop_first().subrange(0, i));
        assert(probes.subrange(0, i).drop_first() =~= probes.drop_first().subrange(0, i - 1));
        assert(outcomes.subrange(0, i + 1).drop_first() =~= outcomes.drop_first().subrange(0, i));
        assert(outcomes.subrange(0, i).drop_first() =~= outcomes.drop_first().subrange(0, i - 1));
        assert(probes.subrange(0, i + 1)[0] == probes[0]);
        assert(probes.subrange(0, i)[0] == probes[0]);
        assert(outcomes.subrange(0, i + 1)[0] == outcomes[0]);
        assert(outcomes.subrange(0, i)[0] == outcomes[0]);
        assert(probes.drop_first()[i - 1] == probes[i]);
        assert(outcomes.drop_first()[i - 1] == outcomes[i]);
        match outcomes[i] {
            Some(msg) => {
                assert(resolve_errs_prefix(probes, outcomes, i + 1) =~= resolve_errs_prefix(
                    probes,
                    outcomes,
                    i,
                ) + seq![CheckErrView::Resolve(probes[i].domain, probes[i].url, msg)]);
            },
            None => {
                assert(resolve_errs_prefix(probes, outcomes, i + 1) =~= resolve_errs_prefix(
                    probes,
                    outcomes,
                    i,
                ));
            },
        }
    }
}

/// The whole prefix is the whole list.
proof fn lemma_resolve_errs_prefix_all(probes: Seq<ProbeView>, outcomes: Seq<Option<Seq<char>>>)
    requires
        probes.len() == outcomes.len(),
    ensures
        resolve_errs_prefix(probes, outcomes, outcomes.len() as int) == resolve_errs(
            probes,
            outcomes,
        ),
{
    assert(probes.subrange(0, probes.len() as int) =~= probes);
    assert(outcomes.subrange(0, outcomes.len() as int) =~= outcomes);
}

} // verus!
