//! Tests of the value grammar, the name-mapping primitives, the rule
//! argument parsers, and the hostname-check planning and aggregation.
use nginx_config_mod::checks::{finish_hostname_check, plan_hostname_checks, CheckError};
use nginx_config_mod::config::ReadError;
use nginx_config_mod::model::{Directive, Item, Segment, Value};
use nginx_config_mod::params::{parse_pairs, parse_replacement_arg, parse_var_pairs};
use nginx_config_mod::rules::RuleError;
use nginx_config_mod::text::split_eq;
use nginx_config_mod::value::{parse_value, render_value};
use nginx_config_mod::{proxy_subst, relative};

fn val(s: &str) -> Value {
    parse_value(&s.to_string()).expect("value text should parse")
}

fn dir(item: Item) -> Directive {
    Directive { line: 0, column: 0, item }
}

#[test]
fn value_round_trips_through_text() {
    for text in ["", "plain", "http://$host:8080/p", "${a}bc", "$a-b", "a$b$c", "$a$b"] {
        let v = val(text);
        assert_eq!(render_value(&v), text);
    }
}

#[test]
fn value_rejects_text_outside_the_grammar() {
    for text in ["a b", "a;b", "a{b", "a}b", "$", "${}", "${a", "a\\b", "a\"b", "a#b"] {
        assert!(parse_value(&text.to_string()).is_none(), "{:?} should not parse", text);
    }
}

#[test]
fn value_render_picks_braces_only_when_needed() {
    let braced = Value {
        segs: vec![Segment::Var("a".to_string()), Segment::Lit("bc".to_string())],
    };
    assert_eq!(render_value(&braced), "${a}bc");
    let bare = Value {
        segs: vec![Segment::Var("a".to_string()), Segment::Lit("-b".to_string())],
    };
    assert_eq!(render_value(&bare), "$a-b");
}

#[test]
fn relative_respects_label_boundaries() {
    let some = relative(&"www.example.com".to_string(), &"example.com".to_string());
    assert_eq!(some, Some("www.".to_string()));
    let none = relative(&"notexample.com".to_string(), &"example.com".to_string());
    assert_eq!(none, None);
}

#[test]
fn relative_accepts_exact_match() {
    let r = relative(&"example.com".to_string(), &"example.com".to_string());
    assert_eq!(r, Some(String::new()));
}

#[test]
fn proxy_subst_keeps_scheme_port_and_path() {
    let r = proxy_subst(
        &"http://api.example.com:8080/v1/users".to_string(),
        &"example.com".to_string(),
    );
    assert_eq!(r, Some(("http://api.".to_string(), ":8080/v1/users".to_string())));
}

#[test]
fn proxy_subst_wants_a_known_scheme_and_matching_host() {
    assert_eq!(
        proxy_subst(&"ftp://x.example.com/".to_string(), &"example.com".to_string()),
        None
    );
    assert_eq!(
        proxy_subst(&"http://other.org/".to_string(), &"example.com".to_string()),
        None
    );
}

#[test]
fn split_eq_splits_at_the_first_equals() {
    assert_eq!(
        split_eq(&"a=b=c".to_string()),
        Some(("a".to_string(), "b=c".to_string()))
    );
    assert_eq!(split_eq(&"abc".to_string()), None);
}

#[test]
fn parse_pairs_names_the_first_bad_argument() {
    let items = vec!["a=b".to_string(), "xyz".to_string(), "pqr".to_string()];
    match parse_pairs(&items) {
        Err(RuleError::MissingEq(s)) => assert_eq!(s, "xyz"),
        other => panic!("expected a missing-equals error, got {:?}", other),
    }
}

#[test]
fn parse_var_pairs_defaults_to_the_empty_value() {
    let items = vec!["host=example.com".to_string(), "bare".to_string()];
    let ps = parse_var_pairs(&items);
    assert_eq!(ps[0], ("host".to_string(), "example.com".to_string()));
    assert_eq!(ps[1], ("bare".to_string(), String::new()));
}

#[test]
fn parse_replacement_arg_validates_both_sides() {
    let ok = parse_replacement_arg(&"expires=add_header Expires never".to_string());
    assert_eq!(
        ok.unwrap(),
        ("expires".to_string(), "add_header Expires never".to_string())
    );
    assert!(matches!(
        parse_replacement_arg(&"=foo".to_string()),
        Err(RuleError::EmptyName(_))
    ));
    assert!(matches!(
        parse_replacement_arg(&"foo=".to_string()),
        Err(RuleError::EmptyName(_))
    ));
    assert!(matches!(
        parse_replacement_arg(&"foo".to_string()),
        Err(RuleError::MissingEq(_))
    ));
}

#[test]
fn read_error_message_prefixes_the_kind() {
    let input = ReadError::Input("oops".to_string());
    assert_eq!(input.message(), "error reading input: oops");
    let syntax = ReadError::Syntax("bad token".to_string());
    assert_eq!(syntax.message(), "syntax error: bad token");
}

#[test]
fn hostname_plan_classifies_destinations() {
    let dirs = vec![
        dir(Item::ProxyPass(val("http://localhost:8080/x"))),
        dir(Item::ProxyPass(val("/bare/path"))),
        dir(Item::ProxyPass(val("http://127.0.0.1/y"))),
        dir(Item::ProxyPass(val("http://skip.internal/z"))),
    ];
    let excludes = vec!["internal$".to_string()];
    let (probes, invalid) = plan_hostname_checks(&dirs, &excludes).unwrap();
    assert_eq!(probes.len(), 1);
    assert_eq!(probes[0].domain, "localhost");
    assert_eq!(probes[0].port, 8080);
    assert_eq!(probes[0].url, "http://localhost:8080/x");
    assert_eq!(invalid.len(), 1);
    match &invalid[0] {
        CheckError::InvalidUrl(u, _) => assert_eq!(u, "/bare/path"),
        other => panic!("expected an invalid-url diagnostic, got {:?}", other),
    }
}

#[test]
fn hostname_plan_defaults_to_port_80() {
    let dirs = vec![dir(Item::ProxyPass(val("http://upstream.test/x")))];
    let (probes, invalid) = plan_hostname_checks(&dirs, &Vec::new()).unwrap();
    assert_eq!(invalid.len(), 0);
    assert_eq!(probes.len(), 1);
    assert_eq!(probes[0].port, 80);
}

#[test]
fn hostname_plan_rejects_a_bad_exclusion_pattern() {
    let dirs = vec![dir(Item::ProxyPass(val("http://a.test/")))];
    match plan_hostname_checks(&dirs, &vec!["[".to_string()]) {
        Err(RuleError::InvalidRegex(p)) => assert_eq!(p, "["),
        other => panic!("expected an invalid-regex error, got {:?}", other),
    }
}

#[test]
fn hostname_check_collects_every_failure() {
    let probes: Vec<nginx_config_mod::HostProbe> = (0..5)
        .map(|i| nginx_config_mod::HostProbe {
            domain: format!("host{}.test", i),
            port: 80,
            url: format!("http://host{}.test/", i),
        })
        .collect();
    let outcomes = vec![
        None,
        Some("no address".to_string()),
        None,
        Some("timed out".to_string()),
        None,
    ];
    match finish_hostname_check(Vec::new(), &probes, outcomes) {
        Err(errs) => {
            assert_eq!(errs.len(), 2);
            match &errs[0] {
                CheckError::Resolve(d, u, m) => {
                    assert_eq!(d, "host1.test");
                    assert_eq!(u, "http://host1.test/");
                    assert_eq!(m, "no address");
                }
                other => panic!("expected a resolve diagnostic, got {:?}", other),
            }
            match &errs[1] {
                CheckError::Resolve(d, _, m) => {
                    assert_eq!(d, "host3.test");
                    assert_eq!(m, "timed out");
                }
                other => panic!("expected a resolve diagnostic, got {:?}", other),
            }
        }
        Ok(()) => panic!("two failures must not aggregate to success"),
    }
}

#[test]
fn hostname_check_succeeds_on_empty_diagnostics() {
    let probes = vec![nginx_config_mod::HostProbe {
        domain: "ok.test".to_string(),
        port: 80,
        url: "http://ok.test/".to_string(),
    }];
    assert!(finish_hostname_check(Vec::new(), &probes, vec![None]).is_ok());
}
