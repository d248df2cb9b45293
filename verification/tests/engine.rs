//! Tests of the ordered rule pipeline over whole directive trees.
use nginx_config_mod::config::{modify_config, modify_directives, Config, EntryPoint, ModifyOptions};
use nginx_config_mod::expand::{relative_inc_paths, splice_fragments};
use nginx_config_mod::model::{Cond, Directive, Item, Value};
use nginx_config_mod::render::render_dirs;
use nginx_config_mod::rules::RuleError;
use nginx_config_mod::value::parse_value;

fn val(s: &str) -> Value {
    parse_value(&s.to_string()).expect("value text should parse")
}

fn dir(item: Item) -> Directive {
    Directive { line: 0, column: 0, item }
}

fn unknown(name: &str, args: &[&str]) -> Item {
    Item::Unknown(name.to_string(), args.iter().map(|a| val(a)).collect())
}

#[test]
fn empty_parameters_leave_the_render_unchanged() {
    let build = || {
        vec![
            dir(unknown("worker_processes", &["auto"])),
            dir(Item::Block(
                "http".to_string(),
                String::new(),
                vec![dir(Item::Block(
                    "server".to_string(),
                    String::new(),
                    vec![
                        dir(Item::Listen("80".to_string())),
                        dir(Item::ProxyPass(val("http://up.test/"))),
                        dir(Item::If(
                            Cond::Eq(val("$host"), "x".to_string()),
                            vec![dir(unknown("return", &["404"]))],
                        )),
                    ],
                ))],
            )),
        ]
    };
    let before = render_dirs(&build());
    let out = modify_directives(build(), &ModifyOptions::empty()).unwrap();
    assert_eq!(render_dirs(&out), before);
}

#[test]
fn variable_substitution_rewrites_values() {
    let dirs = vec![dir(Item::ProxyPass(val("http://$host/x")))];
    let mut opts = ModifyOptions::empty();
    opts.vars = vec![("host".to_string(), "example.com".to_string())];
    let out = modify_directives(dirs, &opts).unwrap();
    assert_eq!(render_dirs(&out), "proxy_pass http://example.com/x;\n");
}

#[test]
fn variable_substitution_merges_adjacent_literals() {
    let dirs = vec![dir(Item::ProxyPass(val("http://$a$b/")))];
    let mut opts = ModifyOptions::empty();
    opts.vars = vec![("a".to_string(), "x".to_string()), ("b".to_string(), "y".to_string())];
    let out = modify_directives(dirs, &opts).unwrap();
    assert_eq!(render_dirs(&out), "proxy_pass http://xy/;\n");
}

#[test]
fn variable_substitution_takes_the_first_binding_of_a_name() {
    let dirs = vec![dir(Item::ProxyPass(val("http://$a/")))];
    let mut opts = ModifyOptions::empty();
    opts.vars = vec![("a".to_string(), "one".to_string()), ("a".to_string(), "two".to_string())];
    let out = modify_directives(dirs, &opts).unwrap();
    assert_eq!(render_dirs(&out), "proxy_pass http://one/;\n");
}

#[test]
fn server_name_mapping_rewrites_dot_suffix_patterns() {
    let dirs = vec![dir(Item::ServerName(vec![
        nginx_config_mod::ServerNamePattern::Suffix("example.com".to_string()),
    ]))];
    let mut opts = ModifyOptions::empty();
    opts.server_names = vec![("example.com".to_string(), "example.org".to_string())];
    let out = modify_directives(dirs, &opts).unwrap();
    assert_eq!(render_dirs(&out), "server_name .example.org;\n");
}

#[test]
fn variable_substitution_rejects_unrepresentable_values() {
    let dirs = vec![dir(Item::ProxyPass(val("http://$host/x")))];
    let mut opts = ModifyOptions::empty();
    opts.vars = vec![("host".to_string(), "has space".to_string())];
    match modify_directives(dirs, &opts) {
        Err(RuleError::BadSubstValue(v)) => assert_eq!(v, "has space"),
        other => panic!("expected a bad-substitution error, got {:?}", other),
    }
}

#[test]
fn listen_fanout_replaces_runs_and_spares_other_blocks() {
    let dirs = vec![dir(Item::Block(
        "http".to_string(),
        String::new(),
        vec![
            dir(Item::Block(
                "server".to_string(),
                String::new(),
                vec![
                    dir(Item::Listen("80".to_string())),
                    dir(unknown("root", &["/var/www"])),
                ],
            )),
            dir(Item::Block(
                "server".to_string(),
                String::new(),
                vec![dir(unknown("root", &["/var/www"]))],
            )),
        ],
    ))];
    let mut opts = ModifyOptions::empty();
    opts.listen = vec!["8080".to_string(), "8081".to_string()];
    let out = modify_directives(dirs, &opts).unwrap();
    let expected = "http {\n    server {\n        listen 8080;\n        listen 8081;\n        \
                    root /var/www;\n    }\n    server {\n        root /var/www;\n    }\n}\n";
    assert_eq!(render_dirs(&out), expected);
}

#[test]
fn server_name_mapping_respects_label_boundaries() {
    let dirs = vec![dir(Item::ServerName(vec![
        nginx_config_mod::ServerNamePattern::Exact("www.example.com".to_string()),
        nginx_config_mod::ServerNamePattern::Exact("notexample.com".to_string()),
    ]))];
    let mut opts = ModifyOptions::empty();
    opts.server_names = vec![("example.com".to_string(), "example.org".to_string())];
    let out = modify_directives(dirs, &opts).unwrap();
    assert_eq!(render_dirs(&out), "server_name www.example.org notexample.com;\n");
}

#[test]
fn server_name_mapping_skips_star_prefix_and_regex() {
    let dirs = vec![dir(Item::ServerName(vec![
        nginx_config_mod::ServerNamePattern::StarSuffix("example.com".to_string()),
        nginx_config_mod::ServerNamePattern::StarPrefix("example.com".to_string()),
        nginx_config_mod::ServerNamePattern::Regex("example\\.com$".to_string()),
    ]))];
    let mut opts = ModifyOptions::empty();
    opts.server_names = vec![("example.com".to_string(), "example.org".to_string())];
    let out = modify_directives(dirs, &opts).unwrap();
    assert_eq!(
        render_dirs(&out),
        "server_name *.example.org example.com.* ~example\\.com$;\n"
    );
}

#[test]
fn proxy_host_mapping_preserves_scheme_port_and_path() {
    let dirs = vec![dir(Item::ProxyPass(val("http://api.example.com:8080/v1/users")))];
    let mut opts = ModifyOptions::empty();
    opts.proxy_hosts = vec![("example.com".to_string(), "example.net".to_string())];
    let out = modify_directives(dirs, &opts).unwrap();
    assert_eq!(render_dirs(&out), "proxy_pass http://api.example.net:8080/v1/users;\n");
}

#[test]
fn proxy_regexes_apply_in_listed_order() {
    let dirs = vec![dir(Item::ProxyPass(val("A")))];
    let mut opts = ModifyOptions::empty();
    opts.proxy_regexes = vec![
        ("A".to_string(), "B".to_string()),
        ("B".to_string(), "C".to_string()),
    ];
    let out = modify_directives(dirs, &opts).unwrap();
    assert_eq!(render_dirs(&out), "proxy_pass C;\n");
}

#[test]
fn proxy_regexes_replace_only_the_leftmost_match() {
    let dirs = vec![dir(Item::ProxyPass(val("aXbX")))];
    let mut opts = ModifyOptions::empty();
    opts.proxy_regexes = vec![("X".to_string(), "Y".to_string())];
    let out = modify_directives(dirs, &opts).unwrap();
    assert_eq!(render_dirs(&out), "proxy_pass aYbX;\n");
}

#[test]
fn proxy_regexes_report_an_invalid_pattern() {
    let dirs = vec![dir(Item::ProxyPass(val("A")))];
    let mut opts = ModifyOptions::empty();
    opts.proxy_regexes = vec![("[".to_string(), "x".to_string())];
    match modify_directives(dirs, &opts) {
        Err(RuleError::InvalidRegex(p)) => assert_eq!(p, "["),
        other => panic!("expected an invalid-regex error, got {:?}", other),
    }
}

#[test]
fn proxy_regexes_abort_on_an_unparsable_result() {
    let dirs = vec![dir(Item::ProxyPass(val("A")))];
    let mut opts = ModifyOptions::empty();
    opts.proxy_regexes = vec![("A".to_string(), "a b".to_string())];
    match modify_directives(dirs, &opts) {
        Err(RuleError::BadProxyPass(s)) => assert_eq!(s, "a b"),
        other => panic!("expected a bad-proxy-destination error, got {:?}", other),
    }
}

#[test]
fn if_regexes_rewrite_only_the_literal_operand() {
    let dirs = vec![dir(Item::If(
        Cond::Eq(val("$host"), "old.com".to_string()),
        Vec::new(),
    ))];
    let mut opts = ModifyOptions::empty();
    opts.if_regexes = vec![("old".to_string(), "new".to_string())];
    let out = modify_directives(dirs, &opts).unwrap();
    assert_eq!(render_dirs(&out), "if ($host = new.com) {\n}\n");
}

#[test]
fn if_regexes_leave_other_condition_kinds_alone() {
    let dirs = vec![dir(Item::If(Cond::Other("-f $request_filename".to_string()), Vec::new()))];
    let mut opts = ModifyOptions::empty();
    opts.if_regexes = vec![("request".to_string(), "x".to_string())];
    let out = modify_directives(dirs, &opts).unwrap();
    assert_eq!(render_dirs(&out), "if (-f $request_filename) {\n}\n");
}

#[test]
fn rewrite_host_regexes_touch_only_the_host_portion() {
    let dirs = vec![dir(Item::Rewrite(
        "^/a".to_string(),
        val("http://old.example/p"),
        Some("permanent".to_string()),
    ))];
    let mut opts = ModifyOptions::empty();
    opts.rewrite_host_regexes = vec![("old".to_string(), "new".to_string())];
    let out = modify_directives(dirs, &opts).unwrap();
    assert_eq!(render_dirs(&out), "rewrite ^/a http://new.example/p permanent;\n");
}

#[test]
fn rewrite_host_regexes_skip_local_destinations() {
    let dirs = vec![dir(Item::Rewrite("^/a".to_string(), val("/local/old"), None))];
    let mut opts = ModifyOptions::empty();
    opts.rewrite_host_regexes = vec![("old".to_string(), "new".to_string())];
    let out = modify_directives(dirs, &opts).unwrap();
    assert_eq!(render_dirs(&out), "rewrite ^/a /local/old;\n");
}

#[test]
fn rewrite_host_regexes_accept_the_scheme_variable() {
    let dirs = vec![dir(Item::Rewrite(
        "^/a".to_string(),
        val("$scheme://old.example/p"),
        None,
    ))];
    let mut opts = ModifyOptions::empty();
    opts.rewrite_host_regexes = vec![("old".to_string(), "new".to_string())];
    let out = modify_directives(dirs, &opts).unwrap();
    assert_eq!(render_dirs(&out), "rewrite ^/a $scheme://new.example/p;\n");
}

#[test]
fn replace_by_name_applies_only_the_first_matching_rule() {
    let dirs = vec![dir(Item::Block(
        "http".to_string(),
        String::new(),
        vec![dir(unknown("expires", &["1d"]))],
    ))];
    let mut opts = ModifyOptions::empty();
    opts.replacements = vec![
        ("expires".to_string(), unknown("add_header", &["Expires", "never"])),
        ("expires".to_string(), unknown("gzip", &["off"])),
    ];
    let out = modify_directives(dirs, &opts).unwrap();
    assert_eq!(render_dirs(&out), "http {\n    add_header Expires never;\n}\n");
}

#[test]
fn replace_by_name_leaves_unmatched_directives_alone() {
    let dirs = vec![dir(unknown("gzip", &["on"]))];
    let mut opts = ModifyOptions::empty();
    opts.replacements = vec![("expires".to_string(), unknown("gzip", &["off"]))];
    let out = modify_directives(dirs, &opts).unwrap();
    assert_eq!(render_dirs(&out), "gzip on;\n");
}

#[test]
fn allow_list_rejects_a_path_outside_every_prefix() {
    let dirs = vec![dir(Item::Include(val("/etc/secret.conf")))];
    let mut opts = ModifyOptions::empty();
    opts.allow_prefixes = vec!["/etc/nginx/".to_string()];
    match modify_directives(dirs, &opts) {
        Err(RuleError::PathNotAllowed(p, al)) => {
            assert_eq!(p, "/etc/secret.conf");
            assert_eq!(al, vec!["/etc/nginx/".to_string()]);
        }
        other => panic!("expected a path-not-allowed error, got {:?}", other),
    }
}

#[test]
fn allow_list_accepts_a_covered_path() {
    let dirs = vec![dir(Item::Include(val("/etc/nginx/conf.d/x.conf")))];
    let mut opts = ModifyOptions::empty();
    opts.allow_prefixes = vec!["/etc/nginx/".to_string()];
    let out = modify_directives(dirs, &opts).unwrap();
    assert_eq!(render_dirs(&out), "include /etc/nginx/conf.d/x.conf;\n");
}

#[test]
fn expansion_collects_and_splices_relative_paths() {
    let dirs = vec![
        dir(Item::Include(val("extra.conf"))),
        dir(Item::Block(
            "server".to_string(),
            String::new(),
            vec![dir(Item::Include(val("sub.conf")))],
        )),
        dir(Item::Include(val("/etc/nginx/abs.conf"))),
    ];
    let base = "/etc/nginx".to_string();
    let paths = relative_inc_paths(&dirs, &base);
    assert_eq!(
        paths,
        vec!["/etc/nginx/extra.conf".to_string(), "/etc/nginx/sub.conf".to_string()]
    );
    let frags = vec![
        (
            "/etc/nginx/extra.conf".to_string(),
            vec![dir(unknown("gzip", &["on"]))],
        ),
        (
            "/etc/nginx/sub.conf".to_string(),
            vec![dir(unknown("root", &["/var/www"]))],
        ),
    ];
    let out = splice_fragments(dirs, &base, &frags).unwrap();
    let expected = "gzip on;\nserver {\n    root /var/www;\n}\ninclude /etc/nginx/abs.conf;\n";
    assert_eq!(render_dirs(&out), expected);
}

#[test]
fn expansion_reports_a_missing_fragment() {
    let dirs = vec![dir(Item::Include(val("extra.conf")))];
    match splice_fragments(dirs, &"/etc/nginx".to_string(), &Vec::new()) {
        Err(RuleError::MissingFragment(p)) => assert_eq!(p, "/etc/nginx/extra.conf"),
        other => panic!("expected a missing-fragment error, got {:?}", other),
    }
}

#[test]
fn all_directives_flattens_in_document_order() {
    let cfg = Config {
        filename: None,
        entry: EntryPoint::Main,
        directives: vec![dir(Item::Block(
            "http".to_string(),
            String::new(),
            vec![
                dir(Item::Listen("80".to_string())),
                dir(Item::If(
                    Cond::Eq(val("$host"), "x".to_string()),
                    vec![dir(unknown("return", &["404"]))],
                )),
            ],
        ))],
    };
    let flat = cfg.all_directives();
    let names: Vec<String> = flat.iter().map(|d| d.item.directive_name()).collect();
    assert_eq!(names, vec!["http", "listen", "if", "return"]);
}

#[test]
fn modify_config_keeps_filename_and_entry_point() {
    let cfg = Config {
        filename: Some("/etc/nginx/nginx.conf".to_string()),
        entry: EntryPoint::Main,
        directives: vec![dir(unknown("gzip", &["on"]))],
    };
    let out = modify_config(cfg, &ModifyOptions::empty()).unwrap();
    assert_eq!(out.filename, Some("/etc/nginx/nginx.conf".to_string()));
    assert!(out.entry == EntryPoint::Main);
    assert_eq!(out.render(), "gzip on;\n");
}
