//! A verified rewrite engine for nginx-style configuration trees.
//!
//! The engine consumes an already-parsed tree of directives, applies an
//! ordered pipeline of rewrite rules to it, and renders the result back to
//! text.  Parsing whole configuration files is left to an outside parser;
//! this crate owns the tree model, the value grammar (with a proved
//! parse/render round trip), every rewrite rule, the allow-list check on
//! file-inclusion directives, and the planning and aggregation halves of
//! the hostname-resolvability check.  Reading files and resolving
//! hostnames stay with the caller, which hands the engine plain values.
pub mod checks;
pub mod config;
pub mod expand;
pub mod laws;
pub mod mapping;
pub mod model;
pub mod outside;
pub mod params;
pub mod render;
pub mod rules;
pub mod subst;
pub mod text;
pub mod value;
pub mod walk;

pub use checks::{finish_hostname_check, plan_hostname_checks, CheckError, HostProbe};
pub use config::{
    modify_config, modify_directives, Config, EntryPoint, ModifyOptions, ReadError, Validate,
};
pub use expand::{check_paths, relative_inc_paths, splice_fragments};
pub use mapping::{proxy_subst, relative};
pub use model::{Cond, Directive, Item, Segment, ServerNamePattern, Value};
pub use params::{parse_pairs, parse_replacement_arg, parse_var_pairs};
pub use rules::RuleError;
pub use value::{parse_value, render_value};
