//! Rewriting source code with rules over syntax trees, such as cleaning up
//! stale feature flags.
//!
//! The library parses concrete-syntax patterns (`:[var]` holes with
//! literal code around them and `|>` constraints), resolves their
//! constraints onto holes, and matches them against syntax trees. It
//! models the rule graph that drives cleanups, the facts that rules
//! record, filters, and the text edits applied to source code; and it runs
//! the rewrite engine: a rule applied to a file cascades to the rules that
//! follow it, and global rules run over a code base until none is new.

pub mod text;
pub mod matches;
pub mod parser;
pub mod resolver;
pub mod tree;
pub mod constraint_checker;
pub mod interpreter;
pub mod tree_sitter_adapter;
pub mod str_map;
pub mod rules;
pub mod rule_graph;
pub mod rule_store;
pub mod fact;
pub mod tsq_scan;
pub mod tag_analysis;
pub mod filter;
pub mod source_code_unit;
pub mod query_matcher;
pub mod filter_check;
pub mod heuristics;
pub mod cleanup;
