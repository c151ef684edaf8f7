//! The rewrite engine on Java code: rules applied to files, cascades to the
//! rules that follow, scope queries, and the cleanup of a code base.

use piranha_cs::cleanup::{
  constraint_outcome, get_cleanups_for_code_base_new, CleanupError, FlagCleaner,
};
use piranha_cs::heuristics::{grep_pattern, join_with_bars, path_has_extension, string_lt};
use piranha_cs::rule_store::{config_ok, Args, PiranhaArguments, RuleStore};
use piranha_cs::rules::{Edge, Edges, Pred, Rule, Rules, ScopeGenerator, ScopeQueryGenerator};
use piranha_cs::source_code_unit::{Edit, SourceCodeUnit, TextEdit};
use piranha_cs::matches::{Point, Range};
use piranha_cs::str_map::StrMap;

fn java_parser() -> tree_sitter::Parser {
  let mut parser = tree_sitter::Parser::new();
  parser
    .set_language(tree_sitter_java::language())
    .expect("Error loading Java grammar");
  parser
}

fn args(flag_name: &str, flag_namespace: &str, flag_value: bool) -> PiranhaArguments {
  PiranhaArguments::new(Args {
    path_to_codebase: "src".to_string(),
    language: "Java".to_string(),
    flag_name: flag_name.to_string(),
    flag_namespace: flag_namespace.to_string(),
    flag_value,
    path_to_configuration: String::new(),
  })
}

fn rule(name: &str, query: &str, replace_node: &str, replace: &str, holes: Option<Vec<&str>>) -> Rule {
  Rule::new(
    name.to_string(),
    query.to_string(),
    replace_node.to_string(),
    replace.to_string(),
    None,
    holes.map(|h| h.iter().map(|s| s.to_string()).collect()),
    None,
    None,
  )
}

fn edge(from: &str, to: &[&str], scope: &str) -> Edge {
  Edge {
    from: from.to_string(),
    to: to.iter().map(|s| s.to_string()).collect(),
    scope: scope.to_string(),
  }
}

fn store_with(language_rules: Vec<Rule>, edges: Vec<Edge>, scopes: Vec<ScopeGenerator>, input_rules: Vec<Rule>) -> RuleStore {
  RuleStore::new(
    args("isFlagOn", "ns", true),
    Rules { rules: language_rules },
    Edges { edges },
    scopes,
    Rules { rules: input_rules },
    Edges { edges: vec![] },
  )
}

fn true_to_false() -> Rule {
  rule("true_to_false", "((true) @t)", "t", "false", None)
}

fn replace_flag() -> Rule {
  rule(
    "replace_flag",
    "((method_invocation name: (identifier) @n (#eq? @n \"@stale_flag_name\")) @mi)",
    "mi",
    "true",
    Some(vec!["stale_flag_name"]),
  )
}

fn simplify_if_true() -> Rule {
  rule(
    "simplify_if_true",
    "((if_statement condition: (condition (true)) consequence: (_) @c alternative: (_)) @if)",
    "if",
    "@c",
    None,
  )
}

const FLAG_CODE: &str = "class A {\n  void f() {\n    if (x.isFlagOn()) { a(); } else { b(); }\n  }\n}\n";
const FLAG_CLEANED: &str = "class A {\n  void f() {\n    { a(); }\n  }\n}\n";

#[test]
fn apply_rule_rewrites_every_match() {
  let mut parser = java_parser();
  let mut store = store_with(vec![true_to_false()], vec![], vec![], vec![]);
  let mut unit = SourceCodeUnit::new(
    &mut parser,
    "class A { boolean f() { return true && true; } }".to_string(),
    &StrMap::new(),
    "A.java",
  )
  .unwrap();
  let applied = unit.apply_rule(true_to_false(), &mut store, &mut parser, &None);
  assert!(matches!(applied, Ok(true)));
  assert_eq!(unit.code(), "class A { boolean f() { return false && false; } }");
  let again = unit.apply_rule(true_to_false(), &mut store, &mut parser, &None);
  assert!(matches!(again, Ok(false)));
  assert_eq!(unit.code(), "class A { boolean f() { return false && false; } }");
}

#[test]
fn apply_rule_to_first_match_rewrites_once() {
  let mut parser = java_parser();
  let mut store = store_with(vec![true_to_false()], vec![], vec![], vec![]);
  let mut unit = SourceCodeUnit::new(
    &mut parser,
    "class A { boolean f() { return true && true; } }".to_string(),
    &StrMap::new(),
    "A.java",
  )
  .unwrap();
  let applied = unit.apply_rule_to_first_match(true_to_false(), &mut store, &mut parser, &None);
  assert!(matches!(applied, Ok(true)));
  assert_eq!(unit.code(), "class A { boolean f() { return true && false; } }");
  assert_eq!(unit.substitutions.get("t").map(|s| s.as_str()), Some("true"));
  assert_eq!(unit.path(), "A.java");
}

#[test]
fn rule_without_match_leaves_the_file() {
  let mut parser = java_parser();
  let null_to_zero = rule("null_to_zero", "((null_literal) @n)", "n", "0", None);
  let mut store = store_with(vec![null_to_zero.clone()], vec![], vec![], vec![]);
  let code = "class A { int f() { return 1; } }";
  let mut unit = SourceCodeUnit::new(&mut parser, code.to_string(), &StrMap::new(), "A.java").unwrap();
  let applied = unit.apply_rules(&mut store, &vec![null_to_zero], &mut parser, None);
  assert!(matches!(applied, Ok(false)));
  assert_eq!(unit.code(), code);
  assert_eq!(unit.substitutions.len(), 0);
}

#[test]
fn invalid_query_is_an_error() {
  let mut parser = java_parser();
  let broken = rule("broken", "((true) @t", "t", "false", None);
  let mut store = store_with(vec![broken.clone()], vec![], vec![], vec![]);
  let mut unit =
    SourceCodeUnit::new(&mut parser, "class A { boolean b = true; }".to_string(), &StrMap::new(), "A.java").unwrap();
  let applied = unit.apply_rule(broken, &mut store, &mut parser, &None);
  assert!(matches!(applied, Err(CleanupError::InvalidQuery(_))));
  assert_eq!(unit.code(), "class A { boolean b = true; }");
}

#[test]
fn parent_rule_cascades_after_the_flag_is_replaced() {
  let mut parser = java_parser();
  let mut store = store_with(
    vec![simplify_if_true()],
    vec![edge("replace_flag", &["simplify_if_true"], "Parent")],
    vec![],
    vec![replace_flag()],
  );
  let globals = store.get_global_rules();
  assert_eq!(globals.len(), 1);
  assert!(globals[0].query.contains("\"isFlagOn\""));
  assert_eq!(globals[0].grep_heuristics, Some(vec!["isFlagOn".to_string()]));
  let mut unit = SourceCodeUnit::new(
    &mut parser,
    FLAG_CODE.to_string(),
    &store.piranha_args.input_substitutions,
    "A.java",
  )
  .unwrap();
  let applied = unit.apply_rules(&mut store, &globals, &mut parser, None);
  assert!(matches!(applied, Ok(true)), "{:?} {}", applied, unit.code());
  assert_eq!(unit.code(), FLAG_CLEANED);
}

#[test]
fn scope_query_of_the_enclosing_method() {
  let mut parser = java_parser();
  let scopes = vec![ScopeGenerator {
    name: "Method".to_string(),
    rules: vec![ScopeQueryGenerator {
      matcher: "((method_declaration name: (_) @n) @xdn)".to_string(),
      generator: "((method_declaration name: (_) @z) @qdn (#eq? @z \"@n\"))".to_string(),
    }],
  }];
  let mut store = store_with(vec![], vec![], scopes, vec![]);
  let code = "class A { void foo() { int x = 1; } void bar() { } }";
  let unit = SourceCodeUnit::new(&mut parser, code.to_string(), &StrMap::new(), "A.java").unwrap();
  let at = code.find('1').unwrap();
  let point = Point { row: 0, column: at };
  let edit = TextEdit {
    start_byte: at,
    old_end_byte: at + 1,
    new_end_byte: at + 1,
    start_position: point,
    old_end_position: Point { row: 0, column: at + 1 },
    new_end_position: Point { row: 0, column: at + 1 },
  };
  let query = unit.get_scope_query("Method", &edit, &mut store);
  assert_eq!(
    query.ok(),
    Some("((method_declaration name: (_) @z) @qdn (#eq? @z \"foo\"))".to_string())
  );
  let missing = unit.get_scope_query("Class", &edit, &mut store);
  assert!(matches!(missing, Err(CleanupError::NoScope(_))));
}

#[test]
fn cleanup_of_a_code_base() {
  let files = vec![
    ("src/A.java".to_string(), FLAG_CODE.to_string()),
    ("src/B.txt".to_string(), FLAG_CODE.to_string()),
    ("src/C.java".to_string(), "class C { }".to_string()),
  ];
  let result = get_cleanups_for_code_base_new(
    args("isFlagOn", "ns", true),
    Rules { rules: vec![simplify_if_true()] },
    Edges { edges: vec![edge("replace_flag", &["simplify_if_true"], "Parent")] },
    vec![],
    Rules { rules: vec![replace_flag()] },
    Edges { edges: vec![] },
    &files,
  );
  assert!(result.is_ok(), "{:?}", result);
  assert_eq!(
    result.ok(),
    Some(vec![("src/A.java".to_string(), FLAG_CLEANED.to_string())])
  );
}

#[test]
fn perform_cleanup_rewrites_the_relevant_files() {
  let files = vec![
    ("src/A.java".to_string(), FLAG_CODE.to_string()),
    ("src/C.java".to_string(), "class C { }".to_string()),
  ];
  let mut cleaner = FlagCleaner::new(
    args("isFlagOn", "ns", true),
    Rules { rules: vec![simplify_if_true()] },
    Edges { edges: vec![edge("replace_flag", &["simplify_if_true"], "Parent")] },
    vec![],
    Rules { rules: vec![replace_flag()] },
    Edges { edges: vec![] },
  );
  assert_eq!(cleaner.path_to_codebase, "src");
  let relevant = cleaner.get_files_containing_feature_flag_api_usage(&files).ok().unwrap();
  assert_eq!(relevant, vec![("src/A.java".to_string(), FLAG_CODE.to_string())]);
  let mut parser = java_parser();
  assert!(cleaner.perform_cleanup(&files, &mut parser).is_ok());
  let updated = cleaner.get_updated_files();
  assert_eq!(updated.len(), 1);
  assert_eq!(updated[0].path, "src/A.java");
  assert_eq!(updated[0].code(), FLAG_CLEANED);
}

#[test]
fn grep_heuristics_are_sorted_and_distinct() {
  let with_three_holes = rule(
    "api_call",
    "((method_invocation name: (identifier) @n (#eq? @n \"@stale_flag_name\")) @mi)",
    "mi",
    "@treated",
    Some(vec!["stale_flag_name", "namespace", "treated"]),
  );
  let with_one_hole = rule(
    "api_field",
    "((identifier) @i (#eq? @i \"@namespace\"))",
    "i",
    "@treated",
    Some(vec!["namespace"]),
  );
  let cleaner = FlagCleaner::new(
    args("b_flag", "a_ns", true),
    Rules { rules: vec![] },
    Edges { edges: vec![] },
    vec![],
    Rules { rules: vec![with_three_holes, with_one_hole] },
    Edges { edges: vec![] },
  );
  assert_eq!(cleaner.get_grep_heuristics(), "a_ns|b_flag");
}

#[test]
fn grep_pattern_of_rules() {
  let mut r1 = rule("r1", "(x)", "x", "", None);
  r1.grep_heuristics = Some(vec!["z".to_string(), "a".to_string(), "true".to_string()]);
  let mut r2 = rule("r2", "(y)", "y", "", None);
  r2.grep_heuristics = Some(vec!["a".to_string(), "false".to_string(), "m".to_string()]);
  assert_eq!(grep_pattern(&vec![r1, r2]), "a|m|z");
  assert_eq!(grep_pattern(&vec![]), "");
  assert_eq!(join_with_bars(&vec!["x".to_string()]), "x");
  assert_eq!(join_with_bars(&vec!["x".to_string(), "y".to_string()]), "x|y");
}

#[test]
fn strings_are_ordered_by_their_bytes() {
  assert!(string_lt("a", "b"));
  assert!(string_lt("ab", "abc"));
  assert!(!string_lt("abc", "ab"));
  assert!(!string_lt("same", "same"));
  assert!(string_lt("Z", "a"));
  assert!(string_lt("a", "\u{e9}"));
}

#[test]
fn extensions_of_paths() {
  assert!(path_has_extension("src/A.java", "java"));
  assert!(path_has_extension("A.b.java", "java"));
  assert!(!path_has_extension("src/.java", "java"));
  assert!(!path_has_extension("src.java/A", "java"));
  assert!(!path_has_extension("src/A.javax", "java"));
  assert!(!path_has_extension("src/Ajava", "java"));
  assert!(!path_has_extension("src/A.b.java", "b.java"));
}

#[test]
fn constraint_outcomes() {
  let all = Pred("All".to_string());
  let none = Pred("None".to_string());
  let any = Pred("Any".to_string());
  assert!(constraint_outcome(true, &all));
  assert!(!constraint_outcome(false, &all));
  assert!(constraint_outcome(false, &none));
  assert!(!constraint_outcome(true, &none));
  assert!(!constraint_outcome(true, &any));
  assert!(!constraint_outcome(false, &any));
}

#[test]
fn configurations_that_build_a_store() {
  let good = config_ok(
    &Rules { rules: vec![simplify_if_true()] },
    &Edges { edges: vec![edge("replace_flag", &["simplify_if_true"], "Parent")] },
    &Rules { rules: vec![replace_flag()] },
    &Edges { edges: vec![] },
  );
  assert!(good);
  let unknown_target = config_ok(
    &Rules { rules: vec![simplify_if_true()] },
    &Edges { edges: vec![edge("replace_flag", &["no_such_rule"], "Parent")] },
    &Rules { rules: vec![replace_flag()] },
    &Edges { edges: vec![] },
  );
  assert!(!unknown_target);
  let without_holes = config_ok(
    &Rules { rules: vec![] },
    &Edges { edges: vec![] },
    &Rules { rules: vec![true_to_false()] },
    &Edges { edges: vec![] },
  );
  assert!(!without_holes);
}

#[test]
fn next_rules_need_their_holes() {
  let needs_hole = rule("needs_hole", "((identifier) @i (#eq? @i \"@missing\"))", "i", "x", Some(vec!["missing"]));
  let store = store_with(
    vec![true_to_false(), needs_hole],
    vec![edge("true_to_false", &["needs_hole"], "Parent")],
    vec![],
    vec![],
  );
  assert!(store.try_get_next(&true_to_false(), &StrMap::new()).is_none());
  let mut table = StrMap::new();
  table.insert("missing".to_string(), "y".to_string());
  let next = store.try_get_next(&true_to_false(), &table).unwrap();
  let parents = next.get("Parent").unwrap();
  assert_eq!(parents.len(), 1);
  assert_eq!(parents[0].query, "((identifier) @i (#eq? @i \"y\"))");
  assert_eq!(next.get("Method").map(|v| v.len()), Some(0));
  assert_eq!(next.get("Global").map(|v| v.len()), Some(0));
}

#[test]
fn edit_then_inverse_edit_restores_the_code() {
  let mut parser = java_parser();
  let code = "class A { int x = 10; }";
  let mut unit = SourceCodeUnit::new(&mut parser, code.to_string(), &StrMap::new(), "A.java").unwrap();
  let start = code.find("10").unwrap();
  let p = Point { row: 0, column: start };
  let r = Range { start_byte: start, end_byte: start + 2, start_point: p, end_point: Point { row: 0, column: start + 2 } };
  let edit = Edit::new(r, "4".to_string(), Rule::dummy(), StrMap::new());
  assert!(unit.apply_edit(&edit, &mut parser).is_some());
  assert_eq!(unit.code(), "class A { int x = 4; }");
  let back = Range { start_byte: start, end_byte: start + 1, start_point: p, end_point: Point { row: 0, column: start + 1 } };
  let undo = Edit::new(back, "10".to_string(), Rule::dummy(), StrMap::new());
  assert!(unit.apply_edit(&undo, &mut parser).is_some());
  assert_eq!(unit.code(), code);
}

#[test]
fn method_scoped_rule_applies_in_the_enclosing_method_only() {
  let mut parser = java_parser();
  let mark = rule(
    "mark",
    "((method_invocation name: (identifier) @i (#eq? @i \"marker\")) @mi)",
    "i",
    "done",
    None,
  );
  let scopes = vec![ScopeGenerator {
    name: "Method".to_string(),
    rules: vec![ScopeQueryGenerator {
      matcher: "((method_declaration name: (_) @n) @xdn)".to_string(),
      generator: "((method_declaration name: (_) @z) @qdn (#eq? @z \"@n\"))".to_string(),
    }],
  }];
  let mut store = store_with(vec![mark], vec![edge("replace_flag", &["mark"], "Method")], scopes, vec![replace_flag()]);
  let code = "class A {\n  void f() { if (x.isFlagOn()) { marker(); } }\n  void g() { marker(); }\n}\n";
  let mut unit = SourceCodeUnit::new(&mut parser, code.to_string(), &store.piranha_args.input_substitutions, "A.java").unwrap();
  let globals = store.get_global_rules();
  let applied = unit.apply_rules(&mut store, &globals, &mut parser, None);
  assert!(matches!(applied, Ok(true)), "{:?}", applied);
  assert_eq!(
    unit.code(),
    "class A {\n  void f() { if (true) { done(); } }\n  void g() { marker(); }\n}\n"
  );
}

#[test]
fn global_rules_grow_from_matches() {
  let mut parser = java_parser();
  let track = rule(
    "track_receiver",
    "((identifier) @id (#eq? @id \"@mi\"))",
    "id",
    "",
    Some(vec!["mi"]),
  );
  let mut store = store_with(vec![], vec![edge("replace_flag", &["track_receiver"], "Global")], vec![], vec![replace_flag(), track]);
  assert_eq!(store.global_rules.len(), 1);
  let mut unit = SourceCodeUnit::new(&mut parser, FLAG_CODE.to_string(), &store.piranha_args.input_substitutions, "A.java").unwrap();
  let globals = store.get_global_rules();
  let applied = unit.apply_rules(&mut store, &globals, &mut parser, None);
  assert!(matches!(applied, Ok(true)), "{:?}", applied);
  assert_eq!(store.global_rules.len(), 2);
  assert_eq!(store.global_rules[1].query, "((identifier) @id (#eq? @id \"x.isFlagOn()\"))");
  assert_eq!(store.global_rules[1].grep_heuristics, Some(vec!["x.isFlagOn()".to_string()]));
  assert_eq!(unit.code(), "class A {\n  void f() {\n    if (true) { a(); } else { b(); }\n  }\n}\n");
}
