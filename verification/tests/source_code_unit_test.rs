//! Edits applied to a file under rewrite, and the filters of rules.

use piranha_cs::filter::{CGPattern, Filter, FilterBuilder};
use piranha_cs::filter_check::InstantiatedRule;
use piranha_cs::matches::{Point, Range};
use piranha_cs::rule_store::{Args, PiranhaArguments, RuleStore};
use piranha_cs::rules::{Edges, Rule, Rules};
use piranha_cs::source_code_unit::{Edit, SourceCodeUnit};
use piranha_cs::str_map::StrMap;
use piranha_cs::text::eq_without_whitespace;
use piranha_cs::query_matcher::PiranhaRuleMatcher;

fn java_parser() -> tree_sitter::Parser {
  let mut parser = tree_sitter::Parser::new();
  parser
    .set_language(tree_sitter_java::language())
    .expect("Error loading Java grammar");
  parser
}

fn unit(source_code: &str, parser: &mut tree_sitter::Parser) -> SourceCodeUnit {
  SourceCodeUnit::new(parser, source_code.to_string(), &StrMap::new(), "").unwrap()
}

fn range(
  start_byte: usize, end_byte: usize, start_row: usize, start_column: usize, end_row: usize,
  end_column: usize,
) -> Range {
  Range {
    start_byte,
    end_byte,
    start_point: Point {
      row: start_row,
      column: start_column,
    },
    end_point: Point {
      row: end_row,
      column: end_column,
    },
  }
}

fn rule_store() -> RuleStore {
  let args = PiranhaArguments::new(Args {
    path_to_codebase: "some/test/path/".to_string(),
    language: "Java".to_string(),
    flag_name: String::new(),
    flag_namespace: String::new(),
    flag_value: false,
    path_to_configuration: String::new(),
  });
  RuleStore::new(
    args,
    Rules { rules: vec![] },
    Edges { edges: vec![] },
    vec![],
    Rules { rules: vec![] },
    Edges { edges: vec![] },
  )
}

fn subs(pairs: &[(&str, &str)]) -> StrMap<String> {
  let mut m = StrMap::new();
  for (k, v) in pairs {
    m.insert(k.to_string(), v.to_string());
  }
  m
}

fn rule_with_filters(query: &str, replace_node: &str, replace: &str, filters: Vec<Filter>) -> InstantiatedRule {
  InstantiatedRule::new(
    Rule::new(
      "test".to_string(),
      query.to_string(),
      replace_node.to_string(),
      replace.to_string(),
      None,
      None,
      None,
      None,
    ),
    filters,
  )
}

fn pattern(p: &str) -> CGPattern {
  CGPattern::new(p.to_string())
}

/// Positive test of an edit being applied given replacement range and replacement string.
#[test]
fn test_apply_edit_positive() {
  let source_code = "class Test {
      public void foobar(){
        boolean isFlagTreated = true;
        isFlagTreated = true;
        if (isFlagTreated) {
          // Do something;
        }
      }
    }";

  let mut parser = java_parser();
  let mut source_code_unit = unit(source_code, &mut parser);

  let _ = source_code_unit.apply_edit(
    &Edit::delete_range(source_code, range(49, 78, 3, 9, 3, 38)),
    &mut parser,
  );
  assert!(eq_without_whitespace(
    &source_code.replace("boolean isFlagTreated = true;", ""),
    &source_code_unit.code()
  ));
}

#[test]
fn source_code_unit_test_test_apply_edit_positive() {
  let source_code = "class Test {
      pub void foobar(){
        boolean isFlagTreated = true;
        isFlagTreated = true;
        if (isFlagTreated) {
        }
      }
    }";

  let mut parser = java_parser();
  let mut source_code_unit = unit(source_code, &mut parser);

  let _ = source_code_unit.apply_edit(
    &Edit::new(
      range(46, 75, 3, 9, 3, 38),
      String::new(),
      Rule::dummy(),
      StrMap::new(),
    ),
    &mut parser,
  );
  assert!(eq_without_whitespace(
    r#"class Test {
      pub void foobar(){
        
        isFlagTreated = true;
        if (isFlagTreated) {
        }
      }
    }"#,
    &source_code_unit.code()
  ));
}

fn run_test_satisfies_filters(filter: Filter, assertion: fn(bool) -> bool) -> bool {
  let rule = rule_with_filters(
    "(
            ((local_variable_declaration
                            declarator: (variable_declarator
                                            name: (_) @variable_name
                                            value: [(true)] @init)) @variable_declaration)
            )",
    "",
    "",
    vec![filter],
  );
  let source_code = "class Test {
        public void foobar(){
            boolean isFlagTreated = true;
            if (isFlagTreated) {
              x = anotherFunction(isFlagTreated);
              y = anotherFunction();
              x.equals(y);
            }
        }
        }";

  let mut rule_store = rule_store();
  let mut parser = java_parser();
  let source_code_unit = unit(source_code, &mut parser);

  let node = source_code_unit
    .root_node()
    .descendant_for_byte_range(50, 72)
    .unwrap();

  let satisfied = source_code_unit.is_satisfied(
    node,
    &rule,
    &subs(&[("variable_name", "isFlagTreated"), ("init", "true")]),
    &mut rule_store,
  );
  assert!(assertion(satisfied));
  satisfied
}

#[test]
fn test_satisfies_filters_contains_positive() {
  run_test_satisfies_filters(
    FilterBuilder::new()
      .enclosing_node(pattern("(method_declaration) @md"))
      .contains(pattern(
        "(
                    ((method_invocation
                        arguments: (argument_list (
                            (identifier) @id))) @method)
                    (#eq? @id \"@variable_name\")
                )",
      ))
      .build(),
    |result| result,
  );
}

#[test]
fn test_satisfies_filters_bounds_positive() {
  run_test_satisfies_filters(
    FilterBuilder::new()
      .enclosing_node(pattern("(method_declaration) @md"))
      .contains(pattern(
        "(
                    ((method_invocation
                        arguments: (argument_list (
                            (identifier) @id))) @method)
                )",
      ))
      .at_least(2)
      .at_most(4)
      .build(),
    |result| result,
  );
}

#[test]
fn test_satisfies_filters_at_least_negative() {
  run_test_satisfies_filters(
    FilterBuilder::new()
      .enclosing_node(pattern("(method_declaration) @md"))
      .contains(pattern(
        "(
                    ((method_invocation
                        arguments: (argument_list (
                            (identifier) @id))) @method)
                    (#eq? @id \"@variable_name\")
                )",
      ))
      .at_least(2)
      .build(),
    |result| !result,
  );
}

#[test]
fn test_satisfies_filters_at_most_negative() {
  run_test_satisfies_filters(
    FilterBuilder::new()
      .enclosing_node(pattern("(method_declaration) @md"))
      .contains(pattern(
        "(
                    ((method_invocation) @method)
                )",
      ))
      .at_most(1)
      .build(),
    |result| !result,
  );
}

#[test]
fn test_satisfies_filters_at_most_0_negative() {
  let contains_0 = run_test_satisfies_filters(
    FilterBuilder::new()
      .enclosing_node(pattern("(method_declaration) @md"))
      .contains(pattern(
        "(
                    ((method_invocation name: (_) @name) @method)
                    (#eq? @name \"equals\")
                )",
      ))
      .at_least(0)
      .at_most(0)
      .build(),
    |result| !result,
  );
  let not_contains = run_test_satisfies_filters(
    FilterBuilder::new()
      .enclosing_node(pattern("(method_declaration) @md"))
      .not_contains(vec![pattern(
        "(
                    ((method_invocation name: (_) @name) @method)
                    (#eq? @name \"equals\")
                )",
      )])
      .build(),
    |result| !result,
  );
  assert_eq!(contains_0, not_contains);
}

fn not_contains_rule() -> InstantiatedRule {
  rule_with_filters(
    "(
      ((local_variable_declaration
                      declarator: (variable_declarator
                                          name: (_) @variable_name
                                          value: [(true) (false)] @init)) @variable_declaration)
      )",
    "variable_declaration",
    "",
    vec![FilterBuilder::new()
      .enclosing_node(pattern("(method_declaration) @md"))
      .not_contains(vec![pattern(
        "(
        ((assignment_expression
                        left: (_) @a.lhs
                        right: (_) @a.rhs) @assignment)
        (#eq? @a.lhs \"@variable_name\")
        (#not-eq? @a.rhs \"@init\")
      )",
      )])
      .build()],
  )
}

/// Tests for not contains
#[test]
fn test_satisfies_filters_not_contains_positive() {
  let rule = not_contains_rule();
  let source_code = "class Test {
      public void foobar(){
        boolean isFlagTreated = true;
        isFlagTreated = true;
        if (isFlagTreated) {
        // Do something;
        }
       }
      }";

  let mut rule_store = rule_store();
  let mut parser = java_parser();
  let source_code_unit = unit(source_code, &mut parser);

  let node = source_code_unit
    .root_node()
    .descendant_for_byte_range(50, 72)
    .unwrap();

  assert!(source_code_unit.is_satisfied(
    node,
    &rule,
    &subs(&[("variable_name", "isFlagTreated"), ("init", "true")]),
    &mut rule_store,
  ));
}

#[test]
fn test_satisfies_filters_not_contains_negative() {
  let rule = not_contains_rule();
  let source_code = "class Test {
      public void foobar(){
        boolean isFlagTreated = true;
        isFlagTreated = false;
        if (isFlagTreated) {
        // Do something;
        }
       }
      }";

  let mut rule_store = rule_store();
  let mut parser = java_parser();
  let source_code_unit = unit(source_code, &mut parser);

  let node = source_code_unit
    .root_node()
    .descendant_for_byte_range(50, 72)
    .unwrap();

  assert!(!source_code_unit.is_satisfied(
    node,
    &rule,
    &subs(&[("variable_name", "isFlagTreated"), ("init", "true")]),
    &mut rule_store,
  ));
}

#[test]
fn test_satisfies_filters_child_count() {
  let query = "(
      (method_invocation 
          name: (_) @name
          arguments: (argument_list)@args) @mi 
      (#eq? @name \"someOtherFunction\")
      )";
  let rule_positive = rule_with_filters(
    query,
    "args",
    "()",
    vec![FilterBuilder::new().child_count(3).build()],
  );
  let rule_neg = rule_with_filters(
    query,
    "args",
    "()",
    vec![FilterBuilder::new().child_count(2).build()],
  );

  let source_code = "class Test {
      public void foobar(){
        boolean isFlagTreated = true;
        isFlagTreated = false;
        if (isFlagTreated) {
          someOtherFunction(1, 2, 3);
        }
       }
      }";

  let mut rule_store = rule_store();
  let mut parser = java_parser();
  let source_code_unit = unit(source_code, &mut parser);

  let node = source_code_unit
    .root_node()
    .descendant_for_byte_range(167, 175)
    .unwrap();

  assert!(source_code_unit.is_satisfied(node, &rule_positive, &StrMap::new(), &mut rule_store));

  assert!(!source_code_unit.is_satisfied(node, &rule_neg, &StrMap::new(), &mut rule_store));
}

#[test]
fn test_satisfies_filters_sibling_count() {
  let query = "(
      (method_invocation 
          name: (_) @name
          arguments: (argument_list (_)@arg)) @mi 
      (#eq? @name \"someOtherFunction\")
      (#eq? @arg \"1\")
      )";
  let rule_positive = rule_with_filters(
    query,
    "arg",
    "()",
    vec![FilterBuilder::new().sibling_count(3).build()],
  );
  let rule_neg = rule_with_filters(
    query,
    "arg",
    "()",
    vec![FilterBuilder::new().sibling_count(2).build()],
  );

  let source_code = "class Test {
      public void foobar(){
        boolean isFlagTreated = true;
        isFlagTreated = false;
        if (isFlagTreated) {
          someOtherFunction(1, 2, 3);
        }
       }
      }";

  let mut rule_store = rule_store();
  let mut parser = java_parser();
  let source_code_unit = unit(source_code, &mut parser);

  let node = source_code_unit
    .root_node()
    .descendant_for_byte_range(167, 168)
    .unwrap();

  assert!(source_code_unit.is_satisfied(node, &rule_positive, &StrMap::new(), &mut rule_store));

  assert!(!source_code_unit.is_satisfied(node, &rule_neg, &StrMap::new(), &mut rule_store));
}

// Tests for contains without providing an enclosing node
fn run_test_satisfies_filters_without_enclosing(filter: Filter, assertion: fn(bool) -> bool) {
  let rule = rule_with_filters(
    "(
            (method_declaration
              name: (identifier) @method_name) @md
            )",
    "",
    "",
    vec![filter],
  );
  let source_code = "class Test {
        public void foobar(){
            boolean isFlagTreated = true;
            if (isFlagTreated) {
              x = anotherFunction(isFlagTreated);
              y = foobar();
              y = foobar();
              x.equals(y);
            }
        }
        }";

  let mut rule_store = rule_store();
  let mut parser = java_parser();
  let source_code_unit = unit(source_code, &mut parser);

  let start = tree_sitter::Point { row: 1, column: 8 };
  let end = tree_sitter::Point { row: 9, column: 9 };
  let node = source_code_unit
    .root_node()
    .descendant_for_point_range(start, end)
    .unwrap();

  assert!(assertion(source_code_unit.is_satisfied(
    node,
    &rule,
    &subs(&[("method_name", "foobar")]),
    &mut rule_store,
  )));
}

#[test]
fn test_not_contains_no_enclosing_negative() {
  run_test_satisfies_filters_without_enclosing(
    FilterBuilder::new()
      .not_contains(vec![pattern(
        "(
                   (method_invocation
                      name: (identifier) @inv) @md
                   (#eq? @inv \"@method_name\")
                      )",
      )])
      .build(),
    |result| !result,
  );
}

// Tests for contains with enclosing
#[test]
fn test_contains_no_enclosing_positive() {
  run_test_satisfies_filters_without_enclosing(
    FilterBuilder::new()
      .contains(pattern(
        "(
                   (method_invocation
                      name: (identifier) @inv) @md
                   (#eq? @inv \"@method_name\")
                      )",
      ))
      .at_least(2)
      .build(),
    |result| result,
  );
}

#[test]
fn test_satisfies_outermost_enclosing_node() {
  let query = "(
      (method_declaration name: (_) @name) @md
      (#eq? @name \"foobar\")
      )";
  let rule_positive = rule_with_filters(
    query,
    "",
    "",
    vec![FilterBuilder::new()
      .outermost_enclosing_node(pattern("(class_declaration) @cd"))
      .contains(pattern(
        "((method_invocation name: (_) @mname) @mi (#eq? @mname \"foobar\"))",
      ))
      .build()],
  );
  let rule_negative = rule_with_filters(
    query,
    "",
    "",
    vec![FilterBuilder::new()
      .outermost_enclosing_node(pattern("(class_declaration) @cd"))
      .not_contains(vec![pattern(
        "((method_invocation name: (_) @mname) @mi (#eq? @mname \"foobar\"))",
      )])
      .build()],
  );

  let source_code = "class OuterClass {

    void someMethod() {
      Test t = new Test();
      t.foobar();
    }
    class MiddleClass {
      class Test {
        private void foobar(){
          System.out.println();
         }
        }
      }
    }";

  let mut rule_store = rule_store();
  let mut parser = java_parser();
  let source_code_unit = unit(source_code, &mut parser);

  let node = source_code_unit
    .root_node()
    .descendant_for_byte_range(119, 178)
    .unwrap();

  assert!(!source_code_unit.is_satisfied(node, &rule_negative, &StrMap::new(), &mut rule_store));

  assert!(source_code_unit.is_satisfied(node, &rule_positive, &StrMap::new(), &mut rule_store));
}

// Facts: a fact rule records facts at its matches, rewrites void or move
// them, and fact filters gate rewrites on them.

fn position_at(code: &str, offset: usize) -> Point {
  let before = &code[..offset];
  let row = before.matches('\n').count();
  let column = match before.rfind('\n') {
    Some(i) => offset - i - 1,
    None => offset,
  };
  Point { row, column }
}

fn pairs(ps: &[(&str, &str)]) -> Vec<(String, String)> {
  ps.iter().map(|(k, v)| (k.to_string(), v.to_string())).collect()
}

fn make_var_fact_rule(fact: &[(&str, &str)]) -> InstantiatedRule {
  let rule = Rule::new(
    "record_var_fact".to_string(),
    "(local_variable_declaration declarator: (variable_declarator name: (_) @name value: (_) @value)) @decl"
      .to_string(),
    "decl".to_string(),
    String::new(),
    None,
    None,
    None,
    None,
  )
  .with_fact(pairs(fact));
  InstantiatedRule::new(rule, vec![])
}

fn java_scu_and_store(source_code: &str, parser: &mut tree_sitter::Parser) -> (SourceCodeUnit, RuleStore) {
  (unit(source_code, parser), rule_store())
}

#[test]
fn test_fact_rule_records_facts() {
  let source_code = "class Test {\n  void foobar() {\n    boolean isFlagTreated = true;\n  }\n}";
  let mut parser = java_parser();
  let (mut scu, mut store) = java_scu_and_store(source_code, &mut parser);
  let rule = make_var_fact_rule(&[("var_name", "@name"), ("initial_value", "@value")]);
  scu.apply_instantiated_rule(&rule, &mut store, &mut parser, &None).unwrap();

  assert_eq!(scu.facts.len(), 1);
  let fact = &scu.facts[0];
  assert_eq!(fact.data.get("var_name").unwrap(), "isFlagTreated");
  assert_eq!(fact.data.get("initial_value").unwrap(), "true");
  assert!(!fact.voided);
  assert!(fact.range.start_byte < fact.range.end_byte);
  assert!(fact.range.end_byte <= source_code.len());
  let fact_text = &source_code[fact.range.start_byte..fact.range.end_byte];
  assert!(fact_text.contains("isFlagTreated"));
  assert!(fact_text.contains("true"));
}

#[test]
fn test_fact_rule_records_multiple_facts_in_source_order() {
  let source_code =
    "class Test {\n  void foobar() {\n    boolean a = true;\n    boolean b = false;\n  }\n}";
  let mut parser = java_parser();
  let (mut scu, mut store) = java_scu_and_store(source_code, &mut parser);
  let rule = make_var_fact_rule(&[("var_name", "@name"), ("val", "@value")]);
  scu.apply_instantiated_rule(&rule, &mut store, &mut parser, &None).unwrap();

  assert_eq!(scu.facts.len(), 2);
  let fact_a = scu.facts.iter().find(|f| f.data.get("var_name").map(|s| s.as_str()) == Some("a")).expect("fact for 'a' not found");
  let fact_b = scu.facts.iter().find(|f| f.data.get("var_name").map(|s| s.as_str()) == Some("b")).expect("fact for 'b' not found");
  assert_eq!(fact_a.data.get("val").unwrap(), "true");
  assert_eq!(fact_b.data.get("val").unwrap(), "false");
  assert!(fact_a.range.start_byte < fact_b.range.start_byte);
  assert!(!fact_a.voided);
  assert!(!fact_b.voided);
}

#[test]
fn test_fact_voided_by_overlapping_rewrite() {
  let source_code = "class Test {\n  void foobar() {\n    boolean isFlagTreated = true;\n  }\n}";
  let mut parser = java_parser();
  let (mut scu, mut store) = java_scu_and_store(source_code, &mut parser);
  let rule = make_var_fact_rule(&[("k", "@name")]);
  scu.apply_instantiated_rule(&rule, &mut store, &mut parser, &None).unwrap();
  assert_eq!(scu.facts.len(), 1);
  assert!(!scu.facts[0].voided);

  let fact_range = scu.facts[0].range;
  let edit = Edit::delete_range(&scu.code(), fact_range);
  scu.apply_edit(&edit, &mut parser);

  assert!(scu.facts[0].voided);
}

#[test]
fn test_fact_shifted_by_preceding_rewrite() {
  let source_code =
    "class Test {\n  void foobar() {\n    boolean a = true;\n    boolean b = false;\n  }\n}";
  let mut parser = java_parser();
  let (mut scu, mut store) = java_scu_and_store(source_code, &mut parser);
  let rule = make_var_fact_rule(&[("k", "@name")]);
  scu.apply_instantiated_rule(&rule, &mut store, &mut parser, &None).unwrap();
  assert_eq!(scu.facts.len(), 2);

  let (early_idx, late_idx) = if scu.facts[0].range.start_byte < scu.facts[1].range.start_byte {
    (0, 1)
  } else {
    (1, 0)
  };
  let early_range = scu.facts[early_idx].range;
  let original_late_start = scu.facts[late_idx].range.start_byte;
  let original_late_end = scu.facts[late_idx].range.end_byte;
  let deleted_bytes = early_range.end_byte - early_range.start_byte;

  let edit = Edit::delete_range(&scu.code(), early_range);
  scu.apply_edit(&edit, &mut parser);

  assert!(scu.facts[early_idx].voided);
  assert!(!scu.facts[late_idx].voided);
  assert_eq!(scu.facts[late_idx].range.start_byte, original_late_start - deleted_bytes);
  assert_eq!(scu.facts[late_idx].range.end_byte, original_late_end - deleted_bytes);
}

fn make_rewrite_rule_with_fact_filter() -> InstantiatedRule {
  let filter = FilterBuilder::new().fact_filter(pairs(&[("stale", "true")])).build();
  let rule = Rule::new(
    "delete_if_stale_fact".to_string(),
    "(local_variable_declaration declarator: (variable_declarator value: (false))) @decl".to_string(),
    "decl".to_string(),
    String::new(),
    None,
    None,
    None,
    None,
  );
  InstantiatedRule::new(rule, vec![filter])
}

fn dummy_range() -> Range {
  range(0, 0, 0, 0, 0, 0)
}

#[test]
fn test_fact_filter_blocks_rewrite_when_no_matching_fact() {
  let source_code = "class Test {\n  void run() {\n    boolean x = false;\n  }\n}";
  let mut parser = java_parser();
  let (mut scu, mut store) = java_scu_and_store(source_code, &mut parser);
  let rule = make_rewrite_rule_with_fact_filter();
  scu.apply_instantiated_rule(&rule, &mut store, &mut parser, &None).unwrap();
  assert!(scu.rewrites().is_empty(), "rewrite must be blocked when no matching fact exists");
  assert_eq!(scu.code(), source_code, "source code must be unchanged");
}

#[test]
fn test_fact_filter_allows_rewrite_when_matching_fact_exists() {
  let source_code = "class Test {\n  void run() {\n    boolean x = false;\n  }\n}";
  let mut parser = java_parser();
  let (mut scu, mut store) = java_scu_and_store(source_code, &mut parser);
  scu.facts.push(piranha_cs::fact::Fact::new(dummy_range(), subs(&[("stale", "true")])));
  let rule = make_rewrite_rule_with_fact_filter();
  scu.apply_instantiated_rule(&rule, &mut store, &mut parser, &None).unwrap();
  assert!(!scu.rewrites().is_empty(), "rewrite must fire when matching fact exists");
  assert!(!scu.code().contains("boolean x = false"), "deleted declaration must be gone");
}

#[test]
fn test_fact_filter_ignores_voided_facts() {
  let source_code = "class Test {\n  void run() {\n    boolean x = false;\n  }\n}";
  let mut parser = java_parser();
  let (mut scu, mut store) = java_scu_and_store(source_code, &mut parser);
  let mut voided_fact = piranha_cs::fact::Fact::new(dummy_range(), subs(&[("stale", "true")]));
  voided_fact.voided = true;
  scu.facts.push(voided_fact);
  let rule = make_rewrite_rule_with_fact_filter();
  scu.apply_instantiated_rule(&rule, &mut store, &mut parser, &None).unwrap();
  assert!(scu.rewrites().is_empty(), "rewrite must be blocked when the only matching fact is voided");
}

#[test]
fn test_fact_filter_blocked_after_fact_voided_by_real_rewrite() {
  let source_code = "class T {\n  void run() {\n    boolean x = true;\n    boolean y = false;\n  }\n}";
  let mut parser = java_parser();
  let (mut scu, mut store) = java_scu_and_store(source_code, &mut parser);
  let fact_rule = InstantiatedRule::new(
    Rule::new(
      "record_true_vars".to_string(),
      "(local_variable_declaration declarator: (variable_declarator name: (_) @name value: (true))) @decl".to_string(),
      "decl".to_string(),
      String::new(),
      None,
      None,
      None,
      None,
    )
    .with_fact(pairs(&[("stale", "true")])),
    vec![],
  );
  scu.apply_instantiated_rule(&fact_rule, &mut store, &mut parser, &None).unwrap();
  assert_eq!(scu.facts.len(), 1);
  assert_eq!(scu.facts[0].data.get("stale").unwrap(), "true");
  assert!(!scu.facts[0].voided);

  let fact_range = scu.facts[0].range;
  let edit = Edit::delete_range(&scu.code(), fact_range);
  scu.apply_edit(&edit, &mut parser);
  assert!(scu.facts[0].voided, "fact must be voided after overlapping rewrite");
  let rewrites_before = scu.rewrites().len();

  let rewrite_rule = make_rewrite_rule_with_fact_filter();
  scu.apply_instantiated_rule(&rewrite_rule, &mut store, &mut parser, &None).unwrap();
  assert!(scu.code().contains("boolean y = false"), "y = false must survive because the only stale fact was voided");
  assert_eq!(scu.rewrites().len(), rewrites_before, "no rewrite must fire when all matching facts are voided");
}

#[test]
fn test_two_facts_recorded_on_same_range() {
  let source_code = "class T {\n  void run() {\n    boolean x = true;\n  }\n}";
  let mut parser = java_parser();
  let (mut scu, mut store) = java_scu_and_store(source_code, &mut parser);
  let rule_a = make_var_fact_rule(&[("category", "bool")]);
  let rule_b = make_var_fact_rule(&[("var_name", "@name")]);
  scu.apply_instantiated_rule(&rule_a, &mut store, &mut parser, &None).unwrap();
  scu.apply_instantiated_rule(&rule_b, &mut store, &mut parser, &None).unwrap();

  assert_eq!(scu.facts.len(), 2, "expected two independent facts on the same node");
  assert_eq!(scu.facts[0].range.start_byte, scu.facts[1].range.start_byte);
  assert_eq!(scu.facts[0].range.end_byte, scu.facts[1].range.end_byte);
  let has_category = scu.facts.iter().any(|f| f.data.get("category").map(|s| s.as_str()) == Some("bool"));
  let has_var_name = scu.facts.iter().any(|f| f.data.get("var_name").map(|s| s.as_str()) == Some("x"));
  assert!(has_category, "fact with category=bool not found");
  assert!(has_var_name, "fact with var_name=x not found");
  assert!(!scu.facts[0].voided);
  assert!(!scu.facts[1].voided);

  let fact_range = scu.facts[0].range;
  let edit = Edit::delete_range(&scu.code(), fact_range);
  scu.apply_edit(&edit, &mut parser);
  assert!(scu.facts[0].voided, "fact[0] must be voided after rewrite overlaps its range");
  assert!(scu.facts[1].voided, "fact[1] must be voided after rewrite overlaps its range");
}

#[test]
fn test_fact_shift_updates_row_col_points() {
  let source_code = "class T {\n  void run() {\n    boolean a = true;\n    boolean b = false;\n  }\n}";
  let mut parser = java_parser();
  let (mut scu, mut store) = java_scu_and_store(source_code, &mut parser);
  let rule = make_var_fact_rule(&[("k", "@name")]);
  scu.apply_instantiated_rule(&rule, &mut store, &mut parser, &None).unwrap();
  assert_eq!(scu.facts.len(), 2);

  let (early_idx, late_idx) = if scu.facts[0].range.start_byte < scu.facts[1].range.start_byte {
    (0, 1)
  } else {
    (1, 0)
  };
  let orig_start_row = scu.facts[late_idx].range.start_point.row;
  let orig_start_col = scu.facts[late_idx].range.start_point.column;
  let orig_end_row = scu.facts[late_idx].range.end_point.row;
  let orig_end_col = scu.facts[late_idx].range.end_point.column;
  let early_range = scu.facts[early_idx].range;
  let deleted_rows = early_range.end_point.row as isize - early_range.start_point.row as isize;

  let edit = Edit::delete_range(&scu.code(), early_range);
  scu.apply_edit(&edit, &mut parser);

  let late = &scu.facts[late_idx];
  assert!(!late.voided);
  assert_eq!(late.range.start_point.row as isize, orig_start_row as isize - deleted_rows, "start row must shift by deleted rows");
  assert_eq!(late.range.end_point.row as isize, orig_end_row as isize - deleted_rows, "end row must shift by deleted rows");
  assert_eq!(late.range.start_point.column, orig_start_col, "start column must be unchanged");
  assert_eq!(late.range.end_point.column, orig_end_col, "end column must be unchanged");
}

#[test]
fn test_get_edit_new_end_position_in_new_text() {
  let mut parser = java_parser();
  let scu = unit("abcd", &mut parser);
  let rr = range(1, 2, 0, 1, 0, 2);
  let (s, e) = scu.get_edit(rr, "X\nY");
  assert_eq!(s, "aX\nYcd");
  assert_eq!(e.new_end_byte, 4);
  assert_eq!(e.new_end_position, Point { row: 1, column: 1 });
  assert_eq!(e.old_end_position, Point { row: 0, column: 2 });
}

#[test]
fn test_apply_edit_shifts_later_fact_by_new_rows() {
  let source_code = "class A {\n  int a = 1;\n  int b = 2;\n}";
  let mut parser = java_parser();
  let mut scu = unit(source_code, &mut parser);
  let b0 = source_code.find("int b = 2;").unwrap();
  scu.facts.push(piranha_cs::fact::Fact::new(
    Range {
      start_byte: b0,
      end_byte: b0 + "int b = 2;".len(),
      start_point: position_at(source_code, b0),
      end_point: position_at(source_code, b0 + "int b = 2;".len()),
    },
    subs(&[("k", "b")]),
  ));
  let start = source_code.find("int a = 1;").unwrap();
  let r = Range {
    start_byte: start,
    end_byte: start + "int a = 1;".len(),
    start_point: position_at(source_code, start),
    end_point: position_at(source_code, start + "int a = 1;".len()),
  };
  let edit = Edit::new(r, "int a = 1;\n  int c = 3;".to_string(), Rule::dummy(), StrMap::new());
  scu.apply_edit(&edit, &mut parser);
  let new_code = scu.code();
  let b_start = new_code.find("int b = 2;").unwrap();
  assert!(!scu.facts[0].voided);
  assert_eq!(scu.facts[0].range.start_byte, b_start);
  assert_eq!(scu.facts[0].range.start_point, position_at(&new_code, b_start));
}

#[test]
fn test_filter_try_build_reports_invalid_arguments() {
  let bad = FilterBuilder::new()
    .contains(pattern("(method_invocation) @m"))
    .not_contains(vec![pattern("(identifier) @i")])
    .try_build();
  assert!(bad.is_err());
  let good = FilterBuilder::new().contains(pattern("(method_invocation) @m")).try_build();
  assert!(good.is_ok());
}

#[test]
fn test_query_with_text_predicate_on_short_code() {
  let code = "class A { void f() { int x = 1; } }".to_string();
  let mut parser = java_parser();
  let tree = parser.parse(code.as_str(), None).unwrap();
  let q = tree_sitter::Query::new(tree_sitter_java::language(), "((identifier) @i (#eq? @i \"x\"))").unwrap();
  let all = tree.root_node().get_all_matches_for_query(&code, &q, true, None);
  assert_eq!(all.len(), 1);
  assert_eq!(all[0].1.get("i").map(|s| s.as_str()), Some("x"));
  let none = tree.root_node().get_all_matches_for_query(&String::new(), &q, true, None);
  assert!(none.is_empty());
}

#[test]
fn test_get_query_compiles_and_caches_valid_queries_only() {
  let mut store = rule_store();
  assert!(store.get_query(&"(zzz".to_string()).is_none());
  assert!(store.get_query(&"(method_invocation) @m".to_string()).is_some());
  assert!(store.rule_query_cache.contains_key("(method_invocation) @m"));
  assert!(!store.rule_query_cache.contains_key("(zzz"));
  assert!(store.get_query(&"(method_invocation) @m".to_string()).is_some());
}

#[test]
fn test_fact_only_filters_decide_by_facts() {
  let source_code = "class Test {\n  void run() {\n    boolean x = false;\n  }\n}";
  let mut parser = java_parser();
  let (mut scu, mut store) = java_scu_and_store(source_code, &mut parser);
  let rule = make_rewrite_rule_with_fact_filter();
  let node = scu.root_node();
  assert!(!scu.is_satisfied(node, &rule, &StrMap::new(), &mut store));
  scu.facts.push(piranha_cs::fact::Fact::new(dummy_range(), subs(&[("stale", "true"), ("other", "x")])));
  let node = scu.root_node();
  assert!(scu.is_satisfied(node, &rule, &StrMap::new(), &mut store));
}
