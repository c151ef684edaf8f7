//! The definite-assignment analysis over the rule graph, and the tags of
//! regular-expression patterns.

use piranha_cs::rule_graph::ParameterizedRuleGraph;
use piranha_cs::rules::{Edge, Rule};
use piranha_cs::tag_analysis::{
  get_capture_group_usage_from_regex, get_capture_groups_from_regex, DefiniteAssignmentSigma,
  ForwardDefiniteAssignment,
};

fn rule(name: &str) -> Rule {
  Rule::new(name.to_string(), format!("(({}) @x)", name), "x".to_string(), String::new(), None, None, None, None)
}

fn edge(from: &str, to: &[&str], scope: &str) -> Edge {
  Edge {
    from: from.to_string(),
    to: to.iter().map(|s| s.to_string()).collect(),
    scope: scope.to_string(),
  }
}

fn names(rules: &[Rule]) -> Vec<String> {
  rules.iter().map(|r| r.name.clone()).collect()
}

#[test]
fn successors_in_rule_order_whatever_the_scope() {
  let rules = vec![rule("a"), rule("b"), rule("c"), rule("d")];
  let graph = ParameterizedRuleGraph::new(
    vec![edge("a", &["c", "b"], "Parent"), edge("a", &["c"], "Method"), edge("b", &["d"], "Global")],
    rules.clone(),
  );
  let analysis = ForwardDefiniteAssignment {
    graph,
    rules,
    initial_substitutions: vec!["@stale_flag_name".to_string(), "@treated".to_string()],
  };
  assert_eq!(names(&analysis.successors(&rule("a"))), vec!["b".to_string(), "c".to_string()]);
  assert_eq!(names(&analysis.successors(&rule("b"))), vec!["d".to_string()]);
  assert!(analysis.successors(&rule("d")).is_empty());
}

#[test]
fn initial_and_entry_values() {
  let analysis = ForwardDefiniteAssignment {
    graph: ParameterizedRuleGraph::new(vec![], vec![]),
    rules: vec![],
    initial_substitutions: vec!["@stale_flag_name".to_string()],
  };
  let initial = analysis.initial_value();
  assert!(initial.is_bottom());
  assert!(initial.variables().is_empty());
  let entry = analysis.entry_value();
  assert!(!entry.is_bottom());
  assert_eq!(entry.variables(), &vec!["@stale_flag_name".to_string()]);
  let joined = initial.join(&entry);
  assert!(!joined.is_bottom());
  assert_eq!(joined.variables(), &vec!["@stale_flag_name".to_string()]);
  let flowed = entry.flow(&vec!["@x".to_string()]);
  assert_eq!(flowed.variables(), &vec!["@stale_flag_name".to_string(), "@x".to_string()]);
  let met = flowed.join(&DefiniteAssignmentSigma::from_variables(vec!["@x".to_string(), "@y".to_string()]));
  assert_eq!(met.variables(), &vec!["@x".to_string()]);
}

#[test]
fn tags_that_a_regex_defines() {
  assert_eq!(
    get_capture_groups_from_regex("(?P<name>\\w+)-(\\d+)-(?P<num>\\d+)"),
    Some(vec!["@name".to_string(), "@num".to_string()])
  );
  assert_eq!(get_capture_groups_from_regex("plain"), Some(vec![]));
  assert_eq!(get_capture_groups_from_regex("(unclosed"), None);
}

#[test]
fn tags_that_a_regex_uses() {
  assert_eq!(
    get_capture_group_usage_from_regex("rgx @a and @b_c then @ alone".to_string()),
    Some(vec!["@a".to_string(), "@b_c".to_string()])
  );
  assert_eq!(get_capture_group_usage_from_regex("no tags".to_string()), Some(vec![]));
}
