//! Getters of rules and the arguments of a configuration file.

use piranha_cs::rule_store::PiranhaConfig;
use piranha_cs::rules::Rule;
use piranha_cs::tag_analysis::{get_capture_group_usage_from_matcher, get_capture_groups_from_matcher, MatcherTagsError};
use piranha_cs::tag_analysis::{get_capture_group_usage_from_tsq, get_capture_groups_from_tsq};
use piranha_cs::tag_analysis::capture_group_usage_from_matched;
use piranha_cs::str_map::StrMap;
use piranha_cs::parser::{CaptureMode, ConcreteSyntax, CsConstraint, CsElement, CsPattern};

#[test]
fn rule_getters_give_empty_lists_for_nothing() {
  let bare = Rule::new("r".to_string(), "(x)".to_string(), "x".to_string(), String::new(), None, None, None, None);
  assert!(bare.grep_heuristics().is_empty());
  assert!(bare.holes().is_empty());
  assert!(bare.groups().is_empty());
  let full = Rule::new(
    "r".to_string(),
    "(x)".to_string(),
    "x".to_string(),
    String::new(),
    Some(vec!["g".to_string()]),
    Some(vec!["h1".to_string(), "h2".to_string()]),
    None,
    Some(vec!["flag".to_string()]),
  );
  assert_eq!(full.grep_heuristics(), vec!["flag".to_string()]);
  assert_eq!(full.holes(), vec!["h1".to_string(), "h2".to_string()]);
  assert_eq!(full.groups(), vec!["g".to_string()]);
}

#[test]
fn configuration_substitutions_later_pairs_win() {
  let config = PiranhaConfig {
    language: vec!["Java".to_string()],
    substitutions: vec![
      vec!["stale_flag_name".to_string(), "f1".to_string()],
      vec!["treated".to_string(), "true".to_string()],
      vec!["stale_flag_name".to_string(), "f2".to_string(), "ignored".to_string()],
    ],
  };
  let table = config.substitutions();
  assert_eq!(table.len(), 2);
  assert_eq!(table.get("stale_flag_name").map(|s| s.as_str()), Some("f2"));
  assert_eq!(table.get("treated").map(|s| s.as_str()), Some("true"));
  assert_eq!(config.language(), "Java");
}

#[test]
fn test_resolve_reports_unresolved_captures() {
  let cs = ConcreteSyntax {
    pattern: CsPattern {
      sequence: vec![
        CsElement::Literal("foo".to_string()),
        CsElement::Capture { name: "a".to_string(), mode: CaptureMode::Single },
      ],
      constraints: vec![CsConstraint::In { capture: "b".to_string(), items: vec!["1".to_string()] }],
    },
  };
  match cs.resolve() {
    Err(m) => assert_eq!(m, "Unresolved constraints for captures: [\"b\"]"),
    Ok(_) => panic!("resolution must fail"),
  }
}

#[test]
fn test_resolve_reports_root_contains() {
  let cs = ConcreteSyntax {
    pattern: CsPattern {
      sequence: vec![CsElement::Literal("x".to_string())],
      constraints: vec![CsConstraint::Contains {
        target: "root".to_string(),
        pattern: vec![CsElement::Literal("x".to_string())],
        resolved_pattern: None,
      }],
    },
  };
  match cs.resolve() {
    Err(m) => assert_eq!(m, "'root contains' is not supported. Only 'root.node_type' constraints are allowed."),
    Ok(_) => panic!("resolution must fail"),
  }
}

#[test]
fn test_try_instantiate_reports_missing_holes() {
  let rule = Rule::new(
    "r".to_string(),
    "(x) @x".to_string(),
    "x".to_string(),
    String::new(),
    None,
    Some(vec!["h".to_string()]),
    None,
    None,
  );
  let mut table = StrMap::new();
  table.insert("k".to_string(), "v".to_string());
  match rule.try_instantiate(&table) {
    Err(m) => assert_eq!(
      m,
      "Could not instantiate a rule - Rule { name: \"r\", query: \"(x) @x\", replace_node: \"x\", replace: \"\", \
       groups: None, holes: Some([\"h\"]), constraint: None, grep_heuristics: None }. Some Holes Some([\"h\"]) \
       not found in table {\"k\": \"v\"}"
    ),
    Ok(_) => panic!("instantiation must fail"),
  }
}

#[test]
fn test_capture_groups_from_matcher_by_pattern_type() {
  let mk = |q: &str| Rule::new("r".to_string(), q.to_string(), String::new(), String::new(), None, None, None, None);
  assert_eq!(get_capture_groups_from_matcher(&mk("")).unwrap(), Vec::<String>::new());
  assert_eq!(
    get_capture_groups_from_matcher(&mk("rgx (?P<name>\\w+) = (?P<value>\\d+)")).unwrap(),
    vec!["@name".to_string(), "@value".to_string()]
  );
  assert_eq!(get_capture_groups_from_matcher(&mk("cs :[x]")).unwrap(), Vec::<String>::new());
  assert_eq!(
    get_capture_groups_from_matcher(&mk("((identifier) @id (#eq? @id \"x\"))")).unwrap(),
    vec!["@id".to_string()]
  );
  assert!(matches!(get_capture_groups_from_matcher(&mk("rgx (")), Err(MatcherTagsError::InvalidRegex)));
  assert_eq!(
    get_capture_group_usage_from_matcher(&mk("rgx @a and @b_c")).unwrap(),
    vec!["@a".to_string(), "@b_c".to_string()]
  );
}

#[test]
fn test_capture_group_usage_from_matched_strings() {
  let matched = vec!["\"@a\"".to_string(), "@b_1 @c".to_string(), "none".to_string()];
  assert_eq!(
    capture_group_usage_from_matched(&matched).unwrap(),
    vec!["@a".to_string(), "@b_1".to_string(), "@c".to_string()]
  );
}

#[test]
fn test_capture_groups_of_tree_sitter_queries() {
  let q = "(\n  (method_invocation name: (_) @name arguments: (argument_list) @args) @call\n  ; a comment with @ignored\n  (#eq? @name \"@stale_flag\")\n  (#match? @args \"(@a_b)\")\n)";
  assert_eq!(
    get_capture_groups_from_tsq(q.to_string()),
    vec!["@name".to_string(), "@args".to_string(), "@call".to_string()]
  );
  assert_eq!(
    get_capture_group_usage_from_tsq(q.to_string()).unwrap(),
    vec!["@name".to_string(), "@stale_flag".to_string(), "@args".to_string(), "@a_b".to_string()]
  );
  let rule = Rule::new("r".to_string(), q.to_string(), String::new(), String::new(), None, None, None, None);
  assert_eq!(
    get_capture_group_usage_from_matcher(&rule).unwrap(),
    vec!["@name".to_string(), "@stale_flag".to_string(), "@args".to_string(), "@a_b".to_string()]
  );
}
