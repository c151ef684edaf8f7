//! Matching concrete-syntax patterns against trees parsed by tree-sitter.

use piranha_cs::interpreter::get_all_matches_for_concrete_syntax;
use piranha_cs::parser::ConcreteSyntax;
use piranha_cs::resolver::resolve_concrete_syntax;
use piranha_cs::tree_sitter_adapter::TreeSitterAdapter;

const JAVA: &str = "java";
const KOTLIN: &str = "kotlin";
const GO: &str = "go";

fn parser_for(language: &str) -> tree_sitter::Parser {
  let mut parser = tree_sitter::Parser::new();
  match language {
    JAVA => parser
      .set_language(tree_sitter_java::language())
      .expect("Error loading Java grammar"),
    KOTLIN => parser
      .set_language(tree_sitter_kotlin::language())
      .expect("Error loading Kotlin grammar"),
    GO => parser
      .set_language(tree_sitter_go::language())
      .expect("Error loading Go grammar"),
    _ => panic!("Unsupported language: {language}"),
  }
  parser
}

/// Runs a pattern over the source code and checks the number of matches and,
/// for the first matches, the trimmed text of the named captures.
fn run_test(
  source_code: &str, pattern: &str, expected_count: usize,
  expected_captures: Vec<Vec<(&str, &str)>>, language: &str,
) {
  let concrete_syntax = ConcreteSyntax::parse(pattern)
    .unwrap_or_else(|e| panic!("Failed to parse pattern '{pattern}': {e}"));
  let resolved = resolve_concrete_syntax(&concrete_syntax);
  let mut parser = parser_for(language);
  let tree = parser
    .parse(source_code, None)
    .unwrap_or_else(|| panic!("Failed to parse source code"));
  let wrapped_node = TreeSitterAdapter::wrap_node(tree.root_node());
  let matches = get_all_matches_for_concrete_syntax(
    &wrapped_node,
    source_code.as_bytes(),
    &resolved,
    true,
    None,
  );
  assert_eq!(
    matches.len(),
    expected_count,
    "Expected {} matches for pattern '{}' in '{}', but got {}.\nActual matches: {:#?}",
    expected_count,
    pattern,
    source_code.replace('\n', "\\n"),
    matches.len(),
    matches
  );
  if expected_count > 0 && !expected_captures.is_empty() {
    for (i, (actual_match, expected_capture_set)) in
      matches.iter().zip(expected_captures.iter()).enumerate()
    {
      for (capture_name, expected_value) in expected_capture_set.iter() {
        let actual_value = actual_match.get_match(capture_name).unwrap_or_else(|| {
          panic!(
            "Match {} missing expected capture '{}'. Available captures: {:?}",
            i,
            capture_name,
            actual_match.match_names()
          )
        });
        let actual_text = actual_value.text.trim();
        assert_eq!(
          actual_text, *expected_value,
          "Match {i} capture '{capture_name}': expected '{expected_value}', got '{actual_text}'"
        );
      }
    }
  }
}

/// Runs a pattern over the source code (resolving it with `resolve`) and
/// checks the number of matches and the exact text of the named captures.
fn run_test_untrimmed(
  code: &str, pattern: &str, expected_matches: usize, expected_vars: Vec<Vec<(&str, &str)>>,
  language: &str,
) {
  let mut parser = parser_for(language);
  let tree = parser.parse(code.as_bytes(), None).unwrap();
  let meta = ConcreteSyntax::parse(pattern).unwrap();
  let resolved_meta = meta.resolve().unwrap();
  let matches = get_all_matches_for_concrete_syntax(
    &TreeSitterAdapter::wrap_node(tree.root_node()),
    code.as_bytes(),
    &resolved_meta,
    true,
    None,
  );
  assert_eq!(matches.len(), expected_matches);
  for (i, vars) in expected_vars.iter().enumerate() {
    let match_item = &matches[i];
    for &(var, expected_val) in vars {
      let val = match_item.get_match_text(var).unwrap();
      assert_eq!(val, expected_val);
    }
  }
}

#[test]
fn test_single_match_kotlin() {
  run_test(
    "class Something : BaseParameters(namespace = \"data\") {
              val something_else: Boolean by parameter(\"something_else\")
          }",
    "val :[stale_property_name] : Boolean by parameter(\"something_else\")",
    1,
    vec![vec![("stale_property_name", "something_else")]],
    KOTLIN,
  );
}

#[test]
fn test_single_match() {
  run_test(
    "class Example { public int a = 10; }",
    "public int :[name] = :[value];",
    1,
    vec![vec![("name", "a"), ("value", "10")]],
    JAVA,
  );
}

#[test]
fn test_optional_match_single() {
  run_test(
    "package something; func (r *receiver) someName() { }",
    "func :[receiver?] someName() { }",
    1,
    vec![vec![("receiver", "(r *receiver)")]],
    GO,
  );
}

#[test]
fn test_optional_match_zero() {
  run_test(
    "package something; func someName() { }",
    "func :[receiver?] someName() { }",
    1,
    vec![vec![("receiver", "")]],
    GO,
  );
}

#[test]
fn test_optional_no_match() {
  run_test(
    "package something; func (r *receiver) someName() { }",
    "func :[receiver_and_name?]() { }",
    0,
    vec![],
    GO,
  );
}

#[test]
fn test_multiple_match() {
  run_test(
    "class Example { public int a = 10; public int b = 20; }",
    "public int :[name] = :[value];",
    2,
    vec![
      vec![("name", "a"), ("value", "10")],
      vec![("name", "b"), ("value", "20")],
    ],
    JAVA,
  );
}

#[test]
fn test_no_match() {
  run_test(
    "class Example { public int a = 10; }",
    "public String :[name] = :[value];",
    0,
    vec![],
    JAVA,
  );
}

#[test]
fn test_trailing_comma() {
  run_test(
    "a.foo(x, // something about the first argument
           y, // something about the second argument
           );",
    ":[var].foo(:[arg1], :[arg2+])",
    2,
    vec![vec![("var", "a"), ("arg1", "x"), ("arg2", "y,")]],
    GO,
  );
}

#[test]
fn test_sequential_siblings_matching() {
  run_test(
    "a.foo(x, y, z);",
    ":[var].foo(:[arg1+], z)",
    2,
    vec![vec![("var", "a"), ("arg1", "x, y")]],
    GO,
  );
}

#[test]
fn test_sequential_siblings_stmts() {
  // Find all usages of foo, whose last element is z.
  run_test(
    "{ int x = 2; x = x + 1; while(x > 0) { x = x - 1} } ",
    "int :[stmt1] = 2; \
            :[stmt2] = :[stmt2] + 1;",
    1,
    vec![vec![("stmt1", "x"), ("stmt2", "x")]],
    JAVA,
  );
}

#[test]
fn test_sequential_siblings_stmts2() {
  // Find all usages of foo, whose last element is z.
  run_test(
    "x.foo(1,2,3,4);",
    ":[var].foo(:[args+]);",
    2,
    vec![vec![("var", "x"), ("args", "1,2,3,4")]],
    JAVA,
  );
}

#[test]
fn test_complex_template() {
  // Test matching the given code against the template
  run_test(
    "void main() {
    // Some comment
    int some = 0;
    while(some < 100) {
        float length = 3.14;
        float area = length * length;
        some++;
    }}",
    "int :[var] = 0;
    while(:[var] < 100) {
      :[body+]
      :[var] ++;
    }",
    1,
    vec![vec![
      ("var", "some"),
      (
        "body",
        "float length = 3.14;\n        float area = length * length;",
      ),
    ]],
    JAVA,
  );
}

#[test]
fn test_match_anything() {
  // Test matching the given code against the template
  run_test(
    "public static void main(String args) {  }",
    ":[x]",
    1,
    vec![vec![("x", "public static void main(String args) {  }")]],
    JAVA,
  );
}

#[test]
fn test_asterisk_zero_or_more() {
  // Test asterisk (zero or more) matching
  run_test(
    "class Example { }",
    "class :[name] { :[body*] }",
    2,
    vec![vec![("name", "Example"), ("body", "")]],
    JAVA,
  );
}

#[test]
fn test_asterisk_one_or_more() {
  // Test asterisk (zero or more) matching with actual content
  run_test(
    "import java.util.ArrayList; class Example { int x = 1; int y = 2; }",
    "class :[name] { :[body*] }",
    1,
    vec![vec![("name", "Example"), ("body", "int x = 1; int y = 2;")]],
    JAVA,
  );
}

#[test]
fn test_simple_where_clause() {
  run_test(
    r#"foo(ab); foo("cd"); foo(1,2,3);"#,
    r#"foo(:[args]) |> :[args] in ["ab", "\"cd\""]"#,
    2, // now two matches
    vec![
      vec![("args", "ab")],
      vec![("args", "\"cd\"")], // note the quotes are included
    ],
    JAVA,
  );
}

#[test]
fn test_mutliple_where_clause() {
  run_test(
    r#"foo(c, d); foo(1,4);"#,
    r#"foo(:[arg1], :[arg2]) |> :[arg1] in ["1"], :[arg2] in ["4"]"#,
    1, // now two matches
    vec![vec![("arg1", "1"), ("arg2", "4")]],
    JAVA,
  );
}

#[test]
fn test_regex_constraint() {
  run_test(
    r#"
    public String getName() { return name; }
    public void setName(String n) { name = n; }
    public int getAge() { return age; }
    public void process() { return; }
    "#,
    r#"public :[returnType] :[methodName]() |> :[methodName] matches /^get.+/"#,
    2, // only getName and getAge should match
    vec![
      vec![("returnType", "String"), ("methodName", "getName")],
      vec![("returnType", "int"), ("methodName", "getAge")],
    ],
    JAVA,
  );
}

#[test]
fn test_mixed_constraints() {
  run_test(
    r#"getValue("test"); getValue("other"); setValue("test"); getName("test");"#,
    r#":[method](:[arg]) |> :[method] matches /^get.*/, :[arg] in ["\"test\""]"#,
    2, // getValue("test") and getName("test")
    vec![
      vec![("method", "getValue"), ("arg", "\"test\"")],
      vec![("method", "getName"), ("arg", "\"test\"")],
    ],
    JAVA,
  );
}

#[test]
fn interpreter_test_test_single_match_kotlin() {
  run_test_untrimmed(
    "class Something : BaseParameters(namespace = \"data\") {
              val something_else: Boolean by parameter(\"something_else\")
          }",
    "val :[stale_property_name] : Boolean by parameter(\"something_else\")",
    1,
    vec![vec![("stale_property_name", "something_else")]],
    KOTLIN,
  );
}

#[test]
fn interpreter_test_test_single_match() {
  run_test_untrimmed(
    "class Example { public int a = 10; }",
    "public int :[name] = :[value];",
    1,
    vec![vec![("name", "a"), ("value", "10")]],
    JAVA,
  );
}

#[test]
fn interpreter_test_test_multiple_match() {
  run_test_untrimmed(
    "class Example { public int a = 10; public int b = 20; }",
    "public int :[name] = :[value];",
    2,
    vec![
      vec![("name", "a"), ("value", "10")],
      vec![("name", "b"), ("value", "20")],
    ],
    JAVA,
  );
}

#[test]
fn interpreter_test_test_no_match() {
  run_test_untrimmed(
    "class Example { public int a = 10; }",
    "public String :[name] = :[value];",
    0,
    vec![],
    JAVA,
  );
}

#[test]
fn interpreter_test_test_trailing_comma() {
  run_test_untrimmed(
    "a.foo(x, // something about the first argument
           y, // something about the second argument
           );",
    ":[var].foo(:[arg1], :[arg2+])",
    2,
    vec![vec![("var", "a"), ("arg1", "x"), ("arg2", "y,")]],
    GO,
  );
}

#[test]
fn interpreter_test_test_sequential_siblings_matching() {
  run_test_untrimmed(
    "a.foo(x, y, z);",
    ":[var].foo(:[arg1+], z)",
    2,
    vec![vec![("var", "a"), ("arg1", "x, y")]],
    GO,
  );
}

#[test]
fn interpreter_test_test_sequential_siblings_stmts() {
  // Find all usages of foo, whose last element is z.
  run_test_untrimmed(
    "{ int x = 2; x = x + 1; while(x > 0) { x = x - 1} } ",
    "int :[stmt1] = 2; \
            :[stmt2] = :[stmt2] + 1;",
    1,
    vec![vec![("stmt1", "x"), ("stmt2", "x")]],
    JAVA,
  );
}

#[test]
fn interpreter_test_test_sequential_siblings_stmts2() {
  // Find all usages of foo, whose last element is z.
  run_test_untrimmed(
    "x.foo(1,2,3,4);",
    ":[var].foo(:[args+]);",
    2,
    vec![vec![("var", "x"), ("args", "1,2,3,4")]],
    JAVA,
  );
}

#[test]
fn interpreter_test_test_complex_template() {
  // Test matching the given code against the template
  run_test_untrimmed(
    "void main() {
    // Some comment
    int some = 0;
    while(some < 100) {
        float length = 3.14;
        float area = length * length;
        some++;
    }}",
    "int :[var] = 0;
    while(:[var] < 100) {
      :[body+]
      :[var] ++;
    }",
    1,
    vec![vec![
      ("var", "some"),
      (
        "body",
        "float length = 3.14;\n        float area = length * length;",
      ),
    ]],
    JAVA,
  );
}

#[test]
fn interpreter_test_test_match_anything() {
  // Test matching the given code against the template
  run_test_untrimmed(
    "public static void main(String args) {  }",
    ":[x]",
    1,
    vec![vec![("x", "public static void main(String args) {  }")]],
    JAVA,
  );
}

#[test]
fn interpreter_test_test_asterisk_zero_or_more() {
  // Test asterisk (zero or more) matching
  run_test_untrimmed(
    "class Example { }",
    "class :[name] { :[body*] }",
    2,
    vec![vec![("name", "Example"), ("body", "")]],
    JAVA,
  );
}

#[test]
fn interpreter_test_test_asterisk_one_or_more() {
  // Test asterisk (zero or more) matching with actual content
  run_test_untrimmed(
    "import java.util.ArrayList; class Example { int x = 1; int y = 2; }",
    "class :[name] { :[body*] }",
    1,
    vec![vec![("name", "Example"), ("body", "int x = 1; int y = 2;")]],
    JAVA,
  );
}

#[test]
fn interpreter_test_test_simple_where_clause() {
  run_test_untrimmed(
    r#"foo(ab); foo("cd"); foo(1,2,3);"#,
    r#"foo(:[args]) |> :[args] in ["ab", "\"cd\""]"#,
    2, // now two matches
    vec![
      vec![("args", "ab")],
      vec![("args", "\"cd\"")], // note the quotes are included
    ],
    JAVA,
  );
}

#[test]
fn interpreter_test_test_mutliple_where_clause() {
  run_test_untrimmed(
    r#"foo(c, d); foo(1,4);"#,
    r#"foo(:[arg1], :[arg2]) |> :[arg1] in ["1"], :[arg2] in ["4"]"#,
    1, // now two matches
    vec![vec![("arg1", "1"), ("arg2", "4")]],
    JAVA,
  );
}
