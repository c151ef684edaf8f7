# piranha_cs

A verified library for rewriting source code with rules over syntax trees,
such as cleaning up stale feature flags, with a small command-line program
around it.

- `src/` is the library, verified with Verus:
  - `parser`, `resolver`, `interpreter`, `constraint_checker`, `tree`,
    `tree_sitter_adapter`, `matches`: concrete-syntax patterns (`:[hole]`
    with literal code and `|>` constraints), parsed, resolved and matched
    against syntax trees.
  - `rules`, `rule_graph`, `rule_store`, `str_map`: rules, their
    instantiation with substitutions, the graph that says which rules follow
    which, and the store of rules, global rules and compiled queries.
  - `query_matcher`, `filter`, `filter_check`, `fact`, `source_code_unit`:
    tree-sitter query matches, filters on matches (fact filters among them),
    facts recorded about code ranges by fact rules, and the edits applied to
    a file.
  - `cleanup`, `heuristics`: the rewrite engine and the cleaner that runs
    global rules over a code base; the grep pattern of the global rules.
  - `tag_analysis`, `tsq_scan`, `text`: the definite-assignment analysis of
    capture groups over the rule graph, the capture groups that queries
    define and use, and string helpers.
- `tests/` holds the tests.
- `app/` is the command-line program: it reads the arguments, the
  configuration (`rules.toml` and `edges.toml` in the configuration folder,
  and the language's rules under `cleanup_rules/java/` there) and the files
  of the code base, runs the cleanup and writes the rewritten files.
