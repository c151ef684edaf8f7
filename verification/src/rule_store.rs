//! Piranha's arguments and state: the rule graph, the rules by name, the
//! global rules found so far and the compiled queries.

use vstd::prelude::*;
use crate::rule_graph::{ParameterizedRuleGraph, edges_resolve, graph_of};
use crate::rules::{
    Edge, Edges, Rule, RuleV, Rules, ScopeGenerator, edges_view, entries_view, groups_of,
    hole_values, names_map, rule_map_view, rules_view, spec_feature_flag_api_group, spec_try_instantiate,
    substitute_pairs, substitute_text,
};
use crate::str_map::StrMap;
use crate::text::copy_string;

verus! {

#[verifier::external_type_specification]
#[verifier::external_body]
pub struct ExTsLanguage(tree_sitter::Language);

#[verifier::external_type_specification]
#[verifier::external_body]
pub struct ExTsQuery(tree_sitter::Query);

/// `tree_sitter_java::language`: the tree-sitter grammar of Java.
#[verifier::external_body]
fn java_language() -> (l: tree_sitter::Language) {
    tree_sitter_java::language()
}

/// `tree_sitter::Query::new`: the query compiled for the language, or
/// nothing when it does not compile. Nothing is claimed of which queries
/// compile. The text must end in a newline: on an unknown name that runs to
/// the end of the text, `Query::new` would slice past its end while
/// building the error message.
#[verifier::external_body]
fn ts_query_new(language: tree_sitter::Language, source: &str) -> (q: Option<tree_sitter::Query>)
    requires
        source@.len() > 0,
        source@.last() == '\n',
{
    match tree_sitter::Query::new(language, source) {
        Ok(q) => Some(q),
        Err(_) => None,
    }
}

/// Whether the text compiles as a tree-sitter query of the Java grammar.
pub uninterp spec fn java_query_compiles(source: Seq<char>) -> bool;

/// `tree_sitter::Query::new` over the grammar `tree_sitter_java::language`:
/// the compiled query, or nothing when the text does not compile for Java.
/// Whether it compiles depends on the text alone. The text must end in a
/// newline, as for `ts_query_new`.
#[verifier::external_body]
fn ts_java_query_new(source: &str) -> (q: Option<tree_sitter::Query>)
    requires
        source@.len() > 0,
        source@.last() == '\n',
    ensures
        (q is Some) == java_query_compiles(source@),
{
    match tree_sitter::Query::new(tree_sitter_java::language(), source) {
        Ok(q) => Some(q),
        Err(_) => None,
    }
}

/// Helpers on language names and query texts.
pub trait TreeSitterHelpers {
    /// The text names a language that is supported.
    spec fn names_supported_language(&self) -> bool;

    /// The tree-sitter grammar of the language.
    fn get_language(&self) -> tree_sitter::Language
        requires
            self.names_supported_language(),
    ;

    /// The file extension of the language.
    fn get_extension(&self) -> &'static str
        requires
            self.names_supported_language(),
    ;

    /// The text with each `@tag` of the table replaced by its value.
    fn substitute_tags(&self, substitutions: &StrMap<String>) -> String;

    /// The text, followed by a newline (which a query ignores), compiled as
    /// a query of the language, if it compiles.
    fn create_query(&self, language: tree_sitter::Language) -> Option<tree_sitter::Query>;
}

impl TreeSitterHelpers for String {
    open spec fn names_supported_language(&self) -> bool {
        self@ == "Java"@
    }

    fn get_language(&self) -> tree_sitter::Language {
        java_language()
    }

    fn get_extension(&self) -> (e: &'static str)
        ensures
            e@ == "java"@,
    {
        "java"
    }

    fn substitute_tags(&self, substitutions: &StrMap<String>) -> (r: String)
        ensures
            r@ == substitute_pairs(self@, entries_view(substitutions.entries@)),
    {
        substitute_text(self.as_str(), substitutions)
    }

    fn create_query(&self, language: tree_sitter::Language) -> Option<tree_sitter::Query> {
        let mut text = crate::text::str_to_chars(self.as_str());
        text.push('\n');
        let source = crate::text::chars_to_string(&text);
        ts_query_new(language, source.as_str())
    }
}

/// The command-line arguments of Piranha.
#[derive(Debug, Clone)]
pub struct Args {
    /// Path to the source code folder.
    pub path_to_codebase: String,
    /// The language of the source code.
    pub language: String,
    /// Name of the stale flag.
    pub flag_name: String,
    /// Namespace of the stale flag.
    pub flag_namespace: String,
    /// Whether the flag is treated.
    pub flag_value: bool,
    /// Folder that holds the configuration files.
    pub path_to_configuration: String,
}

/// How a boolean is written.
pub open spec fn bool_text(b: bool) -> Seq<char> {
    if b {
        "true"@
    } else {
        "false"@
    }
}

fn bool_to_string(b: bool) -> (s: String)
    ensures
        s@ == bool_text(b),
{
    if b {
        "true".to_owned()
    } else {
        "false".to_owned()
    }
}

/// The views of a table of strings.
pub open spec fn string_values(m: Map<Seq<char>, String>) -> Map<Seq<char>, Seq<char>> {
    m.map_values(|s: String| s@)
}

/// Piranha's arguments: where the code and the configurations are, the
/// language, and the substitutions that instantiate the first rules.
pub struct PiranhaArguments {
    /// Path to the source code folder.
    pub path_to_code_base: String,
    /// The values of the tags `stale_flag_name`, `treated`, `namespace` and
    /// `treated_complement`.
    pub input_substitutions: StrMap<String>,
    /// Folder that holds the API specific rules.
    pub path_to_configurations: String,
    /// The name of the language.
    pub language_name: String,
    /// The tree-sitter grammar of the language.
    pub language: tree_sitter::Language,
    /// The file extension of the language.
    pub extension: String,
}

impl PiranhaArguments {
    /// The arguments for the command line `args`, whose language must be
    /// supported.
    pub fn new(args: Args) -> (p: PiranhaArguments)
        requires
            args.language.names_supported_language(),
        ensures
            p.path_to_code_base@ == args.path_to_codebase@,
            p.path_to_configurations@ == args.path_to_configuration@,
            p.language_name@ == args.language@,
            p.extension@ == "java"@,
            p.input_substitutions.wf(),
            string_values(p.input_substitutions@) == Map::<Seq<char>, Seq<char>>::empty().insert(
                "stale_flag_name"@,
                args.flag_name@,
            ).insert("treated"@, bool_text(args.flag_value)).insert("namespace"@, args.flag_namespace@).insert(
                "treated_complement"@,
                bool_text(!args.flag_value),
            ),
    {
        let mut subs: StrMap<String> = StrMap::new();
        subs.insert("stale_flag_name".to_owned(), copy_string(&args.flag_name));
        subs.insert("treated".to_owned(), bool_to_string(args.flag_value));
        subs.insert("namespace".to_owned(), copy_string(&args.flag_namespace));
        subs.insert("treated_complement".to_owned(), bool_to_string(!args.flag_value));
        let language = args.language.get_language();
        let extension = args.language.get_extension().to_owned();
        let p = PiranhaArguments {
            path_to_code_base: args.path_to_codebase,
            input_substitutions: subs,
            path_to_configurations: args.path_to_configuration,
            language_name: args.language,
            language,
            extension,
        };
        assert(string_values(p.input_substitutions@) =~= Map::<Seq<char>, Seq<char>>::empty().insert(
            "stale_flag_name"@,
            args.flag_name@,
        ).insert("treated"@, bool_text(args.flag_value)).insert("namespace"@, args.flag_namespace@).insert(
            "treated_complement"@,
            bool_text(!args.flag_value),
        ));
        p
    }
}

/// A rule of a feature-flag API, labelled as such.
pub open spec fn labelled(r: RuleV) -> RuleV {
    RuleV { groups: Some(groups_of(r).push(spec_feature_flag_api_group())), ..r }
}

/// The language rules followed by the API rules, labelled.
pub open spec fn all_rules(language_rules: Seq<RuleV>, input_rules: Seq<RuleV>) -> Seq<RuleV> {
    language_rules + input_rules.map_values(|r: RuleV| labelled(r))
}

/// Builds the rule graph and the rules by name from the language's rules
/// and edges and the API's rules and edges; the API's rules are labelled as
/// feature-flag API rules first.
pub fn read_rule_graph(
    language_rules: Rules,
    language_edges: Edges,
    input_rules: Rules,
    input_edges: Edges,
) -> (res: (ParameterizedRuleGraph, StrMap<Rule>))
    requires
        edges_resolve(
            edges_view(language_edges.edges@ + input_edges.edges@),
            all_rules(rules_view(language_rules.rules@), rules_view(input_rules.rules@)),
        ),
    ensures
        res.0.wf(),
        res.1.wf(),
        res.0.spec_graph() == graph_of(
            edges_view(language_edges.edges@ + input_edges.edges@),
            all_rules(rules_view(language_rules.rules@), rules_view(input_rules.rules@)),
        ),
        rule_map_view(res.1@) == names_map(all_rules(rules_view(language_rules.rules@), rules_view(input_rules.rules@))),
{
    let ghost lr = rules_view(language_rules.rules@);
    let ghost ir = rules_view(input_rules.rules@);
    let mut all: Vec<Rule> = language_rules.rules;
    let mut labelled_input = input_rules.rules;
    let mut i: usize = 0;
    while i < labelled_input.len()
        invariant
            i <= labelled_input@.len(),
            labelled_input@.len() == ir.len(),
            forall|j: int| 0 <= j < i ==> (#[trigger] labelled_input@[j])@ == labelled(ir[j]),
            forall|j: int| i <= j < ir.len() ==> (#[trigger] labelled_input@[j])@ == ir[j],
        decreases labelled_input@.len() - i,
    {
        labelled_input[i].add_to_feature_flag_api_group();
        i = i + 1;
    }
    assert(rules_view(labelled_input@) =~= ir.map_values(|r: RuleV| labelled(r)));
    let ghost before = all@;
    all.append(&mut labelled_input);
    assert(rules_view(all@) =~= all_rules(lr, ir));
    let mut edges: Vec<Edge> = language_edges.edges;
    let mut more = input_edges.edges;
    edges.append(&mut more);
    let (rules_by_name, _) = Rule::get_grouped_rules(&all);
    let graph = ParameterizedRuleGraph::new(edges, all);
    (graph, rules_by_name)
}

/// What adding a rule as a global rule gives: a feature-flag API rule that
/// the table instantiates, with the values of its holes as grep heuristics.
pub open spec fn global_of(r: RuleV, subs: StrMap<String>) -> Option<RuleV> {
    if groups_of(r).contains(spec_feature_flag_api_group()) {
        match spec_try_instantiate(r, entries_view(subs.entries@)) {
            Some(r2) => Some(RuleV { grep_heuristics: Some(hole_values(r2.holes->0, subs@)), ..r2 }),
            None => None,
        }
    } else {
        None
    }
}

/// The global rules that a list of rules gives, in order.
pub open spec fn globals_of(rs: Seq<RuleV>, subs: StrMap<String>) -> Seq<RuleV>
    decreases rs.len(),
{
    if rs.len() == 0 {
        seq![]
    } else {
        let prev = globals_of(rs.drop_last(), subs);
        match global_of(rs.last(), subs) {
            Some(g) => prev.push(g),
            None => prev,
        }
    }
}

/// The rules of a table's entries, in order.
pub open spec fn entry_rules(entries: Seq<(String, Rule)>) -> Seq<RuleV> {
    entries.map_values(|e: (String, Rule)| e.1@)
}

/// Every feature-flag API rule has holes.
pub open spec fn api_rules_have_holes(rules: Seq<RuleV>) -> bool {
    forall|i: int|
        0 <= i < rules.len() && (#[trigger] groups_of(rules[i])).contains(spec_feature_flag_api_group())
            ==> rules[i].holes is Some
}

/// The arguments a configuration file gives: the language, and the
/// substitutions as [key, value] lists.
#[derive(Debug, Clone)]
pub struct PiranhaConfig {
    pub language: Vec<String>,
    pub substitutions: Vec<Vec<String>>,
}

/// The table that [key, value] lists give, a later key winning.
pub open spec fn pairs_table(ps: Seq<Seq<Seq<char>>>) -> Map<Seq<char>, Seq<char>>
    decreases ps.len(),
{
    if ps.len() == 0 {
        Map::empty()
    } else {
        pairs_table(ps.drop_last()).insert(ps.last()[0], ps.last()[1])
    }
}

/// The texts of lists of strings.
pub open spec fn lists_view(v: Seq<Vec<String>>) -> Seq<Seq<Seq<char>>> {
    v.map_values(|l: Vec<String>| crate::text::strings_view(l@))
}

impl PiranhaConfig {
    /// The substitutions as a table: the first string of each list is the
    /// key, the second the value.
    pub fn substitutions(&self) -> (m: StrMap<String>)
        requires
            forall|i: int| 0 <= i < self.substitutions@.len() ==> (#[trigger] self.substitutions@[i])@.len() >= 2,
        ensures
            m.wf(),
            string_values(m@) == pairs_table(lists_view(self.substitutions@)),
    {
        let ghost ps = lists_view(self.substitutions@);
        let mut m: StrMap<String> = StrMap::new();
        let mut i: usize = 0;
        assert(string_values(m@) =~= pairs_table(ps.take(0)));
        while i < self.substitutions.len()
            invariant
                i <= self.substitutions@.len(),
                ps == lists_view(self.substitutions@),
                forall|j: int| 0 <= j < self.substitutions@.len() ==> (#[trigger] self.substitutions@[j])@.len() >= 2,
                m.wf(),
                string_values(m@) == pairs_table(ps.take(i as int)),
            decreases self.substitutions@.len() - i,
        {
            let pair = &self.substitutions[i];
            assert(pair@.len() >= 2);
            let k = copy_string(&pair[0]);
            let v = copy_string(&pair[1]);
            let ghost before = m@;
            m.insert(k, v);
            proof {
                assert(ps.take(i + 1).drop_last() =~= ps.take(i as int));
                assert(ps.take(i + 1).last() == ps[i as int]);
                assert(ps[i as int][0] == pair@[0]@);
                assert(ps[i as int][1] == pair@[1]@);
                assert(string_values(m@) =~= string_values(before).insert(pair@[0]@, pair@[1]@));
            }
            i = i + 1;
        }
        assert(ps.take(self.substitutions@.len() as int) =~= ps);
        m
    }

    /// The language: the first of the list.
    pub fn language(&self) -> (l: String)
        requires
            self.language@.len() > 0,
        ensures
            l@ == self.language@[0]@,
    {
        copy_string(&self.language[0])
    }
}

/// Whether every endpoint of the edges names a rule or a group of the
/// tables.
fn edges_resolve_in(edges: &Vec<Edge>, names: &StrMap<Rule>, groups: &StrMap<Vec<String>>, Ghost(rv): Ghost<Seq<RuleV>>) -> (b: bool)
    requires
        rule_map_view(names@) == names_map(rv),
        crate::rules::strings_map_view(groups@) == crate::rules::groups_map(rv),
    ensures
        b == edges_resolve(edges_view(edges@), rv),
{
    let ghost ev = edges_view(edges@);
    let mut i: usize = 0;
    while i < edges.len()
        invariant
            i <= edges@.len(),
            ev == edges_view(edges@),
            rule_map_view(names@) == names_map(rv),
            crate::rules::strings_map_view(groups@) == crate::rules::groups_map(rv),
            forall|a: int| 0 <= a < i ==> crate::rule_graph::resolves((#[trigger] ev[a]).from, rv) && forall|j: int|
                0 <= j < ev[a].to.len() ==> crate::rule_graph::resolves(#[trigger] ev[a].to[j], rv),
        decreases edges@.len() - i,
    {
        let e = &edges[i];
        assert(ev[i as int] == e@);
        if !(names.contains_key(e.from.as_str()) || groups.contains_key(e.from.as_str())) {
            return false;
        }
        let mut j: usize = 0;
        while j < e.to.len()
            invariant
                i < edges@.len(),
                j <= e.to@.len(),
                ev == edges_view(edges@),
                ev[i as int] == e@,
                rule_map_view(names@) == names_map(rv),
                crate::rules::strings_map_view(groups@) == crate::rules::groups_map(rv),
                forall|k: int| 0 <= k < j ==> crate::rule_graph::resolves(#[trigger] ev[i as int].to[k], rv),
            decreases e.to@.len() - j,
        {
            assert(ev[i as int].to[j as int] == e.to@[j as int]@);
            if !(names.contains_key(e.to[j].as_str()) || groups.contains_key(e.to[j].as_str())) {
                return false;
            }
            j = j + 1;
        }
        i = i + 1;
    }
    true
}

/// Whether the rule store can be built from the configuration: every
/// endpoint of every edge names a rule or a group, and every rule of the
/// feature-flag API (the input rules among them) has holes.
pub fn config_ok(language_rules: &Rules, language_edges: &Edges, input_rules: &Rules, input_edges: &Edges) -> (b: bool)
    ensures
        b == (edges_resolve(
            edges_view(language_edges.edges@ + input_edges.edges@),
            all_rules(rules_view(language_rules.rules@), rules_view(input_rules.rules@)),
        ) && api_rules_have_holes(all_rules(rules_view(language_rules.rules@), rules_view(input_rules.rules@)))),
{
    let ghost lr = rules_view(language_rules.rules@);
    let ghost ir = rules_view(input_rules.rules@);
    let ghost av = all_rules(lr, ir);
    let mut all: Vec<Rule> = Vec::new();
    let mut i: usize = 0;
    while i < language_rules.rules.len()
        invariant
            i <= lr.len(),
            lr == rules_view(language_rules.rules@),
            rules_view(all@) == lr.take(i as int),
        decreases lr.len() - i,
    {
        let c = language_rules.rules[i].copy();
        let ghost before = all@;
        all.push(c);
        assert(lr[i as int] == language_rules.rules@[i as int]@);
        assert(rules_view(all@) =~= rules_view(before).push(c@));
        assert(lr.take(i + 1) =~= lr.take(i as int).push(lr[i as int]));
        i = i + 1;
    }
    let mut k: usize = 0;
    assert(lr.take(lr.len() as int) =~= lr);
    while k < input_rules.rules.len()
        invariant
            k <= ir.len(),
            ir == rules_view(input_rules.rules@),
            rules_view(all@) == lr + ir.take(k as int).map_values(|r: RuleV| labelled(r)),
        decreases ir.len() - k,
    {
        let mut r = input_rules.rules[k].copy();
        r.add_to_feature_flag_api_group();
        let ghost before = all@;
        all.push(r);
        assert(ir[k as int] == input_rules.rules@[k as int]@);
        assert(rules_view(all@) =~= rules_view(before).push(labelled(ir[k as int])));
        assert(ir.take(k + 1).map_values(|r: RuleV| labelled(r)) =~= ir.take(k as int).map_values(|r: RuleV| labelled(r)).push(
            labelled(ir[k as int]),
        ));
        k = k + 1;
    }
    assert(ir.take(ir.len() as int) =~= ir);
    assert(rules_view(all@) == av);
    let mut holes_ok = true;
    let mut m: usize = 0;
    while m < all.len()
        invariant
            m <= all@.len(),
            rules_view(all@) == av,
            holes_ok == forall|a: int|
                0 <= a < m && (#[trigger] groups_of(av[a])).contains(spec_feature_flag_api_group()) ==> av[a].holes is Some,
        decreases all@.len() - m,
    {
        assert(av[m as int] == all@[m as int]@);
        if all[m].is_feature_flag_cleanup() && all[m].holes.is_none() {
            holes_ok = false;
        }
        m = m + 1;
    }
    let (names, groups) = Rule::get_grouped_rules(&all);
    let a = edges_resolve_in(&language_edges.edges, &names, &groups, Ghost(av));
    let c = edges_resolve_in(&input_edges.edges, &names, &groups, Ghost(av));
    proof {
        let e1 = edges_view(language_edges.edges@);
        let e2 = edges_view(input_edges.edges@);
        assert(edges_view(language_edges.edges@ + input_edges.edges@) =~= e1 + e2);
        let e = e1 + e2;
        if edges_resolve(e, av) {
            assert forall|x: int| 0 <= x < e2.len() implies crate::rule_graph::resolves((#[trigger] e2[x]).from, av)
                && forall|j: int| 0 <= j < e2[x].to.len() ==> crate::rule_graph::resolves(#[trigger] e2[x].to[j], av) by {
                assert(e[x + e1.len()] == e2[x]);
            }
            assert forall|x: int| 0 <= x < e1.len() implies crate::rule_graph::resolves((#[trigger] e1[x]).from, av)
                && forall|j: int| 0 <= j < e1[x].to.len() ==> crate::rule_graph::resolves(#[trigger] e1[x].to[j], av) by {
                assert(e[x] == e1[x]);
            }
        }
        if a && c {
            assert forall|x: int| 0 <= x < e.len() implies crate::rule_graph::resolves((#[trigger] e[x]).from, av)
                && forall|j: int| 0 <= j < e[x].to.len() ==> crate::rule_graph::resolves(#[trigger] e[x].to[j], av) by {
                if x < e1.len() {
                    assert(e[x] == e1[x]);
                } else {
                    assert(e[x] == e2[x - e1.len()]);
                }
            }
        }
    }
    a && c && holes_ok
}

/// Piranha's state: the rule graph, the rules by name, the global rules
/// found so far, the scope generators, the arguments and the compiled
/// queries.
pub struct RuleStore {
    /// The flow among the rules.
    pub rule_graph: ParameterizedRuleGraph,
    /// The compiled queries, by their text.
    pub rule_query_cache: StrMap<tree_sitter::Query>,
    /// All the rules, by name.
    pub rules_by_name: StrMap<Rule>,
    /// The global rules to apply.
    pub global_rules: Vec<Rule>,
    /// The scope generators.
    pub scopes: Vec<ScopeGenerator>,
    /// The arguments Piranha runs with.
    pub piranha_args: PiranhaArguments,
    /// For proofs only: the ancestor searches made through the store, in
    /// order, each with its pattern and whether an ancestor matched it.
    pub ancestor_searches: Ghost<Seq<(Seq<char>, bool)>>,
    /// For proofs only: the pattern searches made through the store, in
    /// order, each with its pattern, whether it looked below the node too,
    /// and the number of matches it found.
    pub pattern_searches: Ghost<Seq<(Seq<char>, bool, nat)>>,
}

impl RuleStore {
    /// The state for `args` and the configurations: the language's rules,
    /// edges and scopes and the API's rules and edges. Each rule that
    /// belongs to the feature-flag API and that the input substitutions
    /// instantiate becomes a global rule, in the order of the rules by name.
    pub fn new(
        args: PiranhaArguments,
        language_rules: Rules,
        language_edges: Edges,
        scopes: Vec<ScopeGenerator>,
        input_rules: Rules,
        input_edges: Edges,
    ) -> (s: RuleStore)
        requires
            args.input_substitutions.wf(),
            edges_resolve(
                edges_view(language_edges.edges@ + input_edges.edges@),
                all_rules(rules_view(language_rules.rules@), rules_view(input_rules.rules@)),
            ),
            api_rules_have_holes(all_rules(rules_view(language_rules.rules@), rules_view(input_rules.rules@))),
        ensures
            s.rule_graph.wf(),
            s.rules_by_name.wf(),
            s.rule_graph.spec_graph() == graph_of(
                edges_view(language_edges.edges@ + input_edges.edges@),
                all_rules(rules_view(language_rules.rules@), rules_view(input_rules.rules@)),
            ),
            rule_map_view(s.rules_by_name@) == names_map(
                all_rules(rules_view(language_rules.rules@), rules_view(input_rules.rules@)),
            ),
            rules_view(s.global_rules@) == globals_of(entry_rules(s.rules_by_name.entries@), args.input_substitutions),
            s.scopes@ == scopes@,
            s.rule_query_cache@ == Map::<Seq<char>, tree_sitter::Query>::empty(),
            s.rule_query_cache.wf(),
            s.piranha_args == args,
    {
        let ghost a0 = args;
        let ghost all = all_rules(rules_view(language_rules.rules@), rules_view(input_rules.rules@));
        let ghost g = graph_of(edges_view(language_edges.edges@ + input_edges.edges@), all);
        let ghost sc = scopes@;
        let ghost subs0 = args.input_substitutions;
        let (rule_graph, rules_by_name) = read_rule_graph(language_rules, language_edges, input_rules, input_edges);
        let mut store = RuleStore {
            rule_graph,
            rule_query_cache: StrMap::new(),
            rules_by_name,
            global_rules: Vec::new(),
            scopes,
            piranha_args: args,
            ancestor_searches: Ghost(Seq::empty()),
            pattern_searches: Ghost(Seq::empty()),
        };
        let ghost er = entry_rules(store.rules_by_name.entries@);
        proof {
            assert forall|i: int|
                0 <= i < er.len() && (#[trigger] groups_of(er[i])).contains(spec_feature_flag_api_group()) implies er[i].holes
                is Some by {
                let k = store.rules_by_name.entries@[i].0@;
                crate::str_map::lemma_lookup_index(store.rules_by_name.entries@, k);
                crate::str_map::lemma_lookup_at(store.rules_by_name.entries@, i);
                assert(store.rules_by_name@.contains_key(k));
                assert(rule_map_view(store.rules_by_name@)[k] == er[i]);
                lemma_names_map_member(all, k);
            }
        }
        let mut i: usize = 0;
        assert(er.take(0) =~= Seq::<RuleV>::empty());
        while i < store.rules_by_name.entries.len()
            invariant
                i <= store.rules_by_name.entries@.len(),
                er == entry_rules(store.rules_by_name.entries@),
                api_rules_have_holes(er),
                store.piranha_args.input_substitutions.wf(),
                rules_view(store.global_rules@) == globals_of(er.take(i as int), store.piranha_args.input_substitutions),
                store.rule_graph.wf(),
                store.rules_by_name.wf(),
                store.rule_graph.spec_graph() == g,
                rule_map_view(store.rules_by_name@) == names_map(all),
                store.scopes@ == sc,
                store.piranha_args.input_substitutions == subs0,
                store.rule_query_cache@ == Map::<Seq<char>, tree_sitter::Query>::empty(),
                store.rule_query_cache.wf(),
                store.piranha_args == a0,
            decreases store.rules_by_name.entries@.len() - i,
        {
            let rule = store.rules_by_name.entries[i].1.copy();
            assert(er.take(i + 1).drop_last() =~= er.take(i as int));
            assert(er[i as int] == rule@);
            assert(groups_of(er[i as int]).contains(spec_feature_flag_api_group()) ==> er[i as int].holes is Some);
            let subs = &store.piranha_args.input_substitutions;
            let ghost sv = *subs;
            let added = global_rule_for(&rule, subs);
            match added {
                Some(r) => {
                    store.global_rules.push(r);
                },
                None => {},
            }
            proof {
                assert(rules_view(store.global_rules@) =~= globals_of(er.take(i + 1), sv));
            }
            i = i + 1;
        }
        assert(er.take(er.len() as int) =~= er);
        store
    }

    /// Copies of the global rules.
    pub fn get_global_rules(&self) -> (res: Vec<Rule>)
        ensures
            rules_view(res@) == rules_view(self.global_rules@),
    {
        let mut res: Vec<Rule> = Vec::new();
        let mut i: usize = 0;
        while i < self.global_rules.len()
            invariant
                i <= self.global_rules@.len(),
                res@.len() == i,
                forall|j: int| 0 <= j < i ==> (#[trigger] res@[j])@ == self.global_rules@[j]@,
            decreases self.global_rules@.len() - i,
        {
            res.push(self.global_rules[i].copy());
            i = i + 1;
        }
        assert(rules_view(res@) =~= rules_view(self.global_rules@));
        res
    }

    /// Adds the rule, instantiated with `tag_captures` and with grep
    /// heuristics, to the global rules when it belongs to the feature-flag
    /// API and the table instantiates it.
    pub fn add_global_rule(&mut self, rule: &Rule, tag_captures: &StrMap<String>)
        requires
            groups_of(rule@).contains(spec_feature_flag_api_group()) ==> rule@.holes is Some,
        ensures
            rules_view(final(self).global_rules@) == (match global_of(rule@, *tag_captures) {
                Some(g) => rules_view(old(self).global_rules@).push(g),
                None => rules_view(old(self).global_rules@),
            }),
            final(self).rule_graph == old(self).rule_graph,
            final(self).rules_by_name == old(self).rules_by_name,
            final(self).scopes == old(self).scopes,
            final(self).rule_query_cache == old(self).rule_query_cache,
            final(self).piranha_args == old(self).piranha_args,
    {
        let ghost before = self.global_rules@;
        match global_rule_for(rule, tag_captures) {
            Some(r) => {
                self.global_rules.push(r);
                assert(rules_view(self.global_rules@) =~= rules_view(before).push(global_of(rule@, *tag_captures)->0));
            },
            None => {},
        }
    }

    /// The query compiled from `query_str`, from the cache or compiled now
    /// and added to the cache; nothing when it does not compile.
    pub fn get_query(&mut self, query_str: &String) -> (q: Option<&tree_sitter::Query>)
        requires
            old(self).rule_query_cache.wf(),
        ensures
            final(self).rule_query_cache.wf(),
            old(self).rule_query_cache@.contains_key(query_str@) ==> q is Some,
            q is Some ==> final(self).rule_query_cache@.contains_key(query_str@),
            old(self).rule_query_cache@.contains_key(query_str@) ==> final(self).rule_query_cache@
                == old(self).rule_query_cache@,
            final(self).rule_query_cache@.dom() == old(self).rule_query_cache@.dom()
                || final(self).rule_query_cache@.dom() == old(self).rule_query_cache@.dom().insert(query_str@),
            q matches Some(r) ==> *r == final(self).rule_query_cache@[query_str@],
            q is None ==> final(self).rule_query_cache@ == old(self).rule_query_cache@,
            !old(self).rule_query_cache@.contains_key(query_str@) && q is Some ==> final(self).rule_query_cache@
                == old(self).rule_query_cache@.insert(query_str@, *q->0),
            final(self).rule_graph == old(self).rule_graph,
            final(self).rules_by_name == old(self).rules_by_name,
            final(self).global_rules == old(self).global_rules,
            final(self).scopes == old(self).scopes,
            final(self).piranha_args == old(self).piranha_args,
            final(self).ancestor_searches == old(self).ancestor_searches,
            final(self).pattern_searches == old(self).pattern_searches,
            !old(self).rule_query_cache@.contains_key(query_str@) && old(self).piranha_args.language_name@ == "Java"@
                ==> (q is Some <==> java_query_compiles(query_str@.push('\n'))),
    {
        match self.rule_query_cache.find(query_str.as_str()) {
            Some(i) => Some(&self.rule_query_cache.entries[i].1),
            None => {
                let compiled_opt = if crate::text::str_eq(self.piranha_args.language_name.as_str(), "Java") {
                    let mut text = crate::text::str_to_chars(query_str.as_str());
                    text.push('\n');
                    let source = crate::text::chars_to_string(&text);
                    ts_java_query_new(source.as_str())
                } else {
                    query_str.create_query(self.piranha_args.language)
                };
                match compiled_opt {
                    Some(compiled) => {
                        self.rule_query_cache.insert(copy_string(query_str), compiled);
                        match self.rule_query_cache.find(query_str.as_str()) {
                            Some(i) => Some(&self.rule_query_cache.entries[i].1),
                            None => None,
                        }
                    },
                    None => None,
                }
            },
        }
    }
}

/// An association list of rule lists: scopes and their rules, in order.
pub open spec fn alist_view(entries: Seq<(String, Vec<Rule>)>) -> Seq<(Seq<char>, Seq<RuleV>)> {
    entries.map_values(|e: (String, Vec<Rule>)| (e.0@, rules_view(e.1@)))
}

/// The index of the first entry of `l` with key `k`, or -1.
pub open spec fn alist_index(l: Seq<(Seq<char>, Seq<RuleV>)>, k: Seq<char>) -> int
    decreases l.len(),
{
    if l.len() == 0 {
        -1
    } else if l[0].0 == k {
        0
    } else {
        let j = alist_index(l.drop_first(), k);
        if j < 0 {
            -1
        } else {
            j + 1
        }
    }
}

/// `l` with `r` appended to the list of `k`; a new key goes last.
pub open spec fn alist_append(l: Seq<(Seq<char>, Seq<RuleV>)>, k: Seq<char>, r: RuleV) -> Seq<(Seq<char>, Seq<RuleV>)> {
    let i = alist_index(l, k);
    if i >= 0 {
        l.update(i, (k, l[i].1.push(r)))
    } else {
        l.push((k, seq![r]))
    }
}

/// The rule instantiated with the table (the rule itself if it cannot be).
pub open spec fn spec_inst(r: RuleV, tags: Seq<(Seq<char>, Seq<char>)>) -> RuleV {
    match spec_try_instantiate(r, tags) {
        Some(x) => x,
        None => r,
    }
}

/// `l` with each of `rs`, instantiated, appended to the list of `k`.
pub open spec fn alist_append_all(
    l: Seq<(Seq<char>, Seq<RuleV>)>,
    k: Seq<char>,
    rs: Seq<RuleV>,
    tags: Seq<(Seq<char>, Seq<char>)>,
) -> Seq<(Seq<char>, Seq<RuleV>)>
    decreases rs.len(),
{
    if rs.len() == 0 {
        l
    } else {
        alist_append(alist_append_all(l, k, rs.drop_last(), tags), k, spec_inst(rs.last(), tags))
    }
}

/// `l` with the rules of each entry of `sub`, instantiated, appended to the
/// list of the entry's key, entry by entry.
pub open spec fn alist_merge(
    l: Seq<(Seq<char>, Seq<RuleV>)>,
    sub: Seq<(Seq<char>, Seq<RuleV>)>,
    tags: Seq<(Seq<char>, Seq<char>)>,
) -> Seq<(Seq<char>, Seq<RuleV>)>
    decreases sub.len(),
{
    if sub.len() == 0 {
        l
    } else {
        alist_append_all(alist_merge(l, sub.drop_last(), tags), sub.last().0, sub.last().1, tags)
    }
}

/// The outgoing edges of `name` in the graph.
pub open spec fn neighbors_of(g: Map<Seq<char>, Seq<(Seq<char>, Seq<char>)>>, name: Seq<char>) -> Seq<(Seq<char>, Seq<char>)> {
    if g.contains_key(name) {
        g[name]
    } else {
        seq![]
    }
}

/// A rule without query and replacement.
pub open spec fn is_dummy(r: RuleV) -> bool {
    r.query.len() == 0 && r.replace.len() == 0
}

/// The rules that follow the rule `name`, by scope: each neighbour,
/// instantiated, in the scope of its edge; in place of a dummy neighbour,
/// the rules that follow it (found with one unit of `fuel` less),
/// instantiated again.
pub open spec fn next_of(
    g: Map<Seq<char>, Seq<(Seq<char>, Seq<char>)>>,
    rs: Map<Seq<char>, RuleV>,
    name: Seq<char>,
    tags: Seq<(Seq<char>, Seq<char>)>,
    fuel: nat,
) -> Seq<(Seq<char>, Seq<RuleV>)>
    decreases fuel, 1int, 0int,
{
    next_fold(g, rs, neighbors_of(g, name), tags, fuel)
}

/// The rules that follow, for the neighbours `nbrs`.
pub open spec fn next_fold(
    g: Map<Seq<char>, Seq<(Seq<char>, Seq<char>)>>,
    rs: Map<Seq<char>, RuleV>,
    nbrs: Seq<(Seq<char>, Seq<char>)>,
    tags: Seq<(Seq<char>, Seq<char>)>,
    fuel: nat,
) -> Seq<(Seq<char>, Seq<RuleV>)>
    decreases fuel, 0int, nbrs.len(),
{
    if nbrs.len() == 0 {
        seq![]
    } else {
        let acc = next_fold(g, rs, nbrs.drop_last(), tags, fuel);
        let scope = nbrs.last().0;
        let to = nbrs.last().1;
        if is_dummy(rs[to]) {
            if fuel == 0 {
                acc
            } else {
                alist_merge(acc, next_of(g, rs, to, tags, (fuel - 1) as nat), tags)
            }
        } else {
            alist_append(acc, scope, spec_inst(rs[to], tags))
        }
    }
}

/// Every rule of every list instantiates with the table.
pub open spec fn all_instantiable(l: Seq<(Seq<char>, Seq<RuleV>)>, tags: Seq<(Seq<char>, Seq<char>)>) -> bool {
    forall|i: int, j: int|
        0 <= i < l.len() && 0 <= j < l[i].1.len() ==> (#[trigger] spec_try_instantiate(l[i].1[j], tags)) is Some
}

/// Finding the rules that follow `name` reaches only known rules, needs no
/// more than `fuel` steps through dummy rules, and instantiates only rules
/// the table fills.
pub open spec fn next_ok(
    g: Map<Seq<char>, Seq<(Seq<char>, Seq<char>)>>,
    rs: Map<Seq<char>, RuleV>,
    name: Seq<char>,
    tags: Seq<(Seq<char>, Seq<char>)>,
    fuel: nat,
) -> bool
    decreases fuel, 1int, 0int,
{
    fold_ok(g, rs, neighbors_of(g, name), tags, fuel)
}

pub open spec fn fold_ok(
    g: Map<Seq<char>, Seq<(Seq<char>, Seq<char>)>>,
    rs: Map<Seq<char>, RuleV>,
    nbrs: Seq<(Seq<char>, Seq<char>)>,
    tags: Seq<(Seq<char>, Seq<char>)>,
    fuel: nat,
) -> bool
    decreases fuel, 0int, nbrs.len(),
{
    if nbrs.len() == 0 {
        true
    } else {
        let to = nbrs.last().1;
        &&& fold_ok(g, rs, nbrs.drop_last(), tags, fuel)
        &&& rs.contains_key(to)
        &&& if is_dummy(rs[to]) {
            &&& fuel > 0
            &&& next_ok(g, rs, to, tags, (fuel - 1) as nat)
            &&& all_instantiable(next_of(g, rs, to, tags, (fuel - 1) as nat), tags)
        } else {
            spec_try_instantiate(rs[to], tags) is Some
        }
    }
}

/// `l` with an empty list for `k` if it has none.
pub open spec fn with_default(l: Seq<(Seq<char>, Seq<RuleV>)>, k: Seq<char>) -> Seq<(Seq<char>, Seq<RuleV>)> {
    if alist_index(l, k) < 0 {
        l.push((k, seq![]))
    } else {
        l
    }
}

/// The rules that follow, with a (possibly empty) list for each of the
/// scopes `Parent`, `Method`, `Class` and `Global`.
pub open spec fn spec_get_next(
    g: Map<Seq<char>, Seq<(Seq<char>, Seq<char>)>>,
    rs: Map<Seq<char>, RuleV>,
    name: Seq<char>,
    tags: Seq<(Seq<char>, Seq<char>)>,
    fuel: nat,
) -> Seq<(Seq<char>, Seq<RuleV>)> {
    with_default(
        with_default(with_default(with_default(next_of(g, rs, name, tags, fuel), "Parent"@), "Method"@), "Class"@),
        "Global"@,
    )
}

proof fn lemma_alist_index_at(l: Seq<(Seq<char>, Seq<RuleV>)>, i: int, k: Seq<char>)
    requires
        0 <= i < l.len(),
        l[i].0 == k,
        forall|a: int, b: int| 0 <= a < b < l.len() ==> (#[trigger] l[a]).0 != (#[trigger] l[b]).0,
    ensures
        alist_index(l, k) == i,
    decreases i,
{
    if i > 0 {
        assert(l[0].0 != l[i].0);
        assert(l.drop_first()[i - 1] == l[i]);
        assert forall|a: int, b: int| 0 <= a < b < l.drop_first().len() implies (#[trigger] l.drop_first()[a]).0
            != (#[trigger] l.drop_first()[b]).0 by {
            assert(l.drop_first()[a] == l[a + 1]);
            assert(l.drop_first()[b] == l[b + 1]);
        }
        lemma_alist_index_at(l.drop_first(), i - 1, k);
    }
}

proof fn lemma_alist_index_absent(l: Seq<(Seq<char>, Seq<RuleV>)>, k: Seq<char>)
    requires
        forall|a: int| 0 <= a < l.len() ==> (#[trigger] l[a]).0 != k,
    ensures
        alist_index(l, k) == -1,
    decreases l.len(),
{
    if l.len() > 0 {
        assert forall|a: int| 0 <= a < l.drop_first().len() implies (#[trigger] l.drop_first()[a]).0 != k by {
            assert(l.drop_first()[a] == l[a + 1]);
        }
        lemma_alist_index_absent(l.drop_first(), k);
    }
}

proof fn lemma_alist_index_range(l: Seq<(Seq<char>, Seq<RuleV>)>, k: Seq<char>)
    ensures
        -1 <= alist_index(l, k) < l.len(),
        alist_index(l, k) >= 0 ==> l[alist_index(l, k)].0 == k,
    decreases l.len(),
{
    if l.len() > 0 && l[0].0 != k {
        lemma_alist_index_range(l.drop_first(), k);
        if alist_index(l, k) >= 0 {
            assert(l.drop_first()[alist_index(l, k) - 1] == l[alist_index(l, k)]);
        }
    }
}

/// Appends `r` to the list of `k`, starting a list, last, for a new key.
fn collect_rule(m: &mut StrMap<Vec<Rule>>, k: String, r: Rule)
    requires
        old(m).wf(),
    ensures
        final(m).wf(),
        alist_view(final(m).entries@) == alist_append(alist_view(old(m).entries@), k@, r@),
{
    let ghost old_entries = m.entries@;
    let ghost lv = alist_view(old_entries);
    let ghost kv = k@;
    let ghost rv = r@;
    let ghost r0 = r;
    proof {
        assert forall|a: int, b: int| 0 <= a < b < lv.len() implies (#[trigger] lv[a]).0 != (#[trigger] lv[b]).0 by {
            assert(old_entries[a].0@ != old_entries[b].0@);
        }
    }
    match m.find(k.as_str()) {
        Some(i) => {
            m.entries[i].1.push(r);
            proof {
                lemma_alist_index_at(lv, i as int, kv);
                assert(m.entries@.len() == old_entries.len());
                assert(forall|a: int| 0 <= a < old_entries.len() && a != i ==> m.entries@[a] == old_entries[a]);
                assert(m.entries@[i as int].1@ == old_entries[i as int].1@.push(r0));
                assert(rules_view(m.entries@[i as int].1@) =~= lv[i as int].1.push(rv));
                assert(alist_view(m.entries@) =~= lv.update(i as int, (kv, lv[i as int].1.push(rv))));
                assert forall|a: int, b: int| 0 <= a < b < m.entries@.len() implies (
                #[trigger] m.entries@[a]).0@ != (#[trigger] m.entries@[b]).0@ by {
                    assert(old_entries[a].0@ != old_entries[b].0@);
                }
            }
        },
        None => {
            let mut v: Vec<Rule> = Vec::new();
            v.push(r);
            m.entries.push((k, v));
            proof {
                crate::str_map::lemma_lookup_index(old_entries, kv);
                assert forall|a: int| 0 <= a < lv.len() implies (#[trigger] lv[a]).0 != kv by {
                    assert(old_entries[a].0@ != kv);
                }
                lemma_alist_index_absent(lv, kv);
                assert(m.entries@.last().1@ =~= seq![r0]);
                assert(rules_view(m.entries@.last().1@) =~= seq![rv]);
                assert(alist_view(m.entries@) =~= lv.push((kv, seq![rv])));
                assert forall|a: int, b: int| 0 <= a < b < m.entries@.len() implies (
                #[trigger] m.entries@[a]).0@ != (#[trigger] m.entries@[b]).0@ by {
                    if b == old_entries.len() {
                        assert(old_entries[a].0@ != kv);
                    }
                }
            }
        },
    }
}

/// Adds an empty list for `k` if there is none.
fn ensure_key(m: &mut StrMap<Vec<Rule>>, k: String)
    requires
        old(m).wf(),
    ensures
        final(m).wf(),
        alist_view(final(m).entries@) == with_default(alist_view(old(m).entries@), k@),
{
    let ghost old_entries = m.entries@;
    let ghost lv = alist_view(old_entries);
    let ghost kv = k@;
    proof {
        assert forall|a: int, b: int| 0 <= a < b < lv.len() implies (#[trigger] lv[a]).0 != (#[trigger] lv[b]).0 by {
            assert(old_entries[a].0@ != old_entries[b].0@);
        }
    }
    match m.find(k.as_str()) {
        Some(i) => {
            proof {
                lemma_alist_index_at(lv, i as int, kv);
            }
        },
        None => {
            m.entries.push((k, Vec::new()));
            proof {
                crate::str_map::lemma_lookup_index(old_entries, kv);
                assert forall|a: int| 0 <= a < lv.len() implies (#[trigger] lv[a]).0 != kv by {
                    assert(old_entries[a].0@ != kv);
                }
                lemma_alist_index_absent(lv, kv);
                assert(rules_view(m.entries@.last().1@) =~= Seq::<RuleV>::empty());
                assert(alist_view(m.entries@) =~= lv.push((kv, seq![])));
                assert forall|a: int, b: int| 0 <= a < b < m.entries@.len() implies (
                #[trigger] m.entries@[a]).0@ != (#[trigger] m.entries@[b]).0@ by {
                    if b == old_entries.len() {
                        assert(old_entries[a].0@ != kv);
                    }
                }
            }
        },
    }
}

impl RuleStore {
    /// The rules that follow `name`, by scope, looking through dummy rules
    /// at most `fuel` deep.
    fn next_core(&self, name: &String, tag_matches: &StrMap<String>, fuel: usize) -> (res: StrMap<Vec<Rule>>)
        requires
            self.rules_by_name.wf(),
            next_ok(
                self.rule_graph.spec_graph(),
                rule_map_view(self.rules_by_name@),
                name@,
                entries_view(tag_matches.entries@),
                fuel as nat,
            ),
        ensures
            res.wf(),
            alist_view(res.entries@) == next_of(
                self.rule_graph.spec_graph(),
                rule_map_view(self.rules_by_name@),
                name@,
                entries_view(tag_matches.entries@),
                fuel as nat,
            ),
        decreases fuel,
    {
        let ghost g = self.rule_graph.spec_graph();
        let ghost rs = rule_map_view(self.rules_by_name@);
        let ghost tags = entries_view(tag_matches.entries@);
        let nbrs = self.rule_graph.get_neighbors(name);
        let ghost nv = entries_view(nbrs@);
        assert(nv == neighbors_of(g, name@));
        let mut next_rules: StrMap<Vec<Rule>> = StrMap::new();
        assert(alist_view(next_rules.entries@) =~= next_fold(g, rs, nv.take(0), tags, fuel as nat));
        let mut i: usize = 0;
        while i < nbrs.len()
            invariant
                i <= nbrs@.len(),
                nv == entries_view(nbrs@),
                g == self.rule_graph.spec_graph(),
                rs == rule_map_view(self.rules_by_name@),
                tags == entries_view(tag_matches.entries@),
                self.rules_by_name.wf(),
                fold_ok(g, rs, nv, tags, fuel as nat),
                next_rules.wf(),
                alist_view(next_rules.entries@) == next_fold(g, rs, nv.take(i as int), tags, fuel as nat),
            decreases nbrs@.len() - i,
        {
            let ghost pre = nv.take(i + 1);
            assert(pre.drop_last() =~= nv.take(i as int));
            assert(pre.last() == nv[i as int]);
            proof {
                lemma_fold_ok_prefix(g, rs, nv, tags, fuel as nat, i + 1);
            }
            let scope = &nbrs[i].0;
            let to_rule = &nbrs[i].1;
            match self.rules_by_name.get(to_rule.as_str()) {
                Some(next_rule) => {
                    assert(rs[to_rule@] == next_rule@);
                    if next_rule.is_dummy_rule() {
                        if fuel > 0 {
                            let sub = self.next_core(to_rule, tag_matches, fuel - 1);
                            let ghost sv = alist_view(sub.entries@);
                            let ghost acc0 = alist_view(next_rules.entries@);
                            let mut j: usize = 0;
                            assert(alist_merge(acc0, sv.take(0), tags) == acc0);
                            while j < sub.entries.len()
                                invariant
                                    j <= sub.entries@.len(),
                                    sv == alist_view(sub.entries@),
                                    all_instantiable(sv, tags),
                                    tags == entries_view(tag_matches.entries@),
                                    next_rules.wf(),
                                    alist_view(next_rules.entries@) == alist_merge(acc0, sv.take(j as int), tags),
                                decreases sub.entries@.len() - j,
                            {
                                assert(sv.take(j + 1).drop_last() =~= sv.take(j as int));
                                assert(sv.take(j + 1).last() == sv[j as int]);
                                let key = &sub.entries[j].0;
                                let list = &sub.entries[j].1;
                                let ghost lrv = rules_view(list@);
                                let ghost acc1 = alist_view(next_rules.entries@);
                                let mut m: usize = 0;
                                assert(alist_append_all(acc1, key@, lrv.take(0), tags) == acc1);
                                while m < list.len()
                                    invariant
                                        j < sub.entries@.len(),
                                        m <= list@.len(),
                                        lrv == rules_view(list@),
                                        sv == alist_view(sub.entries@),
                                        lrv == sv[j as int].1,
                                        all_instantiable(sv, tags),
                                        tags == entries_view(tag_matches.entries@),
                                        next_rules.wf(),
                                        alist_view(next_rules.entries@) == alist_append_all(acc1, key@, lrv.take(m as int), tags),
                                    decreases list@.len() - m,
                                {
                                    assert(lrv.take(m + 1).drop_last() =~= lrv.take(m as int));
                                    assert(lrv.take(m + 1).last() == list@[m as int]@);
                                    assert(spec_try_instantiate(sv[j as int].1[m as int], tags) is Some);
                                    let inst = list[m].instantiate(tag_matches);
                                    collect_rule(&mut next_rules, copy_string(key), inst);
                                    m = m + 1;
                                }
                                assert(lrv.take(list@.len() as int) =~= lrv);
                                j = j + 1;
                            }
                            assert(sv.take(sub.entries@.len() as int) =~= sv);
                        }
                    } else {
                        let inst = next_rule.instantiate(tag_matches);
                        collect_rule(&mut next_rules, copy_string(scope), inst);
                    }
                },
                None => {},
            }
            i = i + 1;
        }
        assert(nv.take(nbrs@.len() as int) =~= nv);
        next_rules
    }

    /// The rules to apply after `rule`, by the scope they apply in: each rule
    /// the graph leads to, instantiated with `tag_matches`; a dummy rule is
    /// replaced by the rules that follow it. The scopes `Parent`, `Method`,
    /// `Class` and `Global` always have a (possibly empty) list.
    pub fn get_next(&self, rule: &Rule, tag_matches: &StrMap<String>) -> (res: StrMap<Vec<Rule>>)
        requires
            self.rules_by_name.wf(),
            next_ok(
                self.rule_graph.spec_graph(),
                rule_map_view(self.rules_by_name@),
                rule@.name,
                entries_view(tag_matches.entries@),
                self.rules_by_name.entries@.len(),
            ),
        ensures
            res.wf(),
            alist_view(res.entries@) == spec_get_next(
                self.rule_graph.spec_graph(),
                rule_map_view(self.rules_by_name@),
                rule@.name,
                entries_view(tag_matches.entries@),
                self.rules_by_name.entries@.len(),
            ),
    {
        let fuel = self.rules_by_name.len();
        let mut next_rules = self.next_core(&rule.name, tag_matches, fuel);
        ensure_key(&mut next_rules, "Parent".to_owned());
        ensure_key(&mut next_rules, "Method".to_owned());
        ensure_key(&mut next_rules, "Class".to_owned());
        ensure_key(&mut next_rules, "Global".to_owned());
        next_rules
    }

    /// The rules that follow `name` as `next_core` finds them; nothing when
    /// finding them reaches an unknown rule, needs more than `fuel` steps
    /// through dummy rules, or meets a rule the table does not instantiate.
    fn next_core_checked(&self, name: &String, tag_matches: &StrMap<String>, fuel: usize) -> (res: Option<StrMap<Vec<Rule>>>)
        requires
            self.rules_by_name.wf(),
        ensures
            res is Some <==> next_ok(
                self.rule_graph.spec_graph(),
                rule_map_view(self.rules_by_name@),
                name@,
                entries_view(tag_matches.entries@),
                fuel as nat,
            ),
            res matches Some(m) ==> m.wf() && alist_view(m.entries@) == next_of(
                self.rule_graph.spec_graph(),
                rule_map_view(self.rules_by_name@),
                name@,
                entries_view(tag_matches.entries@),
                fuel as nat,
            ),
        decreases fuel,
    {
        let ghost g = self.rule_graph.spec_graph();
        let ghost rs = rule_map_view(self.rules_by_name@);
        let ghost tags = entries_view(tag_matches.entries@);
        let nbrs = self.rule_graph.get_neighbors(name);
        let ghost nv = entries_view(nbrs@);
        assert(nv == neighbors_of(g, name@));
        let mut next_rules: StrMap<Vec<Rule>> = StrMap::new();
        assert(alist_view(next_rules.entries@) =~= next_fold(g, rs, nv.take(0), tags, fuel as nat));
        assert(fold_ok(g, rs, nv.take(0), tags, fuel as nat));
        let mut i: usize = 0;
        while i < nbrs.len()
            invariant
                i <= nbrs@.len(),
                nv == entries_view(nbrs@),
                nv == neighbors_of(g, name@),
                g == self.rule_graph.spec_graph(),
                rs == rule_map_view(self.rules_by_name@),
                tags == entries_view(tag_matches.entries@),
                self.rules_by_name.wf(),
                fold_ok(g, rs, nv.take(i as int), tags, fuel as nat),
                next_rules.wf(),
                alist_view(next_rules.entries@) == next_fold(g, rs, nv.take(i as int), tags, fuel as nat),
            decreases nbrs@.len() - i,
        {
            let ghost pre = nv.take(i + 1);
            assert(pre.drop_last() =~= nv.take(i as int));
            assert(pre.last() == nv[i as int]);
            proof {
                if fold_ok(g, rs, nv, tags, fuel as nat) {
                    lemma_fold_ok_prefix(g, rs, nv, tags, fuel as nat, i + 1);
                }
            }
            let scope = &nbrs[i].0;
            let to_rule = &nbrs[i].1;
            match self.rules_by_name.get(to_rule.as_str()) {
                Some(next_rule) => {
                    assert(rs[to_rule@] == next_rule@);
                    if next_rule.is_dummy_rule() {
                        if fuel == 0 {
                            return None;
                        }
                        let sub = match self.next_core_checked(to_rule, tag_matches, fuel - 1) {
                            Some(m) => m,
                            None => {
                                return None;
                            },
                        };
                        let ghost sv = alist_view(sub.entries@);
                        let ghost acc0 = alist_view(next_rules.entries@);
                        let ghost ok_all = fold_ok(g, rs, nv, tags, fuel as nat);
                        assert(sv == next_of(g, rs, to_rule@, tags, (fuel - 1) as nat));
                        assert(ok_all ==> all_instantiable(sv, tags));
                        let mut j: usize = 0;
                        assert(alist_merge(acc0, sv.take(0), tags) == acc0);
                        while j < sub.entries.len()
                            invariant
                                j <= sub.entries@.len(),
                                sv == alist_view(sub.entries@),
                                tags == entries_view(tag_matches.entries@),
                                ok_all ==> all_instantiable(sv, tags),
                                ok_all == next_ok(
                                    self.rule_graph.spec_graph(),
                                    rule_map_view(self.rules_by_name@),
                                    name@,
                                    entries_view(tag_matches.entries@),
                                    fuel as nat,
                                ),
                                forall|a: int, b: int|
                                    0 <= a < j && 0 <= b < sv[a].1.len() ==> (#[trigger] spec_try_instantiate(sv[a].1[b], tags)) is Some,
                                next_rules.wf(),
                                alist_view(next_rules.entries@) == alist_merge(acc0, sv.take(j as int), tags),
                            decreases sub.entries@.len() - j,
                        {
                            assert(sv.take(j + 1).drop_last() =~= sv.take(j as int));
                            assert(sv.take(j + 1).last() == sv[j as int]);
                            let key = &sub.entries[j].0;
                            let list = &sub.entries[j].1;
                            let ghost lrv = rules_view(list@);
                            let ghost acc1 = alist_view(next_rules.entries@);
                            let mut m: usize = 0;
                            assert(alist_append_all(acc1, key@, lrv.take(0), tags) == acc1);
                            while m < list.len()
                                invariant
                                    j < sub.entries@.len(),
                                    m <= list@.len(),
                                    lrv == rules_view(list@),
                                    sv == alist_view(sub.entries@),
                                    lrv == sv[j as int].1,
                                    tags == entries_view(tag_matches.entries@),
                                    ok_all ==> all_instantiable(sv, tags),
                                    ok_all == next_ok(
                                        self.rule_graph.spec_graph(),
                                        rule_map_view(self.rules_by_name@),
                                        name@,
                                        entries_view(tag_matches.entries@),
                                        fuel as nat,
                                    ),
                                    forall|b: int| 0 <= b < m ==> (#[trigger] spec_try_instantiate(sv[j as int].1[b], tags)) is Some,
                                    next_rules.wf(),
                                    alist_view(next_rules.entries@) == alist_append_all(acc1, key@, lrv.take(m as int), tags),
                                decreases list@.len() - m,
                            {
                                assert(lrv.take(m + 1).drop_last() =~= lrv.take(m as int));
                                assert(lrv.take(m + 1).last() == list@[m as int]@);
                                assert(lrv[m as int] == list@[m as int]@);
                                let inst = match list[m].try_instantiate(tag_matches) {
                                    Ok(r) => r,
                                    Err(_) => {
                                        proof {
                                            assert(spec_try_instantiate(sv[j as int].1[m as int], tags) is None);
                                            assert(!all_instantiable(sv, tags));
                                        }
                                        return None;
                                    },
                                };
                                collect_rule(&mut next_rules, copy_string(key), inst);
                                m = m + 1;
                            }
                            assert(lrv.take(list@.len() as int) =~= lrv);
                            j = j + 1;
                        }
                        assert(sv.take(sub.entries@.len() as int) =~= sv);
                        assert(all_instantiable(sv, tags));
                    } else {
                        let inst = match next_rule.try_instantiate(tag_matches) {
                            Ok(r) => r,
                            Err(_) => {
                                return None;
                            },
                        };
                        collect_rule(&mut next_rules, copy_string(scope), inst);
                    }
                },
                None => {
                    return None;
                },
            }
            i = i + 1;
        }
        assert(nv.take(nbrs@.len() as int) =~= nv);
        Some(next_rules)
    }

    /// The rules to apply after `rule`, as `get_next` gives them; nothing when
    /// `get_next` cannot give them: when the rules that follow reach a rule
    /// that is not known, pass through more dummy rules than there are rules,
    /// or include one the table does not instantiate.
    pub fn try_get_next(&self, rule: &Rule, tag_matches: &StrMap<String>) -> (res: Option<StrMap<Vec<Rule>>>)
        requires
            self.rules_by_name.wf(),
        ensures
            res is Some <==> next_ok(
                self.rule_graph.spec_graph(),
                rule_map_view(self.rules_by_name@),
                rule@.name,
                entries_view(tag_matches.entries@),
                self.rules_by_name.entries@.len(),
            ),
            res matches Some(m) ==> m.wf() && alist_view(m.entries@) == spec_get_next(
                self.rule_graph.spec_graph(),
                rule_map_view(self.rules_by_name@),
                rule@.name,
                entries_view(tag_matches.entries@),
                self.rules_by_name.entries@.len(),
            ),
    {
        let fuel = self.rules_by_name.len();
        let mut next_rules = match self.next_core_checked(&rule.name, tag_matches, fuel) {
            Some(m) => m,
            None => {
                return None;
            },
        };
        ensure_key(&mut next_rules, "Parent".to_owned());
        ensure_key(&mut next_rules, "Method".to_owned());
        ensure_key(&mut next_rules, "Class".to_owned());
        ensure_key(&mut next_rules, "Global".to_owned());
        Some(next_rules)
    }
}

/// What holds of all the neighbours holds of the first `n`.
proof fn lemma_fold_ok_prefix(
    g: Map<Seq<char>, Seq<(Seq<char>, Seq<char>)>>,
    rs: Map<Seq<char>, RuleV>,
    nbrs: Seq<(Seq<char>, Seq<char>)>,
    tags: Seq<(Seq<char>, Seq<char>)>,
    fuel: nat,
    n: int,
)
    requires
        fold_ok(g, rs, nbrs, tags, fuel),
        0 <= n <= nbrs.len(),
    ensures
        fold_ok(g, rs, nbrs.take(n), tags, fuel),
    decreases nbrs.len(),
{
    if n < nbrs.len() {
        assert(nbrs.drop_last().take(n) =~= nbrs.take(n));
        lemma_fold_ok_prefix(g, rs, nbrs.drop_last(), tags, fuel, n);
    } else {
        assert(nbrs.take(n) =~= nbrs);
    }
}

/// The global rule a rule gives, if any.
fn global_rule_for(rule: &Rule, tag_captures: &StrMap<String>) -> (res: Option<Rule>)
    requires
        groups_of(rule@).contains(spec_feature_flag_api_group()) ==> rule@.holes is Some,
    ensures
        match res {
            Some(r) => global_of(rule@, *tag_captures) == Some(r@),
            None => global_of(rule@, *tag_captures) is None,
        },
{
    if !rule.is_feature_flag_cleanup() {
        return None;
    }
    match rule.try_instantiate(tag_captures) {
        Ok(r) => {
            let mut r = r;
            r.add_grep_heuristics_for_global_rules(tag_captures);
            Some(r)
        },
        Err(_) => None,
    }
}

/// A name of the rules by name is the name of one of the rules.
proof fn lemma_names_map_member(rules: Seq<RuleV>, k: Seq<char>)
    requires
        names_map(rules).contains_key(k),
    ensures
        exists|i: int| 0 <= i < rules.len() && rules[i] == #[trigger] names_map(rules)[k],
    decreases rules.len(),
{
    if rules.last().name != k {
        lemma_names_map_member(rules.drop_last(), k);
        let i = choose|i: int| 0 <= i < rules.drop_last().len() && rules.drop_last()[i] == #[trigger] names_map(rules.drop_last())[k];
        assert(rules[i] == rules.drop_last()[i]);
    } else {
        assert(rules[rules.len() - 1] == names_map(rules)[k]);
    }
}

} // verus!
