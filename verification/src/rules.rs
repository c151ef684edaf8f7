//! Rewrite rules, their constraints, the edges between rules and the scopes
//! rules apply in, with tag substitution and rule instantiation.

use vstd::prelude::*;
use crate::str_map::{StrMap, entry_lookup, keys_distinct};
use crate::resolver::{debug_list, debug_str, push_debug_list, push_debug_str};
use crate::text::{
    chars_to_string, copy_string, copy_strings, lemma_has_string_contains, lemma_replace_absent,
    replace_all, replace_str, str_eq, str_to_chars, strings_view, vec_contains_string, has_infix,
};

verus! {

/// The group that the rules of a feature-flag API belong to.
pub open spec fn spec_feature_flag_api_group() -> Seq<char> {
    "Feature-flag API cleanup"@
}

fn feature_flag_api_group() -> (s: String)
    ensures
        s@ == spec_feature_flag_api_group(),
{
    "Feature-flag API cleanup".to_owned()
}

/// The predicate of a constraint: `All`, `None` or `Any`.
#[derive(Debug, Clone)]
pub struct Pred(pub String);

impl Pred {
    pub fn is_all(&self) -> (b: bool)
        ensures
            b == (self.0@ == "All"@),
    {
        str_eq("All", self.0.as_str())
    }

    pub fn is_none(&self) -> (b: bool)
        ensures
            b == (self.0@ == "None"@),
    {
        str_eq("None", self.0.as_str())
    }

    pub fn _is_any(&self) -> (b: bool)
        ensures
            b == (self.0@ == "Any"@),
    {
        str_eq("Any", self.0.as_str())
    }
}

/// The mathematical value of a rule's constraint.
pub struct RuleConstraintV {
    pub matcher: Seq<char>,
    pub predicate: Seq<char>,
    pub queries: Seq<Seq<char>>,
}

/// A constraint on where a rule may match: within the scope that `matcher`
/// finds, the `queries` must all match (`All`) or none may (`None`).
#[derive(Debug, Clone)]
pub struct Constraint {
    pub matcher: String,
    pub predicate: Pred,
    pub queries: Vec<String>,
}

impl View for Constraint {
    type V = RuleConstraintV;

    open spec fn view(&self) -> RuleConstraintV {
        RuleConstraintV { matcher: self.matcher@, predicate: self.predicate.0@, queries: strings_view(self.queries@) }
    }
}

impl Constraint {
    /// A copy of the constraint.
    pub fn copy(&self) -> (c: Constraint)
        ensures
            c@ == self@,
    {
        Constraint {
            matcher: copy_string(&self.matcher),
            predicate: Pred(copy_string(&self.predicate.0)),
            queries: copy_strings(&self.queries),
        }
    }
}

/// The mathematical value of a rule.
pub struct RuleV {
    pub name: Seq<char>,
    pub query: Seq<char>,
    pub replace_node: Seq<char>,
    pub replace: Seq<char>,
    pub groups: Option<Seq<Seq<char>>>,
    pub holes: Option<Seq<Seq<char>>>,
    pub constraint: Option<RuleConstraintV>,
    pub grep_heuristics: Option<Seq<Seq<char>>>,
    pub fact: Option<Seq<(Seq<char>, Seq<char>)>>,
}

/// A rewrite rule: a query, the tag of the node to replace and its
/// replacement; the holes that must be filled before it can be applied, the
/// groups it belongs to, an optional constraint and grep heuristics.
#[derive(Debug, Clone)]
pub struct Rule {
    /// The name of the rule (unique).
    pub name: String,
    /// The tree-sitter query.
    pub query: String,
    /// The tag of the node to be replaced.
    pub replace_node: String,
    /// The replacement pattern.
    pub replace: String,
    /// The groups the rule belongs to.
    pub groups: Option<Vec<String>>,
    /// The holes to fill to instantiate the rule.
    pub holes: Option<Vec<String>>,
    /// An additional constraint on matches.
    pub constraint: Option<Constraint>,
    /// Strings that files a match could occur in contain.
    pub grep_heuristics: Option<Vec<String>>,
    /// For a fact rule: the data of the fact recorded at each match, whose
    /// values may hold `@tag`s of the match; a fact rule does not rewrite.
    pub fact: Option<Vec<(String, String)>>,
}

/// The view of an optional table.
pub open spec fn opt_table_view(o: Option<Vec<(String, String)>>) -> Option<Seq<(Seq<char>, Seq<char>)>> {
    match o {
        Some(v) => Some(entries_view(v@)),
        None => None,
    }
}

pub open spec fn opt_strings_view(o: Option<Vec<String>>) -> Option<Seq<Seq<char>>> {
    match o {
        Some(v) => Some(strings_view(v@)),
        None => None,
    }
}

pub open spec fn opt_constraint_view(o: Option<Constraint>) -> Option<RuleConstraintV> {
    match o {
        Some(c) => Some(c@),
        None => None,
    }
}

impl View for Rule {
    type V = RuleV;

    open spec fn view(&self) -> RuleV {
        RuleV {
            name: self.name@,
            query: self.query@,
            replace_node: self.replace_node@,
            replace: self.replace@,
            groups: opt_strings_view(self.groups),
            holes: opt_strings_view(self.holes),
            constraint: opt_constraint_view(self.constraint),
            grep_heuristics: opt_strings_view(self.grep_heuristics),
            fact: opt_table_view(self.fact),
        }
    }
}

fn copy_opt_table(o: &Option<Vec<(String, String)>>) -> (r: Option<Vec<(String, String)>>)
    ensures
        opt_table_view(r) == opt_table_view(*o),
{
    match o {
        Some(v) => {
            let mut c: Vec<(String, String)> = Vec::new();
            let mut i: usize = 0;
            while i < v.len()
                invariant
                    i <= v@.len(),
                    entries_view(c@) == entries_view(v@).take(i as int),
                decreases v@.len() - i,
            {
                let ghost before = c@;
                let a = copy_string(&v[i].0);
                let b = copy_string(&v[i].1);
                c.push((a, b));
                assert(entries_view(c@) =~= entries_view(before).push((v@[i as int].0@, v@[i as int].1@)));
                assert(entries_view(v@).take(i + 1) =~= entries_view(v@).take(i as int).push(
                    (v@[i as int].0@, v@[i as int].1@),
                ));
                i = i + 1;
            }
            assert(entries_view(v@).take(v@.len() as int) =~= entries_view(v@));
            Some(c)
        },
        None => None,
    }
}

fn copy_opt_strings(o: &Option<Vec<String>>) -> (r: Option<Vec<String>>)
    ensures
        opt_strings_view(r) == opt_strings_view(*o),
{
    match o {
        Some(v) => Some(copy_strings(v)),
        None => None,
    }
}

/// The views of a list of rules.
pub open spec fn rules_view(v: Seq<Rule>) -> Seq<RuleV> {
    v.map_values(|r: Rule| r@)
}

/// `@` followed by `tag`: how a tag is written in a query or replacement.
pub open spec fn tag_key(tag: Seq<char>) -> Seq<char> {
    seq!['@'] + tag
}

/// The (key, value) character sequences of a list of string entries.
pub open spec fn entries_view(entries: Seq<(String, String)>) -> Seq<(Seq<char>, Seq<char>)> {
    entries.map_values(|e: (String, String)| (e.0@, e.1@))
}

/// `s` with each `@tag` replaced by its value, the pairs taken in order.
pub open spec fn substitute_pairs(s: Seq<char>, pairs: Seq<(Seq<char>, Seq<char>)>) -> Seq<char>
    decreases pairs.len(),
{
    if pairs.len() == 0 {
        s
    } else {
        substitute_pairs(replace_all(s, tag_key(pairs[0].0), pairs[0].1), pairs.drop_first())
    }
}

/// A text without `@` is left as it is by any substitution.
pub proof fn lemma_substitute_without_tags(s: Seq<char>, pairs: Seq<(Seq<char>, Seq<char>)>)
    requires
        !s.contains('@'),
    ensures
        substitute_pairs(s, pairs) == s,
    decreases pairs.len(),
{
    if pairs.len() > 0 {
        let key = tag_key(pairs[0].0);
        assert(!has_infix(s, key)) by {
            if has_infix(s, key) {
                let k = choose|k: int| 0 <= k && k + key.len() <= s.len() && #[trigger] s.subrange(k, k + key.len()) == key;
                assert(s.subrange(k, k + key.len())[0] == '@');
                assert(s[k] == '@');
            }
        }
        lemma_replace_absent(s, key, pairs[0].1);
        lemma_substitute_without_tags(s, pairs.drop_first());
    }
}

/// `s` with each `@tag` of the substitution table replaced by its value, the
/// entries taken in the table's order.
pub fn substitute_text(s: &str, substitutions: &StrMap<String>) -> (r: String)
    ensures
        r@ == substitute_pairs(s@, entries_view(substitutions.entries@)),
{
    let ghost ev = entries_view(substitutions.entries@);
    let mut out = s.to_owned();
    let mut i: usize = 0;
    assert(ev.skip(0) =~= ev);
    while i < substitutions.entries.len()
        invariant
            i <= substitutions.entries@.len(),
            ev == entries_view(substitutions.entries@),
            substitute_pairs(s@, ev) == substitute_pairs(out@, ev.skip(i as int)),
        decreases substitutions.entries@.len() - i,
    {
        let mut key_chars: Vec<char> = Vec::new();
        key_chars.push('@');
        let tag_chars = str_to_chars(substitutions.entries[i].0.as_str());
        let mut j: usize = 0;
        while j < tag_chars.len()
            invariant
                j <= tag_chars@.len(),
                key_chars@ == seq!['@'] + tag_chars@.take(j as int),
            decreases tag_chars@.len() - j,
        {
            key_chars.push(tag_chars[j]);
            j = j + 1;
            assert(key_chars@ =~= seq!['@'] + tag_chars@.take(j as int));
        }
        assert(tag_chars@.take(tag_chars@.len() as int) =~= tag_chars@);
        let key = chars_to_string(&key_chars);
        assert(ev.skip(i as int)[0] == ev[i as int]);
        assert(ev.skip(i as int).drop_first() =~= ev.skip(i + 1));
        out = replace_str(out.as_str(), key.as_str(), substitutions.entries[i].1.as_str());
        i = i + 1;
    }
    assert(ev.skip(i as int) =~= Seq::<(Seq<char>, Seq<char>)>::empty());
    out
}

/// Replacing the tags of a string with their substitutions.
pub trait RuleHelper {
    fn substitute_tags(&self, substitutions: &StrMap<String>) -> String;
}

impl RuleHelper for String {
    fn substitute_tags(&self, substitutions: &StrMap<String>) -> (r: String)
        ensures
            r@ == substitute_pairs(self@, entries_view(substitutions.entries@)),
    {
        substitute_text(self.as_str(), substitutions)
    }
}

/// The (hole, value) pairs of the substitution table for the holes it has,
/// each hole once, in the order the holes first occur.
pub open spec fn relevant_pairs(holes: Seq<Seq<char>>, subs: Seq<(Seq<char>, Seq<char>)>) -> Seq<(Seq<char>, Seq<char>)>
    decreases holes.len(),
{
    if holes.len() == 0 {
        seq![]
    } else {
        let prev = relevant_pairs(holes.drop_last(), subs);
        let h = holes.last();
        if pairs_lookup(subs, h) is Some && pairs_lookup(prev, h) is None {
            prev.push((h, pairs_lookup(subs, h)->0))
        } else {
            prev
        }
    }
}

/// The value of the first pair whose key is `k`.
pub open spec fn pairs_lookup(pairs: Seq<(Seq<char>, Seq<char>)>, k: Seq<char>) -> Option<Seq<char>>
    decreases pairs.len(),
{
    if pairs.len() == 0 {
        None
    } else if pairs[0].0 == k {
        Some(pairs[0].1)
    } else {
        pairs_lookup(pairs.drop_first(), k)
    }
}

/// What instantiating a rule with a substitution table gives: the rule with
/// its holes' values substituted into its query and replacement, or nothing
/// when a hole has no value (or a hole is listed twice).
pub open spec fn spec_try_instantiate(r: RuleV, subs: Seq<(Seq<char>, Seq<char>)>) -> Option<RuleV> {
    match r.holes {
        None => Some(r),
        Some(holes) => {
            let rel = relevant_pairs(holes, subs);
            if rel.len() == holes.len() {
                Some(RuleV { query: substitute_pairs(r.query, rel), replace: substitute_pairs(r.replace, rel), ..r })
            } else {
                None
            }
        },
    }
}

/// The group names of a rule.
pub open spec fn groups_of(r: RuleV) -> Seq<Seq<char>> {
    match r.groups {
        Some(g) => g,
        None => seq![],
    }
}

/// The rules by name; a later rule replaces an earlier one of the same name.
pub open spec fn names_map(rules: Seq<RuleV>) -> Map<Seq<char>, RuleV>
    decreases rules.len(),
{
    if rules.len() == 0 {
        Map::empty()
    } else {
        names_map(rules.drop_last()).insert(rules.last().name, rules.last())
    }
}

/// `m` with `v` appended to the list of `k`.
pub open spec fn append_to<T>(m: Map<Seq<char>, Seq<T>>, k: Seq<char>, v: T) -> Map<Seq<char>, Seq<T>> {
    m.insert(k, (if m.contains_key(k) { m[k] } else { seq![] }).push(v))
}

/// `m` with `name` appended to the list of each tag.
pub open spec fn add_to_groups(m: Map<Seq<char>, Seq<Seq<char>>>, tags: Seq<Seq<char>>, name: Seq<char>) -> Map<Seq<char>, Seq<Seq<char>>>
    decreases tags.len(),
{
    if tags.len() == 0 {
        m
    } else {
        append_to(add_to_groups(m, tags.drop_last(), name), tags.last(), name)
    }
}

/// The rule names of each group, in the order of the rules.
pub open spec fn groups_map(rules: Seq<RuleV>) -> Map<Seq<char>, Seq<Seq<char>>>
    decreases rules.len(),
{
    if rules.len() == 0 {
        Map::empty()
    } else {
        add_to_groups(groups_map(rules.drop_last()), groups_of(rules.last()), rules.last().name)
    }
}

/// The views of a map's rules.
pub open spec fn rule_map_view(m: Map<Seq<char>, Rule>) -> Map<Seq<char>, RuleV> {
    m.map_values(|r: Rule| r@)
}

/// The views of a map's string lists.
pub open spec fn strings_map_view(m: Map<Seq<char>, Vec<String>>) -> Map<Seq<char>, Seq<Seq<char>>> {
    m.map_values(|v: Vec<String>| strings_view(v@))
}

/// Collecting values into the list of a key.
pub trait MapOfVec<T, V> {
    fn collect(&mut self, key: T, value: V);
}

impl<U> MapOfVec<String, U> for StrMap<Vec<U>> {
    /// Appends `value` to the list of `key`, starting a list for a new key.
    fn collect(&mut self, key: String, value: U)
        ensures
            old(self).wf() ==> final(self).wf(),
            old(self).wf() ==> final(self)@.contains_key(key@),
            old(self).wf() ==> final(self)@[key@]@ == (if old(self)@.contains_key(key@) {
                old(self)@[key@]@
            } else {
                Seq::<U>::empty()
            }).push(value),
            old(self).wf() ==> forall|k: Seq<char>|
                k != key@ ==> (#[trigger] final(self)@.contains_key(k) == old(self)@.contains_key(k)) && (
                old(self)@.contains_key(k) ==> final(self)@[k] == old(self)@[k]),
    {
        match self.find(key.as_str()) {
            Some(i) => {
                let ghost old_entries = self.entries@;
                self.entries[i].1.push(value);
                proof {
                    if keys_distinct(old_entries) {
                        let e = self.entries@[i as int];
                        assert(self.entries@ =~= old_entries.update(i as int, e));
                        assert forall|a: int, b: int| 0 <= a < b < self.entries@.len() implies (
                        #[trigger] self.entries@[a]).0@ != (#[trigger] self.entries@[b]).0@ by {
                            assert(old_entries[a].0@ != old_entries[b].0@);
                        }
                        assert forall|q: Seq<char>| entry_lookup(self.entries@, q) == (if q == key@ {
                            Some(e.1)
                        } else {
                            entry_lookup(old_entries, q)
                        }) by {
                            crate::str_map::lemma_lookup_update(old_entries, i as int, e, q);
                        }
                    }
                }
            },
            None => {
                let ghost old_entries = self.entries@;
                let ghost kv = key@;
                let mut v: Vec<U> = Vec::new();
                v.push(value);
                self.entries.push((key, v));
                proof {
                    let e = self.entries@.last();
                    assert(self.entries@ =~= old_entries.push(e));
                    assert forall|a: int, b: int| 0 <= a < b < self.entries@.len() && keys_distinct(old_entries) implies (
                    #[trigger] self.entries@[a]).0@ != (#[trigger] self.entries@[b]).0@ by {
                        if b == old_entries.len() {
                            crate::str_map::lemma_lookup_index(old_entries, kv);
                            assert(old_entries[a].0@ != kv);
                        }
                    }
                    assert forall|q: Seq<char>| entry_lookup(self.entries@, q) == (if q == kv {
                        Some(e.1)
                    } else {
                        entry_lookup(old_entries, q)
                    }) by {
                        crate::str_map::lemma_lookup_push(old_entries, e, q);
                    }
                }
            },
        }
    }
}

impl Rule {
    /// A rule from its parts.
    pub fn new(
        name: String,
        query: String,
        replace_node: String,
        replace: String,
        groups: Option<Vec<String>>,
        holes: Option<Vec<String>>,
        constraint: Option<Constraint>,
        grep_heuristics: Option<Vec<String>>,
    ) -> (r: Rule)
        ensures
            r.name == name,
            r.query == query,
            r.replace_node == replace_node,
            r.replace == replace,
            r.groups == groups,
            r.holes == holes,
            r.constraint == constraint,
            r.grep_heuristics == grep_heuristics,
            r.fact is None,
    {
        Rule { name, query, replace_node, replace, groups, holes, constraint, grep_heuristics, fact: None }
    }

    /// The rule as a fact rule: it records `fact` at each match instead of
    /// rewriting.
    pub fn with_fact(self, fact: Vec<(String, String)>) -> (r: Rule)
        ensures
            r@ == (RuleV { fact: Some(entries_view(fact@)), ..self@ }),
    {
        Rule { fact: Some(fact), ..self }
    }

    /// The rule with empty name, query, replacement and node tag, and no
    /// groups, holes, constraint or grep heuristics.
    pub fn dummy() -> (r: Rule)
        ensures
            r@ == (RuleV {
                name: seq![],
                query: seq![],
                replace_node: seq![],
                replace: seq![],
                groups: None,
                holes: None,
                constraint: None,
                grep_heuristics: None,
                fact: None,
            }),
    {
        Rule {
            name: String::new(),
            query: String::new(),
            replace_node: String::new(),
            replace: String::new(),
            groups: None,
            holes: None,
            constraint: None,
            grep_heuristics: None,
            fact: None,
        }
    }

    /// A copy of the rule.
    pub fn copy(&self) -> (r: Rule)
        ensures
            r@ == self@,
    {
        Rule {
            name: copy_string(&self.name),
            query: copy_string(&self.query),
            replace_node: copy_string(&self.replace_node),
            replace: copy_string(&self.replace),
            groups: copy_opt_strings(&self.groups),
            holes: copy_opt_strings(&self.holes),
            constraint: match &self.constraint {
                Some(c) => Some(c.copy()),
                None => None,
            },
            grep_heuristics: copy_opt_strings(&self.grep_heuristics),
            fact: copy_opt_table(&self.fact),
        }
    }

    /// The rule with `query` and `replace` in place of its own.
    pub fn update(&self, query: String, replace: String) -> (r: Rule)
        ensures
            r@ == (RuleV { query: query@, replace: replace@, ..self@ }),
    {
        let c = self.copy();
        Rule { query, replace, ..c }
    }

    /// Whether the rule belongs to the feature-flag API group.
    pub fn is_feature_flag_cleanup(&self) -> (b: bool)
        ensures
            b == groups_of(self@).contains(spec_feature_flag_api_group()),
    {
        let group = feature_flag_api_group();
        match &self.groups {
            Some(g) => {
                proof {
                    lemma_has_string_contains(g@, group@);
                }
                vec_contains_string(g, group.as_str())
            },
            None => false,
        }
    }

    /// A dummy rule has neither a query nor a replacement; it only links
    /// other rules in the rule graph.
    pub fn is_dummy_rule(&self) -> (b: bool)
        ensures
            b == (self@.query.len() == 0 && self@.replace.len() == 0),
    {
        self.query.as_str().is_empty() && self.replace.as_str().is_empty()
    }

    /// The query of the rule.
    /// The rule's grep heuristics; none when it has none.
    pub fn grep_heuristics(&self) -> (v: Vec<String>)
        ensures
            strings_view(v@) == (match self@.grep_heuristics {
                Some(g) => g,
                None => Seq::<Seq<char>>::empty(),
            }),
    {
        match &self.grep_heuristics {
            Some(g) => copy_strings(g),
            None => Vec::new(),
        }
    }

    /// The rule's holes; none when it has none.
    pub fn holes(&self) -> (v: Vec<String>)
        ensures
            strings_view(v@) == (match self@.holes {
                Some(h) => h,
                None => Seq::<Seq<char>>::empty(),
            }),
    {
        match &self.holes {
            Some(h) => copy_strings(h),
            None => Vec::new(),
        }
    }

    /// The groups the rule belongs to; none when it has none.
    pub fn groups(&self) -> (v: Vec<String>)
        ensures
            strings_view(v@) == groups_of(self@),
    {
        match &self.groups {
            Some(g) => copy_strings(g),
            None => Vec::new(),
        }
    }

    pub fn get_query(&self) -> (q: String)
        ensures
            q@ == self@.query,
    {
        copy_string(&self.query)
    }

    /// Adds the rule to the feature-flag API group.
    pub fn add_to_feature_flag_api_group(&mut self)
        ensures
            final(self)@ == (RuleV {
                groups: Some(groups_of(old(self)@).push(spec_feature_flag_api_group())),
                ..old(self)@
            }),
    {
        let group_name = feature_flag_api_group();
        match &mut self.groups {
            Some(g) => {
                g.push(group_name);
                assert(strings_view(g@) =~= groups_of(old(self)@).push(spec_feature_flag_api_group()));
            },
            None => {
                let mut g: Vec<String> = Vec::new();
                g.push(group_name);
                assert(strings_view(g@) =~= seq![spec_feature_flag_api_group()]);
                self.groups = Some(g);
            },
        }
    }

    /// Records, as grep heuristics, the values of the rule's holes that the
    /// substitution table has, in the order of the holes.
    pub fn add_grep_heuristics_for_global_rules(&mut self, substitutions: &StrMap<String>)
        requires
            old(self).holes is Some,
        ensures
            final(self)@ == (RuleV {
                grep_heuristics: Some(hole_values(old(self)@.holes->0, substitutions@)),
                ..old(self)@
            }),
    {
        let mut gh: Vec<String> = Vec::new();
        let holes = match &self.holes {
            Some(h) => h,
            None => {
                return;
            },
        };
        let ghost hv = strings_view(holes@);
        let mut i: usize = 0;
        while i < holes.len()
            invariant
                i <= holes@.len(),
                hv == strings_view(holes@),
                strings_view(gh@) == hole_values(hv.take(i as int), substitutions@),
            decreases holes@.len() - i,
        {
            assert(hv.take(i + 1).drop_last() =~= hv.take(i as int));
            match substitutions.get(holes[i].as_str()) {
                Some(x) => {
                    gh.push(copy_string(x));
                    assert(strings_view(gh@) =~= hole_values(hv.take(i as int), substitutions@).push(x@));
                },
                None => {},
            }
            i = i + 1;
        }
        assert(hv.take(holes@.len() as int) =~= hv);
        self.grep_heuristics = Some(gh);
    }
}

/// Looking a key up among the views of string entries.
pub proof fn lemma_pairs_lookup_entries(entries: Seq<(String, String)>, k: Seq<char>)
    ensures
        (pairs_lookup(entries_view(entries), k) is Some) == (entry_lookup(entries, k) is Some),
        entry_lookup(entries, k) is Some ==> pairs_lookup(entries_view(entries), k)->0 == entry_lookup(entries, k)->0@,
    decreases entries.len(),
{
    if entries.len() > 0 {
        assert(entries_view(entries).drop_first() =~= entries_view(entries.drop_first()));
        lemma_pairs_lookup_entries(entries.drop_first(), k);
    }
}

proof fn lemma_collect_view(old_m: Map<Seq<char>, Vec<String>>, new_m: Map<Seq<char>, Vec<String>>, key: Seq<char>, value: String)
    requires
        new_m.contains_key(key),
        new_m[key]@ == (if old_m.contains_key(key) { old_m[key]@ } else { Seq::<String>::empty() }).push(value),
        forall|k: Seq<char>|
            k != key ==> (#[trigger] new_m.contains_key(k) == old_m.contains_key(k)) && (old_m.contains_key(k)
                ==> new_m[k] == old_m[k]),
    ensures
        strings_map_view(new_m) == append_to(strings_map_view(old_m), key, value@),
{
    let a = strings_map_view(new_m);
    let b = append_to(strings_map_view(old_m), key, value@);
    assert forall|k: Seq<char>| #[trigger] a.contains_key(k) == b.contains_key(k) by {
        if k != key {
            assert(new_m.contains_key(k) == old_m.contains_key(k));
        }
    }
    assert forall|k: Seq<char>| a.contains_key(k) implies #[trigger] a[k] == b[k] by {
        if k == key {
            if old_m.contains_key(key) {
                assert(strings_view(old_m[key]@.push(value)) =~= strings_view(old_m[key]@).push(value@));
            } else {
                assert(strings_view(Seq::<String>::empty().push(value)) =~= seq![value@]);
            }
        }
    }
    assert(a =~= b);
}

/// An optional list of strings in Debug form: `None` or `Some([..])`.
pub open spec fn debug_opt_list(o: Option<Seq<Seq<char>>>) -> Seq<char> {
    match o {
        None => "None"@,
        Some(l) => "Some("@ + debug_list(l) + ")"@,
    }
}

/// A constraint in Debug form.
pub open spec fn debug_constraint(c: RuleConstraintV) -> Seq<char> {
    "Constraint { matcher: "@ + debug_str(c.matcher) + ", predicate: Pred("@ + debug_str(c.predicate)
        + "), queries: "@ + debug_list(c.queries) + " }"@
}

/// An optional constraint in Debug form.
pub open spec fn debug_opt_constraint(o: Option<RuleConstraintV>) -> Seq<char> {
    match o {
        None => "None"@,
        Some(c) => "Some("@ + debug_constraint(c) + ")"@,
    }
}

/// The first fields of a rule in Debug form, from its name to its
/// replacement.
pub open spec fn debug_rule_head(r: RuleV) -> Seq<char> {
    "Rule { name: "@ + debug_str(r.name) + ", query: "@ + debug_str(r.query) + ", replace_node: "@ + debug_str(
        r.replace_node,
    ) + ", replace: "@ + debug_str(r.replace)
}

/// The last fields of a rule in Debug form, from its groups on.
pub open spec fn debug_rule_tail(r: RuleV) -> Seq<char> {
    ", groups: "@ + debug_opt_list(r.groups) + ", holes: "@ + debug_opt_list(r.holes) + ", constraint: "@
        + debug_opt_constraint(r.constraint) + ", grep_heuristics: "@ + debug_opt_list(r.grep_heuristics) + " }"@
}

/// A rule in Debug form, its fields in order.
pub open spec fn debug_rule(r: RuleV) -> Seq<char> {
    debug_rule_head(r) + debug_rule_tail(r)
}

/// The entries of a table in Debug form, `"k": "v"`, separated by `, `.
pub open spec fn debug_entries(es: Seq<(Seq<char>, Seq<char>)>) -> Seq<char>
    decreases es.len(),
{
    if es.len() == 0 {
        seq![]
    } else if es.len() == 1 {
        debug_str(es[0].0) + ": "@ + debug_str(es[0].1)
    } else {
        debug_entries(es.drop_last()) + ", "@ + debug_str(es.last().0) + ": "@ + debug_str(es.last().1)
    }
}

/// The message for a rule whose holes the table cannot fill: the rule, its
/// holes and the table, each in Debug form (the table's entries in their
/// order).
pub open spec fn instantiation_message(r: RuleV, table: Seq<(Seq<char>, Seq<char>)>) -> Seq<char> {
    "Could not instantiate a rule - "@ + debug_rule(r) + ". Some Holes "@ + debug_opt_list(r.holes)
        + " not found in table {"@ + debug_entries(table) + "}"@
}

/// Appends `s` to `out`.
fn push_text(out: &mut Vec<char>, s: &str)
    ensures
        final(out)@ == old(out)@ + s@,
{
    let mut v = str_to_chars(s);
    out.append(&mut v);
}

/// Appends an optional list of strings in Debug form to `out`.
fn push_debug_opt_list(out: &mut Vec<char>, o: &Option<Vec<String>>)
    ensures
        final(out)@ == old(out)@ + debug_opt_list(opt_strings_view(*o)),
{
    match o {
        None => push_text(out, "None"),
        Some(l) => {
            push_text(out, "Some(");
            push_debug_list(out, l);
            push_text(out, ")");
        },
    }
}

/// Appends an optional constraint in Debug form to `out`.
fn push_debug_opt_constraint(out: &mut Vec<char>, o: &Option<Constraint>)
    ensures
        final(out)@ == old(out)@ + debug_opt_constraint(opt_constraint_view(*o)),
{
    let ghost start = out@;
    match o {
        None => push_text(out, "None"),
        Some(c) => {
            push_text(out, "Some(");
            let ghost a = out@;
            push_text(out, "Constraint { matcher: ");
            push_debug_str(out, c.matcher.as_str());
            push_text(out, ", predicate: Pred(");
            push_debug_str(out, c.predicate.0.as_str());
            push_text(out, "), queries: ");
            push_debug_list(out, &c.queries);
            push_text(out, " }");
            assert(out@ =~= a + debug_constraint(c@));
            push_text(out, ")");
            assert(out@ =~= start + debug_opt_constraint(opt_constraint_view(*o)));
        },
    }
}

/// Appends the first fields of a rule in Debug form to `out`.
fn push_debug_rule_head(out: &mut Vec<char>, rule: &Rule)
    ensures
        final(out)@ == old(out)@ + debug_rule_head(rule@),
{
    let ghost start = out@;
    push_text(out, "Rule { name: ");
    push_debug_str(out, rule.name.as_str());
    push_text(out, ", query: ");
    push_debug_str(out, rule.query.as_str());
    push_text(out, ", replace_node: ");
    push_debug_str(out, rule.replace_node.as_str());
    push_text(out, ", replace: ");
    push_debug_str(out, rule.replace.as_str());
    assert(out@ =~= start + debug_rule_head(rule@));
}

/// Appends the last fields of a rule in Debug form to `out`.
#[verifier::rlimit(40)]
fn push_debug_rule_tail(out: &mut Vec<char>, rule: &Rule)
    ensures
        final(out)@ == old(out)@ + debug_rule_tail(rule@),
{
    let ghost start = out@;
    push_text(out, ", groups: ");
    push_debug_opt_list(out, &rule.groups);
    push_text(out, ", holes: ");
    push_debug_opt_list(out, &rule.holes);
    assert(out@ =~= start + ", groups: "@ + debug_opt_list(rule@.groups) + ", holes: "@ + debug_opt_list(rule@.holes));
    let ghost mid = out@;
    push_text(out, ", constraint: ");
    push_debug_opt_constraint(out, &rule.constraint);
    push_text(out, ", grep_heuristics: ");
    push_debug_opt_list(out, &rule.grep_heuristics);
    push_text(out, " }");
    assert(out@ =~= mid + ", constraint: "@ + debug_opt_constraint(rule@.constraint) + ", grep_heuristics: "@
        + debug_opt_list(rule@.grep_heuristics) + " }"@);
    assert(out@ =~= start + debug_rule_tail(rule@));
}

/// Appends the entries of a table in Debug form to `out`.
fn push_debug_entries(out: &mut Vec<char>, es: &Vec<(String, String)>)
    ensures
        final(out)@ == old(out)@ + debug_entries(entries_view(es@)),
{
    let ghost ev = entries_view(es@);
    let ghost before = out@;
    let mut i: usize = 0;
    while i < es.len()
        invariant
            i <= es@.len(),
            ev == entries_view(es@),
            out@ == before + debug_entries(ev.take(i as int)),
        decreases es@.len() - i,
    {
        assert(ev.take(i + 1).drop_last() =~= ev.take(i as int));
        assert(ev.take(i + 1).last() == (es@[i as int].0@, es@[i as int].1@));
        if i > 0 {
            push_text(out, ", ");
        } else {
            assert(ev.take(0) =~= Seq::<(Seq<char>, Seq<char>)>::empty());
            assert(ev.take(1)[0] == (es@[0].0@, es@[0].1@));
        }
        let ghost mid = out@;
        push_debug_str(out, es[i].0.as_str());
        push_text(out, ": ");
        push_debug_str(out, es[i].1.as_str());
        assert(out@ =~= before + debug_entries(ev.take(i + 1)));
        i = i + 1;
    }
    assert(ev.take(es@.len() as int) =~= ev);
}

/// The message for a rule whose holes the table cannot fill.
fn instantiation_error(rule: &Rule, substitutions: &StrMap<String>) -> (s: String)
    ensures
        s@ == instantiation_message(rule@, entries_view(substitutions.entries@)),
{
    let mut out: Vec<char> = Vec::new();
    push_text(&mut out, "Could not instantiate a rule - ");
    let ghost a = out@;
    push_debug_rule_head(&mut out, rule);
    push_debug_rule_tail(&mut out, rule);
    assert(out@ =~= a + debug_rule(rule@));
    push_text(&mut out, ". Some Holes ");
    push_debug_opt_list(&mut out, &rule.holes);
    push_text(&mut out, " not found in table {");
    push_debug_entries(&mut out, &substitutions.entries);
    push_text(&mut out, "}");
    assert(out@ =~= instantiation_message(rule@, entries_view(substitutions.entries@)));
    chars_to_string(&out)
}

impl Rule {
    /// Instantiates the rule with the substitution table: the values of its
    /// holes replace their tags in the query and the replacement. Fails when
    /// the table lacks a hole (or a hole is listed twice).
    pub fn try_instantiate(&self, substitutions: &StrMap<String>) -> (res: Result<Rule, String>)
        ensures
            match res {
                Ok(r) => spec_try_instantiate(self@, entries_view(substitutions.entries@)) == Some(r@),
                Err(_) => spec_try_instantiate(self@, entries_view(substitutions.entries@)) is None,
            },
    {
        let ghost ev = entries_view(substitutions.entries@);
        let holes = match &self.holes {
            None => {
                return Ok(self.copy());
            },
            Some(h) => h,
        };
        let ghost hv = strings_view(holes@);
        let mut rel: StrMap<String> = StrMap::new();
        let mut i: usize = 0;
        while i < holes.len()
            invariant
                i <= holes@.len(),
                hv == strings_view(holes@),
                ev == entries_view(substitutions.entries@),
                entries_view(rel.entries@) == relevant_pairs(hv.take(i as int), ev),
            decreases holes@.len() - i,
        {
            assert(hv.take(i + 1).drop_last() =~= hv.take(i as int));
            assert(hv.take(i + 1).last() == holes@[i as int]@);
            proof {
                lemma_pairs_lookup_entries(substitutions.entries@, holes@[i as int]@);
                lemma_pairs_lookup_entries(rel.entries@, holes@[i as int]@);
            }
            match substitutions.get(holes[i].as_str()) {
                Some(v) => {
                    if !rel.contains_key(holes[i].as_str()) {
                        let ghost before = rel.entries@;
                        rel.entries.push((copy_string(&holes[i]), copy_string(v)));
                        assert(entries_view(rel.entries@) =~= entries_view(before).push((holes@[i as int]@, v@)));
                    }
                },
                None => {},
            }
            i = i + 1;
        }
        assert(hv.take(holes@.len() as int) =~= hv);
        if rel.len() == holes.len() {
            let q = substitute_text(self.query.as_str(), &rel);
            let r = substitute_text(self.replace.as_str(), &rel);
            Ok(self.update(q, r))
        } else {
            Err(instantiation_error(self, substitutions))
        }
    }

    /// Instantiates the rule with the substitution table, which must fill
    /// all its holes.
    pub fn instantiate(&self, substitutions: &StrMap<String>) -> (r: Rule)
        requires
            spec_try_instantiate(self@, entries_view(substitutions.entries@)) is Some,
        ensures
            spec_try_instantiate(self@, entries_view(substitutions.entries@)) == Some(r@),
    {
        match self.try_instantiate(substitutions) {
            Ok(r) => r,
            Err(_) => self.copy(),
        }
    }

    /// The rules by name (a later rule replaces an earlier one of the same
    /// name) and the names of the rules of each group; a rule may belong to
    /// several groups.
    pub fn get_grouped_rules(rules: &Vec<Rule>) -> (res: (StrMap<Rule>, StrMap<Vec<String>>))
        ensures
            res.0.wf(),
            res.1.wf(),
            rule_map_view(res.0@) == names_map(rules_view(rules@)),
            strings_map_view(res.1@) == groups_map(rules_view(rules@)),
    {
        let ghost rv = rules_view(rules@);
        let mut rules_by_name: StrMap<Rule> = StrMap::new();
        let mut rules_by_group: StrMap<Vec<String>> = StrMap::new();
        assert(rule_map_view(rules_by_name@) =~= names_map(rv.take(0)));
        assert(strings_map_view(rules_by_group@) =~= groups_map(rv.take(0)));
        let mut i: usize = 0;
        while i < rules.len()
            invariant
                i <= rules@.len(),
                rv == rules_view(rules@),
                rules_by_name.wf(),
                rules_by_group.wf(),
                rule_map_view(rules_by_name@) == names_map(rv.take(i as int)),
                strings_map_view(rules_by_group@) == groups_map(rv.take(i as int)),
            decreases rules@.len() - i,
        {
            let rule = &rules[i];
            assert(rv.take(i + 1).drop_last() =~= rv.take(i as int));
            assert(rv.take(i + 1).last() == rule@);
            let ghost old_names = rules_by_name@;
            rules_by_name.insert(copy_string(&rule.name), rule.copy());
            assert(rule_map_view(rules_by_name@) =~= rule_map_view(old_names).insert(rule@.name, rule@));
            let ghost base = groups_map(rv.take(i as int));
            match &rule.groups {
                Some(groups) => {
                    let ghost gv = strings_view(groups@);
                    let mut j: usize = 0;
                    assert(add_to_groups(base, gv.take(0), rule@.name) == base);
                    while j < groups.len()
                        invariant
                            j <= groups@.len(),
                            gv == strings_view(groups@),
                            gv == groups_of(rule@),
                            rules_by_group.wf(),
                            strings_map_view(rules_by_group@) == add_to_groups(base, gv.take(j as int), rule@.name),
                        decreases groups@.len() - j,
                    {
                        assert(gv.take(j + 1).drop_last() =~= gv.take(j as int));
                        let ghost before = rules_by_group@;
                        rules_by_group.collect(copy_string(&groups[j]), copy_string(&rule.name));
                        proof {
                            lemma_collect_view(before, rules_by_group@, groups@[j as int]@, rules_by_group@[groups@[j as int]@]@.last());
                        }
                        j = j + 1;
                    }
                    assert(gv.take(groups@.len() as int) =~= gv);
                },
                None => {
                    assert(groups_of(rule@) =~= Seq::<Seq<char>>::empty());
                },
            }
            i = i + 1;
        }
        assert(rv.take(rules@.len() as int) =~= rv);
        (rules_by_name, rules_by_group)
    }
}

/// The values of the holes that the table has, in the order of the holes.
pub open spec fn hole_values(holes: Seq<Seq<char>>, subs: Map<Seq<char>, String>) -> Seq<Seq<char>>
    decreases holes.len(),
{
    if holes.len() == 0 {
        seq![]
    } else if subs.contains_key(holes.last()) {
        hole_values(holes.drop_last(), subs).push(subs[holes.last()]@)
    } else {
        hole_values(holes.drop_last(), subs)
    }
}

/// An edge of the rule graph: after `from` (a rule or a group), the rules
/// `to` (rules or groups) apply in `scope`.
#[derive(Debug, Clone)]
pub struct Edge {
    pub from: String,
    pub to: Vec<String>,
    pub scope: String,
}

/// The mathematical value of an edge.
pub struct EdgeV {
    pub from: Seq<char>,
    pub to: Seq<Seq<char>>,
    pub scope: Seq<char>,
}

impl View for Edge {
    type V = EdgeV;

    open spec fn view(&self) -> EdgeV {
        EdgeV { from: self.from@, to: strings_view(self.to@), scope: self.scope@ }
    }
}

/// The views of a list of edges.
pub open spec fn edges_view(v: Seq<Edge>) -> Seq<EdgeV> {
    v.map_values(|e: Edge| e@)
}

/// The edges of a rule graph.
#[derive(Debug, Clone)]
pub struct Edges {
    pub edges: Vec<Edge>,
}

/// A list of rules.
#[derive(Debug, Clone)]
pub struct Rules {
    pub rules: Vec<Rule>,
}

/// The scope generators of a language.
#[derive(Debug, Clone)]
pub struct ScopeConfig {
    pub scopes: Vec<ScopeGenerator>,
}

/// How to find the enclosing scope of a name (such as `Method` or `Class`).
#[derive(Debug, Clone)]
pub struct ScopeGenerator {
    pub name: String,
    pub rules: Vec<ScopeQueryGenerator>,
}

/// A query that matches an enclosing node and the query that, instantiated
/// with its captures, matches exactly that node.
#[derive(Debug, Clone)]
pub struct ScopeQueryGenerator {
    pub matcher: String,
    pub generator: String,
}

} // verus!
