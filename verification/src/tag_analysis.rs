//! The lattice of a definite-assignment analysis over the rule graph: the
//! capture groups that reach a point along every path.

use vstd::prelude::*;
use crate::constraint_checker::{
    group_names_view, regex_capture_names, regex_find_all, regex_group_names, regex_matches_of,
};
use crate::rule_graph::ParameterizedRuleGraph;
use crate::rules::{Rule, RuleV, entries_view, rules_view};
use crate::filter::{CGPattern, PatternType, spec_pattern_type};
use crate::tsq_scan::{query_captures, query_predicates, scan_query};
use crate::text::{copy_string, lemma_has_string_contains, seq_has_string, strings_view, vec_contains_string};

verus! {

/// The mathematical value of a state: a set of capture groups, and whether
/// the state is the bottom element.
pub struct SigmaV {
    pub variables: Set<Seq<char>>,
    pub is_bottom: bool,
}

/// A state of the analysis: the capture groups defined on every path, or the
/// bottom element (the state of a point no path has reached yet), which is
/// below every set.
#[derive(Debug, Clone)]
pub struct DefiniteAssignmentSigma {
    variables: Vec<String>,
    is_bottom: bool,
}

impl View for DefiniteAssignmentSigma {
    type V = SigmaV;

    closed spec fn view(&self) -> SigmaV {
        SigmaV { variables: strings_view(self.variables@).to_set(), is_bottom: self.is_bottom }
    }
}

/// The join of two states: the intersection of their sets, with the bottom
/// element as the identity.
pub open spec fn spec_join(a: SigmaV, b: SigmaV) -> SigmaV {
    if a.is_bottom {
        b
    } else if b.is_bottom {
        a
    } else {
        SigmaV { variables: a.variables.intersect(b.variables), is_bottom: false }
    }
}

/// A bottom element holds no variables, as the analysis makes it.
pub open spec fn canonical(a: SigmaV) -> bool {
    a.is_bottom ==> a.variables == Set::<Seq<char>>::empty()
}

impl DefiniteAssignmentSigma {
    /// The capture groups of the state.
    pub fn variables(&self) -> (v: &Vec<String>)
        ensures
            strings_view(v@).to_set() == self@.variables,
    {
        &self.variables
    }

    /// Whether the state is the bottom element.
    pub fn is_bottom(&self) -> (b: bool)
        ensures
            b == self@.is_bottom,
    {
        self.is_bottom
    }

    /// The bottom element.
    pub fn bottom() -> (s: DefiniteAssignmentSigma)
        ensures
            s@ == (SigmaV { variables: Set::empty(), is_bottom: true }),
    {
        let s = DefiniteAssignmentSigma { variables: Vec::new(), is_bottom: true };
        assert(strings_view(s.variables@).to_set() =~= Set::empty());
        s
    }

    /// The state whose capture groups are `variables`.
    pub fn from_variables(variables: Vec<String>) -> (s: DefiniteAssignmentSigma)
        ensures
            s@ == (SigmaV { variables: strings_view(variables@).to_set(), is_bottom: false }),
    {
        DefiniteAssignmentSigma { variables, is_bottom: false }
    }

    /// A copy of the state.
    pub fn copy(&self) -> (s: DefiniteAssignmentSigma)
        ensures
            s@ == self@,
    {
        let mut v: Vec<String> = Vec::new();
        let mut i: usize = 0;
        while i < self.variables.len()
            invariant
                i <= self.variables@.len(),
                v@.len() == i,
                forall|j: int| 0 <= j < i ==> (#[trigger] v@[j])@ == self.variables@[j]@,
            decreases self.variables@.len() - i,
        {
            v.push(copy_string(&self.variables[i]));
            i = i + 1;
        }
        assert(strings_view(v@) =~= strings_view(self.variables@));
        DefiniteAssignmentSigma { variables: v, is_bottom: self.is_bottom }
    }

    /// The join of two states: the capture groups both define (their
    /// intersection); the bottom element gives the other state.
    pub fn join(&self, other: &Self) -> (s: DefiniteAssignmentSigma)
        ensures
            s@ == spec_join(self@, other@),
    {
        if self.is_bottom {
            return other.copy();
        }
        if other.is_bottom {
            return self.copy();
        }
        let ghost sv = strings_view(self.variables@);
        let ghost ov = strings_view(other.variables@);
        let mut v: Vec<String> = Vec::new();
        let mut i: usize = 0;
        while i < self.variables.len()
            invariant
                i <= self.variables@.len(),
                sv == strings_view(self.variables@),
                ov == strings_view(other.variables@),
                strings_view(v@).to_set() == sv.take(i as int).to_set().intersect(ov.to_set()),
            decreases self.variables@.len() - i,
        {
            let x = &self.variables[i];
            proof {
                lemma_has_string_contains(other.variables@, x@);
            }
            let ghost before = v@;
            if vec_contains_string(&other.variables, x.as_str()) {
                v.push(copy_string(x));
                assert(strings_view(v@) =~= strings_view(before).push(x@));
            }
            proof {
                assert(sv.take(i + 1) =~= sv.take(i as int).push(x@));
                lemma_push_to_set(sv.take(i as int), x@);
                lemma_push_to_set(strings_view(before), x@);
                assert(ov.contains(x@) == seq_has_string(other.variables@, x@));
                assert(strings_view(v@).to_set() =~= sv.take(i + 1).to_set().intersect(ov.to_set()));
            }
            i = i + 1;
        }
        assert(sv.take(self.variables@.len() as int) =~= sv);
        DefiniteAssignmentSigma { variables: v, is_bottom: false }
    }

    /// The state after a rule that defines the capture groups `defined`:
    /// the groups of `self` and those (the bottom element stays bottom).
    pub fn flow(&self, defined: &Vec<String>) -> (s: DefiniteAssignmentSigma)
        ensures
            s@ == (SigmaV { variables: self@.variables.union(strings_view(defined@).to_set()), is_bottom: self@.is_bottom }),
    {
        let mut res = self.copy();
        let ghost base = strings_view(res.variables@);
        let mut i: usize = 0;
        while i < defined.len()
            invariant
                i <= defined@.len(),
                res.is_bottom == self.is_bottom,
                strings_view(res.variables@).to_set() == self@.variables.union(strings_view(defined@).take(i as int).to_set()),
            decreases defined@.len() - i,
        {
            let ghost before = res.variables@;
            res.variables.push(copy_string(&defined[i]));
            proof {
                assert(strings_view(res.variables@) =~= strings_view(before).push(defined@[i as int]@));
                assert(strings_view(defined@).take(i + 1) =~= strings_view(defined@).take(i as int).push(defined@[i as int]@));
                lemma_push_to_set(strings_view(before), defined@[i as int]@);
                lemma_push_to_set(strings_view(defined@).take(i as int), defined@[i as int]@);
                assert(strings_view(res.variables@).to_set() =~= self@.variables.union(strings_view(defined@).take(i + 1).to_set()));
            }
            i = i + 1;
        }
        assert(strings_view(defined@).take(defined@.len() as int) =~= strings_view(defined@));
        res
    }
}

proof fn lemma_push_to_set<A>(s: Seq<A>, x: A)
    ensures
        s.push(x).to_set() == s.to_set().insert(x),
{
    assert forall|a: A| #[trigger] s.push(x).contains(a) <==> s.contains(a) || a == x by {
        if s.push(x).contains(a) {
            let i = choose|i: int| 0 <= i < s.push(x).len() && s.push(x)[i] == a;
            if i < s.len() {
                assert(s[i] == a);
            }
        }
        if s.contains(a) {
            let i = choose|i: int| 0 <= i < s.len() && s[i] == a;
            assert(s.push(x)[i] == a);
        }
        if a == x {
            assert(s.push(x)[s.len() as int] == x);
        }
    }
    assert(s.push(x).to_set() =~= s.to_set().insert(x));
}

/// The join is commutative on states whose bottom holds no variables.
pub proof fn lemma_join_commutative(a: SigmaV, b: SigmaV)
    requires
        canonical(a),
        canonical(b),
    ensures
        spec_join(a, b) == spec_join(b, a),
{
    if !a.is_bottom && !b.is_bottom {
        assert(a.variables.intersect(b.variables) =~= b.variables.intersect(a.variables));
    }
}

/// The join is associative.
pub proof fn lemma_join_associative(a: SigmaV, b: SigmaV, c: SigmaV)
    ensures
        spec_join(spec_join(a, b), c) == spec_join(a, spec_join(b, c)),
{
    if !a.is_bottom && !b.is_bottom && !c.is_bottom {
        assert(a.variables.intersect(b.variables).intersect(c.variables) =~= a.variables.intersect(
            b.variables.intersect(c.variables),
        ));
    }
}

/// The join is idempotent.
pub proof fn lemma_join_idempotent(a: SigmaV)
    ensures
        spec_join(a, a) == a,
{
    if !a.is_bottom {
        assert(a.variables.intersect(a.variables) =~= a.variables);
    }
}

/// The bottom element is the identity of the join, and the join of two
/// states (neither bottom) holds only variables both hold.
pub proof fn lemma_join_bottom_and_bound(a: SigmaV, b: SigmaV)
    ensures
        spec_join(SigmaV { variables: Set::empty(), is_bottom: true }, a) == a,
        canonical(a) ==> spec_join(a, SigmaV { variables: Set::empty(), is_bottom: true }) == a,
        !a.is_bottom && !b.is_bottom ==> spec_join(a, b).variables.subset_of(a.variables)
            && spec_join(a, b).variables.subset_of(b.variables),
        canonical(a) && canonical(b) ==> canonical(spec_join(a, b)),
{
}


/// The rules of `rules`, in order, whose names are among `names`.
pub open spec fn rules_named(rules: Seq<RuleV>, names: Seq<Seq<char>>) -> Seq<RuleV>
    decreases rules.len(),
{
    if rules.len() == 0 {
        seq![]
    } else {
        let prev = rules_named(rules.drop_last(), names);
        if names.contains(rules.last().name) {
            prev.push(rules.last())
        } else {
            prev
        }
    }
}

/// The forward direction of the analysis over a rule graph: each rule
/// leads to the rules the graph's edges from it reach, whatever their scope.
pub struct ForwardDefiniteAssignment {
    /// The flow among the rules.
    pub graph: ParameterizedRuleGraph,
    /// The rules of the graph.
    pub rules: Vec<Rule>,
    /// The capture groups that the user's substitutions define.
    pub initial_substitutions: Vec<String>,
}

impl ForwardDefiniteAssignment {
    /// The rules, in the order of `rules`, that an edge from `rule` reaches.
    pub fn successors(&self, rule: &Rule) -> (res: Vec<Rule>)
        ensures
            rules_view(res@) == rules_named(
                rules_view(self.rules@),
                self.graph.spec_neighbors(rule@.name).map_values(|p: (Seq<char>, Seq<char>)| p.1),
            ),
    {
        let nbrs = self.graph.get_neighbors(&rule.name);
        let ghost targets = self.graph.spec_neighbors(rule@.name).map_values(|p: (Seq<char>, Seq<char>)| p.1);
        let mut child_rules: Vec<String> = Vec::new();
        let mut i: usize = 0;
        while i < nbrs.len()
            invariant
                i <= nbrs@.len(),
                entries_view(nbrs@) == self.graph.spec_neighbors(rule@.name),
                targets == self.graph.spec_neighbors(rule@.name).map_values(|p: (Seq<char>, Seq<char>)| p.1),
                strings_view(child_rules@) == targets.take(i as int),
            decreases nbrs@.len() - i,
        {
            assert(targets[i as int] == entries_view(nbrs@)[i as int].1);
            assert(entries_view(nbrs@)[i as int].1 == nbrs@[i as int].1@);
            let ghost before = child_rules@;
            child_rules.push(copy_string(&nbrs[i].1));
            assert(strings_view(child_rules@) =~= strings_view(before).push(nbrs@[i as int].1@));
            assert(strings_view(child_rules@) =~= targets.take(i + 1));
            i = i + 1;
        }
        assert(targets.take(nbrs@.len() as int) =~= targets);
        let ghost rv = rules_view(self.rules@);
        let mut res: Vec<Rule> = Vec::new();
        let mut k: usize = 0;
        assert(rv.take(0) =~= Seq::<RuleV>::empty());
        while k < self.rules.len()
            invariant
                k <= self.rules@.len(),
                rv == rules_view(self.rules@),
                strings_view(child_rules@) == targets,
                rules_view(res@) == rules_named(rv.take(k as int), targets),
            decreases self.rules@.len() - k,
        {
            assert(rv.take(k + 1).drop_last() =~= rv.take(k as int));
            assert(rv.take(k + 1).last() == self.rules@[k as int]@);
            proof {
                lemma_has_string_contains(child_rules@, self.rules@[k as int].name@);
            }
            if vec_contains_string(&child_rules, self.rules[k].name.as_str()) {
                let ghost before = res@;
                res.push(self.rules[k].copy());
                assert(rules_view(res@) =~= rules_view(before).push(self.rules@[k as int]@));
            }
            k = k + 1;
        }
        assert(rv.take(self.rules@.len() as int) =~= rv);
        res
    }

    /// The state every point starts from: the bottom element.
    pub fn initial_value(&self) -> (s: DefiniteAssignmentSigma)
        ensures
            s@ == (SigmaV { variables: Set::empty(), is_bottom: true }),
    {
        DefiniteAssignmentSigma::bottom()
    }

    /// The state at a seed rule: the capture groups of the user's
    /// substitutions.
    pub fn entry_value(&self) -> (s: DefiniteAssignmentSigma)
        ensures
            s@ == (SigmaV { variables: strings_view(self.initial_substitutions@).to_set(), is_bottom: false }),
    {
        let vars = crate::text::copy_strings(&self.initial_substitutions);
        proof {
            assert(strings_view(vars@) =~= strings_view(self.initial_substitutions@));
        }
        DefiniteAssignmentSigma::from_variables(vars)
    }
}


/// `@` and each name, in order, leaving the unnamed groups out.
pub open spec fn tags_of_names(names: Seq<Option<Seq<char>>>) -> Seq<Seq<char>>
    decreases names.len(),
{
    if names.len() == 0 {
        seq![]
    } else {
        let prev = tags_of_names(names.drop_last());
        match names.last() {
            Some(n) => prev.push(seq!['@'] + n),
            None => prev,
        }
    }
}

/// The tags that a regular expression defines: `@` and the name of each of
/// its named groups, in order; nothing when it is not a regular expression.
pub fn get_capture_groups_from_regex(pattern: &str) -> (res: Option<Vec<String>>)
    ensures
        match res {
            Some(v) => (regex_group_names(pattern@) matches Some(ns) && strings_view(v@) == tags_of_names(ns)),
            None => regex_group_names(pattern@) is None,
        },
{
    let names = match regex_capture_names(pattern) {
        Some(n) => n,
        None => {
            return None;
        },
    };
    let ghost nv = group_names_view(names@);
    let mut tags: Vec<String> = Vec::new();
    let mut i: usize = 0;
    assert(nv.take(0) =~= Seq::<Option<Seq<char>>>::empty());
    while i < names.len()
        invariant
            i <= names@.len(),
            nv == group_names_view(names@),
            strings_view(tags@) == tags_of_names(nv.take(i as int)),
        decreases names@.len() - i,
    {
        assert(nv.take(i + 1).drop_last() =~= nv.take(i as int));
        assert(nv.take(i + 1).last() == nv[i as int]);
        match &names[i] {
            Some(n) => {
                let mut t: Vec<char> = Vec::new();
                t.push('@');
                let cs = crate::text::str_to_chars(n.as_str());
                let mut j: usize = 0;
                while j < cs.len()
                    invariant
                        j <= cs@.len(),
                        t@ == seq!['@'] + cs@.take(j as int),
                    decreases cs@.len() - j,
                {
                    t.push(cs[j]);
                    j = j + 1;
                    assert(t@ =~= seq!['@'] + cs@.take(j as int));
                }
                assert(cs@.take(cs@.len() as int) =~= cs@);
                let ghost before = tags@;
                tags.push(crate::text::chars_to_string(&t));
                assert(strings_view(tags@) =~= strings_view(before).push(seq!['@'] + n@));
            },
            None => {},
        }
        i = i + 1;
    }
    assert(nv.take(names@.len() as int) =~= nv);
    Some(tags)
}

/// The tags that a regular-expression pattern uses: each `@` followed by
/// word characters, as the regular expression `@\w+` finds them, in order.
pub fn get_capture_group_usage_from_regex(pattern: String) -> (res: Option<Vec<String>>)
    ensures
        match res {
            Some(v) => regex_matches_of("@\\w+"@, pattern@) == Some(strings_view(v@)),
            None => regex_matches_of("@\\w+"@, pattern@) is None,
        },
{
    regex_find_all("@\\w+", pattern.as_str())
}

/// Why the tags of a rule's query cannot be listed.
#[derive(Debug)]
pub enum MatcherTagsError {
    /// The regular expression does not compile.
    InvalidRegex,
}

/// The tags that a tree-sitter query defines: its captures outside its
/// predicates, in order.
pub fn get_capture_groups_from_tsq(pattern: String) -> (res: Vec<String>)
    ensures
        strings_view(res@) == query_captures(pattern@),
{
    let (groups, _) = scan_query(pattern.as_str());
    groups
}

/// The tags that the predicates of a tree-sitter query use: in the text of
/// each predicate, in order, each `@` followed by word characters or
/// underscores.
pub fn get_capture_group_usage_from_tsq(pattern: String) -> (res: Option<Vec<String>>)
    ensures
        match res {
            Some(v) => tags_in_matched(query_predicates(pattern@)) == Some(strings_view(v@)),
            None => tags_in_matched(query_predicates(pattern@)) is None,
        },
{
    let (_, preds) = scan_query(pattern.as_str());
    capture_group_usage_from_matched(&preds)
}

/// Copies the characters of `s` from `k` on into a string.
fn string_from(s: &str, k: usize) -> (r: String)
    requires
        k <= s@.len(),
    ensures
        r@ == s@.skip(k as int),
{
    let cs = crate::text::str_to_chars(s);
    let mut out: Vec<char> = Vec::new();
    let mut i: usize = k;
    while i < cs.len()
        invariant
            k <= i <= cs@.len(),
            cs@ == s@,
            out@ == cs@.subrange(k as int, i as int),
        decreases cs@.len() - i,
    {
        out.push(cs[i]);
        i = i + 1;
        assert(out@ =~= cs@.subrange(k as int, i as int));
    }
    assert(out@ =~= s@.skip(k as int));
    crate::text::chars_to_string(&out)
}

/// The tags that the query of a rule defines: none for an empty query, a
/// concrete-syntax or an unknown pattern; for a regular expression (after
/// `rgx `), `@` and each of its group names; for a tree-sitter query, its
/// captures outside its predicates.
pub fn get_capture_groups_from_matcher(node: &Rule) -> (res: Result<Vec<String>, MatcherTagsError>)
    ensures
        node.query@.len() == 0 ==> (res matches Ok(v) && v@.len() == 0),
        node.query@.len() > 0 ==> match spec_pattern_type(node.query@) {
            PatternType::Tsq => (res matches Ok(v) && strings_view(v@) == query_captures(node.query@)),
            PatternType::Regex => match regex_group_names(node.query@.skip(4)) {
                Some(ns) => (res matches Ok(v) && strings_view(v@) == tags_of_names(ns)),
                None => res matches Err(MatcherTagsError::InvalidRegex),
            },
            _ => (res matches Ok(v) && v@.len() == 0),
        },
{
    if node.query.as_str().is_empty() {
        return Ok(Vec::new());
    }
    let q = CGPattern(copy_string(&node.query));
    match q.pattern_type() {
        PatternType::Tsq => Ok(get_capture_groups_from_tsq(copy_string(&node.query))),
        PatternType::Regex => {
            proof {
                assert(node.query@.len() >= 4) by {
                    assert(crate::filter::starts_with(node.query@, seq!['r', 'g', 'x', ' ']));
                }
            }
            let body = string_from(node.query.as_str(), 4);
            match get_capture_groups_from_regex(body.as_str()) {
                Some(v) => Ok(v),
                None => Err(MatcherTagsError::InvalidRegex),
            }
        },
        _ => Ok(Vec::new()),
    }
}

/// The tags that the query of a rule uses: none for an empty query, a
/// concrete-syntax or an unknown pattern; for a regular expression, each
/// `@` followed by word characters in the whole pattern; for a tree-sitter
/// query, the tags its predicates use.
pub fn get_capture_group_usage_from_matcher(node: &Rule) -> (res: Result<Vec<String>, MatcherTagsError>)
    ensures
        node.query@.len() == 0 ==> (res matches Ok(v) && v@.len() == 0),
        node.query@.len() > 0 ==> match spec_pattern_type(node.query@) {
            PatternType::Tsq => match tags_in_matched(query_predicates(node.query@)) {
                Some(ts) => (res matches Ok(v) && strings_view(v@) == ts),
                None => res matches Err(MatcherTagsError::InvalidRegex),
            },
            PatternType::Regex => match regex_matches_of("@\\w+"@, node.query@) {
                Some(ts) => (res matches Ok(v) && strings_view(v@) == ts),
                None => res matches Err(MatcherTagsError::InvalidRegex),
            },
            _ => (res matches Ok(v) && v@.len() == 0),
        },
{
    if node.query.as_str().is_empty() {
        return Ok(Vec::new());
    }
    let q = CGPattern(copy_string(&node.query));
    match q.pattern_type() {
        PatternType::Tsq => match get_capture_group_usage_from_tsq(copy_string(&node.query)) {
            Some(v) => Ok(v),
            None => Err(MatcherTagsError::InvalidRegex),
        },
        PatternType::Regex => match get_capture_group_usage_from_regex(copy_string(&node.query)) {
            Some(v) => Ok(v),
            None => Err(MatcherTagsError::InvalidRegex),
        },
        _ => Ok(Vec::new()),
    }
}

/// The tags found in each matched string by `@[\w_]+`, in order, one
/// string after the other; nothing when the expression does not compile.
pub open spec fn tags_in_matched(ms: Seq<Seq<char>>) -> Option<Seq<Seq<char>>>
    decreases ms.len(),
{
    if ms.len() == 0 {
        Some(seq![])
    } else {
        match (tags_in_matched(ms.drop_last()), regex_matches_of("@[\\w_]+"@, ms.last())) {
            (Some(a), Some(b)) => Some(a + b),
            _ => None,
        }
    }
}

/// A prefix for which no tags are found keeps none found when it grows.
proof fn lemma_tags_none(ms: Seq<Seq<char>>, j: int, k: int)
    requires
        0 <= j <= k <= ms.len(),
        tags_in_matched(ms.take(j)) is None,
    ensures
        tags_in_matched(ms.take(k)) is None,
    decreases k - j,
{
    if k > j {
        lemma_tags_none(ms, j, k - 1);
        assert(ms.take(k).drop_last() =~= ms.take(k - 1));
    }
}

/// The tags that a tree-sitter query uses, from the texts that the engine
/// matched inside its predicates: each `@` followed by word characters or
/// underscores in each text, in order.
pub fn capture_group_usage_from_matched(matched: &Vec<String>) -> (res: Option<Vec<String>>)
    ensures
        match res {
            Some(v) => tags_in_matched(strings_view(matched@)) == Some(strings_view(v@)),
            None => tags_in_matched(strings_view(matched@)) is None,
        },
{
    let ghost mv = strings_view(matched@);
    let mut out: Vec<String> = Vec::new();
    let mut i: usize = 0;
    while i < matched.len()
        invariant
            i <= matched@.len(),
            mv == strings_view(matched@),
            tags_in_matched(mv.take(i as int)) == Some(strings_view(out@)),
        decreases matched@.len() - i,
    {
        assert(mv.take(i + 1).drop_last() =~= mv.take(i as int));
        assert(mv.take(i + 1).last() == matched@[i as int]@);
        match regex_find_all("@[\\w_]+", matched[i].as_str()) {
            Some(v) => {
                let ghost vv = strings_view(v@);
                let ghost before = strings_view(out@);
                let mut v = v;
                out.append(&mut v);
                assert(strings_view(out@) =~= before + vv);
            },
            None => {
                proof {
                    lemma_tags_none(mv, i + 1, mv.len() as int);
                    assert(mv.take(mv.len() as int) =~= mv);
                }
                return None;
            },
        }
        i = i + 1;
    }
    assert(mv.take(matched@.len() as int) =~= mv);
    Some(out)
}

} // verus!
