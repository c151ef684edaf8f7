//! The rewrite engine: applying a rule to a file under rewrite, cascading
//! to the rules that follow it (in the changed node's context, its
//! enclosing method or class, or globally), and the cleaner that runs the
//! global rules over the files of a code base until no new global rule
//! appears.

use vstd::prelude::*;
use vstd::utf8::{encode_utf8, is_char_boundary};
use crate::fact::{Fact, facts_meet, range_shift_fits};
use crate::filter_check::InstantiatedRule;
use crate::filter_check::{ts_node_descendant_for_byte_range, ts_node_parent};
use crate::matches::{Point, Range};
use crate::query_matcher::{PiranhaRuleMatcher, first_query_match};
use crate::constraint_checker::{regex_compiles, regex_is_match, regex_match_result};
use crate::heuristics::{all_have_heuristics, grep_pattern, has_extension, is_grep_pattern, path_has_extension};
use crate::rule_graph::{edges_resolve, graph_of};
use crate::rule_store::{
    global_of, spec_inst, PiranhaArguments, RuleStore, alist_view, all_rules, api_rules_have_holes, entry_rules, globals_of, neighbors_of, next_of,
    spec_get_next, with_default,
};
use crate::rules::{
    groups_of, spec_feature_flag_api_group, Edges, Pred, Rule, RuleHelper, RuleV, Rules, ScopeGenerator, ScopeQueryGenerator, edges_view, entries_view, names_map,
    rule_map_view, rules_view, substitute_pairs, substitute_text,
};
use crate::text::{copy_string, str_eq};
use crate::source_code_unit::{
    ts_parser_new, ts_parser_set_language, Edit, SourceCodeUnit, TextEdit, edit_in_code, edit_precedes, facts_shift_fit, replaced_bytes, shift_fits,
    spec_text_edit,
};
use crate::str_map::{StrMap, entry_lookup};

verus! {

/// Why a cleanup stopped where it could not go on.
#[derive(Debug, Clone)]
pub enum CleanupError {
    /// A query (of a rule, a constraint or a scope) does not compile.
    InvalidQuery(String),
    /// No node of the tree spans a matched range.
    NoNodeForRange(Range),
    /// No scope generator of this name, or none matches an enclosing node.
    NoScope(String),
    /// A rule that follows cannot be instantiated with the substitutions
    /// found so far (or is not known); or a rule of the feature-flag API
    /// without holes would become global.
    NotInstantiable(String),
    /// A rewrite that is not an edit of the code: out of it, off character
    /// boundaries, or shifting a fact beyond the machine's sizes.
    BadEdit(Range),
    /// The parser gave no tree.
    ParseFailed,
    /// The grep heuristics of the global rules are not a regular expression.
    InvalidPattern(String),
    /// The parser does not take the language.
    UnsupportedLanguage,
    /// The step bound of the rewrite engine ran out.
    OutOfFuel,
    /// The cleaner's bound on rounds over the code base ran out.
    TooManyRounds,
}

/// Whether a constraint holds, given whether all its queries match in the
/// scope its matcher found: `All` asks that they all match, `None` that not
/// all do.
pub open spec fn spec_constraint_outcome(all_queries_match: bool, predicate: Seq<char>) -> bool {
    (all_queries_match && predicate == "All"@) || (!all_queries_match && predicate == "None"@)
}

/// Whether running `n` constraint queries recursively on `code` can end
/// with `all` as the answer to whether they all match: all of them match
/// (a recursive run gives a first match, or there is no query), or one of
/// them does not (a recursive run gives no match).
pub open spec fn queries_can_give(code: Seq<u8>, n: nat, all: bool) -> bool {
    if all {
        n == 0 || exists|r: Option<(Range, StrMap<String>)>| #[trigger] first_query_match(code, true, r) && r is Some
    } else {
        n > 0 && exists|r: Option<(Range, StrMap<String>)>| #[trigger] first_query_match(code, true, r) && r is None
    }
}

/// Whether a run of a query at a node alone (not below it) can give a first
/// match on `code`: how the scope of a constraint is found.
pub open spec fn scope_can_be_found(code: Seq<u8>) -> bool {
    exists|r: Option<(Range, StrMap<String>)>| #[trigger] first_query_match(code, false, r) && r is Some
}

/// Whether a constraint with `n` queries and the predicate `predicate` can
/// refuse a match: for an answer that its recursive query runs can give,
/// the predicate fails.
pub open spec fn constraint_refutes(code: Seq<u8>, n: nat, predicate: Seq<char>) -> bool {
    exists|all: bool| #[trigger] queries_can_give(code, n, all) && !spec_constraint_outcome(all, predicate)
}

/// The decision of a constraint whose scope was found.
pub fn constraint_outcome(all_queries_match: bool, predicate: &Pred) -> (b: bool)
    ensures
        b == spec_constraint_outcome(all_queries_match, predicate.0@),
{
    (all_queries_match && predicate.is_all()) || (!all_queries_match && predicate.is_none())
}

/// Whether replacing `range` of `code` by `rep` is an edit of the code.
pub fn edit_fits(code: &str, range: &Range, rep: &str) -> (b: bool)
    ensures
        b == edit_in_code(code@, *range, rep@),
{
    let n = code.as_bytes().len();
    let m = rep.as_bytes().len();
    range.start_byte <= range.end_byte && range.end_byte <= n && code.is_char_boundary(range.start_byte)
        && code.is_char_boundary(range.end_byte) && range.start_byte <= usize::MAX - m
}

/// Whether a point shifted by the given deltas fits the machine's sizes.
fn point_fits(p: &Point, row_delta: i128, col_delta: i128, old_end_row: usize) -> (b: bool)
    requires
        -0x1_0000_0000_0000_0000 <= row_delta <= 0x1_0000_0000_0000_0000,
        -0x1_0000_0000_0000_0000 <= col_delta <= 0x1_0000_0000_0000_0000,
    ensures
        b == crate::fact::point_shift_fits(*p, row_delta as int, col_delta as int, old_end_row as int),
{
    let max = isize::MAX as i128;
    let row = p.row as i128 + row_delta;
    let col = if p.row > old_end_row {
        p.column as i128
    } else {
        p.column as i128 + col_delta
    };
    (p.row as i128) <= max && (p.column as i128) <= max && 0 <= row && row <= max && 0 <= col && col <= max
}

/// Whether the shift that a preceding edit gives a range fits the machine's
/// sizes.
pub fn shift_fits_exec(e: &TextEdit, r: &Range) -> (b: bool)
    ensures
        b == shift_fits(*e, *r),
{
    let max = isize::MAX as i128;
    let d = e.new_end_byte as i128 - e.old_end_byte as i128;
    let oer = e.old_end_position.row as i128;
    let oec = e.old_end_position.column as i128;
    let ner = e.new_end_position.row as i128;
    let nec = e.new_end_position.column as i128;
    let start = r.start_byte as i128 + d;
    let end = r.end_byte as i128 + d;
    (e.new_end_byte as i128) <= max && (e.old_end_byte as i128) <= max && oer <= max && oec <= max && ner <= max
        && nec <= max && (r.start_byte as i128) <= max && (r.end_byte as i128) <= max && 0 <= start && start <= max
        && 0 <= end && end <= max && point_fits(&r.start_point, ner - oer, nec - oec, e.old_end_position.row)
        && point_fits(&r.end_point, ner - oer, nec - oec, e.old_end_position.row)
}

/// Whether every fact the edit precedes can be shifted.
pub fn facts_fit(facts: &Vec<Fact>, e: &TextEdit) -> (b: bool)
    ensures
        b == facts_shift_fit(facts@, *e),
{
    let mut i: usize = 0;
    while i < facts.len()
        invariant
            i <= facts@.len(),
            forall|j: int| 0 <= j < i && edit_precedes(*e, (#[trigger] facts@[j]).range) ==> shift_fits(*e, facts@[j].range),
        decreases facts@.len() - i,
    {
        let r = &facts[i].range;
        let overlaps = e.start_byte < r.end_byte && r.start_byte < e.old_end_byte;
        if !overlaps && e.old_end_byte <= r.start_byte {
            if !shift_fits_exec(e, r) {
                assert(edit_precedes(*e, facts@[i as int].range));
                return false;
            }
        }
        i = i + 1;
    }
    true
}


/// What the engine needs of a unit and a store: the unit's substitutions and
/// the store's tables are well formed.
pub open spec fn engine_ready(unit: SourceCodeUnit, store: RuleStore) -> bool {
    &&& unit.substitutions.wf()
    &&& store.rule_query_cache.wf()
    &&& store.rules_by_name.wf()
}

/// Only the store's query cache changed, and it stays well formed.
pub open spec fn cache_only(before: RuleStore, after: RuleStore) -> bool {
    &&& after.rule_graph == before.rule_graph
    &&& after.rules_by_name == before.rules_by_name
    &&& after.global_rules == before.global_rules
    &&& after.scopes == before.scopes
    &&& after.piranha_args == before.piranha_args
    &&& after.rule_query_cache.wf()
}

/// The store keeps its graph, rules, scopes and arguments and a well-formed
/// query cache; its global rules only grow, each new one with grep
/// heuristics.
pub open spec fn store_grows(before: RuleStore, after: RuleStore) -> bool {
    &&& after.rule_graph == before.rule_graph
    &&& after.rules_by_name == before.rules_by_name
    &&& after.scopes == before.scopes
    &&& after.piranha_args == before.piranha_args
    &&& after.rule_query_cache.wf()
    &&& rules_view(before.global_rules@).is_prefix_of(rules_view(after.global_rules@))
    &&& forall|i: int|
        before.global_rules@.len() <= i < after.global_rules@.len() ==> (#[trigger] after.global_rules@[i])@.grep_heuristics is Some
}

pub proof fn lemma_store_grows_refl(s: RuleStore)
    requires
        s.rule_query_cache.wf(),
    ensures
        store_grows(s, s),
{
    assert(rules_view(s.global_rules@).is_prefix_of(rules_view(s.global_rules@))) by {
        assert(rules_view(s.global_rules@) =~= rules_view(s.global_rules@).subrange(0, rules_view(s.global_rules@).len() as int));
    }
}

pub proof fn lemma_store_grows_trans(a: RuleStore, b: RuleStore, c: RuleStore)
    requires
        store_grows(a, b),
        store_grows(b, c),
    ensures
        store_grows(a, c),
{
    let va = rules_view(a.global_rules@);
    let vb = rules_view(b.global_rules@);
    let vc = rules_view(c.global_rules@);
    assert(va =~= vc.subrange(0, va.len() as int)) by {
        assert forall|i: int| 0 <= i < va.len() implies va[i] == vc[i] by {
            assert(va[i] == vb[i]);
            assert(vb[i] == vc[i]);
        }
    }
    assert forall|i: int| a.global_rules@.len() <= i < c.global_rules@.len() implies (
    #[trigger] c.global_rules@[i])@.grep_heuristics is Some by {
        if i < b.global_rules@.len() {
            assert(vb[i] == vc[i]);
            assert(b.global_rules@[i]@.grep_heuristics is Some);
        }
    }
}

impl SourceCodeUnit {
    /// Applies the edit as `apply_edit` does, when it is an edit of the code
    /// whose shift fits the facts; else the unit does not change and the
    /// error says so. A parser that gives no new tree is an error too, with
    /// the code already edited.
    pub fn try_apply_edit(&mut self, edit: &Edit, parser: &mut tree_sitter::Parser) -> (res: Result<TextEdit, CleanupError>)
        ensures
            !(res matches Err(CleanupError::TooManyRounds)),
            final(self).substitutions == old(self).substitutions,
            final(self).path == old(self).path,
            !edit_in_code(old(self).code@, edit.replacement_range, edit.replacement_string@) ==> (res matches Err(
                CleanupError::BadEdit(_),
            )),
            res matches Err(CleanupError::BadEdit(_)) ==> final(self).code == old(self).code && final(self).facts
                == old(self).facts,
            res is Ok ==> edit_in_code(old(self).code@, edit.replacement_range, edit.replacement_string@),
            (res is Ok || (res matches Err(CleanupError::ParseFailed))) ==> encode_utf8(final(self).code@) == replaced_bytes(
                encode_utf8(old(self).code@),
                edit.replacement_range,
                encode_utf8(edit.replacement_string@),
            ),
            res matches Ok(te) ==> te == spec_text_edit(
                encode_utf8(old(self).code@),
                edit.replacement_range,
                encode_utf8(edit.replacement_string@),
            ),
            res is Ok || (res matches Err(CleanupError::BadEdit(_))) || (res matches Err(CleanupError::ParseFailed)),
    {
        if !edit_fits(self.code.as_str(), &edit.replacement_range, edit.replacement_string.as_str()) {
            return Err(CleanupError::BadEdit(edit.replacement_range));
        }
        let (_, te) = self.get_edit(edit.replacement_range, edit.replacement_string.as_str());
        if !facts_fit(&self.facts, &te) {
            return Err(CleanupError::BadEdit(edit.replacement_range));
        }
        match self.apply_edit(edit, parser) {
            Some(t) => Ok(t),
            None => Err(CleanupError::ParseFailed),
        }
    }

    /// The smallest node of the tree that spans `start..end`.
    pub fn get_node_for_range(&self, start_byte: usize, end_byte: usize) -> Option<tree_sitter::Node<'_>> {
        let root = self.root_node();
        ts_node_descendant_for_byte_range(&root, start_byte, end_byte)
    }

    /// The node that the edit changed (the smallest spanning its new text),
    /// its parent, grandparent and great-grandparent, as far as they exist.
    pub fn get_context(&self, previous_edit: &TextEdit) -> (res: Result<Vec<tree_sitter::Node<'_>>, CleanupError>)
        ensures
            !(res matches Err(CleanupError::TooManyRounds)),
            res matches Ok(v) ==> 1 <= v@.len() <= 4,
            res matches Err(e) ==> e matches CleanupError::NoNodeForRange(_),
    {
        let changed = match self.get_node_for_range(previous_edit.start_byte, previous_edit.new_end_byte) {
            Some(n) => n,
            None => {
                return Err(
                    CleanupError::NoNodeForRange(
                        Range {
                            start_byte: previous_edit.start_byte,
                            end_byte: previous_edit.new_end_byte,
                            start_point: previous_edit.start_position,
                            end_point: previous_edit.new_end_position,
                        },
                    ),
                );
            },
        };
        let mut context: Vec<tree_sitter::Node<'_>> = Vec::new();
        context.push(changed);
        if let Some(parent) = ts_node_parent(&changed) {
            context.push(parent);
            if let Some(grand_parent) = ts_node_parent(&parent) {
                context.push(grand_parent);
                if let Some(great_grand_parent) = ts_node_parent(&grand_parent) {
                    context.push(great_grand_parent);
                }
            }
        }
        Ok(context)
    }

    /// Whether a match at `node` satisfies the rule's constraint: without a
    /// constraint it does; else the nearest ancestor that the constraint's
    /// matcher matches is its scope, and there its queries (with the match's
    /// tags substituted) must all match (`All`) or not all match (`None`).
    /// Without such an ancestor it does. The walk up is bounded by
    /// `usize::MAX` steps. The matcher is run at each ancestor alone, the
    /// queries recursively within the scope.
    pub fn satisfies_constraint(
        &self,
        node: tree_sitter::Node<'_>,
        rule: &Rule,
        capture_by_tags: &StrMap<String>,
        rule_store: &mut RuleStore,
    ) -> (res: Result<bool, CleanupError>)
        requires
            old(rule_store).rule_query_cache.wf(),
        ensures
            !(res matches Err(CleanupError::TooManyRounds)),
            cache_only(*old(rule_store), *final(rule_store)),
            rule.constraint is None ==> res == Ok::<bool, CleanupError>(true),
            rule.constraint is Some && res == Ok::<bool, CleanupError>(false) ==> scope_can_be_found(
                encode_utf8(self.code@),
            ) && constraint_refutes(
                encode_utf8(self.code@),
                rule.constraint->0.queries@.len(),
                rule.constraint->0.predicate.0@,
            ),
    {
        let constraint = match &rule.constraint {
            Some(c) => c,
            None => {
                return Ok(true);
            },
        };
        let mut current = node;
        let mut fuel: usize = usize::MAX;
        while fuel > 0
            invariant
                cache_only(*old(rule_store), *rule_store),
                rule.constraint is Some,
                *constraint == rule.constraint->0,
            decreases fuel,
        {
            fuel = fuel - 1;
            let parent = match ts_node_parent(&current) {
                Some(p) => p,
                None => {
                    return Ok(true);
                },
            };
            let scope = match rule_store.get_query(&constraint.matcher) {
                Some(q) => parent.get_match_for_query(&self.code, q, false),
                None => {
                    return Err(CleanupError::InvalidQuery(constraint.matcher.clone()));
                },
            };
            if let Some((range, _)) = scope {
                let matcher = match self.get_node_for_range(range.start_byte, range.end_byte) {
                    Some(n) => n,
                    None => {
                        return Err(CleanupError::NoNodeForRange(range));
                    },
                };
                let mut all_queries_match = true;
                let mut i: usize = 0;
                while i < constraint.queries.len()
                    invariant
                        cache_only(*old(rule_store), *rule_store),
                        rule.constraint is Some,
                        *constraint == rule.constraint->0,
                        i <= constraint.queries@.len(),
                        queries_can_give(encode_utf8(self.code@), i as nat, all_queries_match),
                    decreases constraint.queries@.len() - i,
                {
                    let query_str = constraint.queries[i].substitute_tags(capture_by_tags);
                    match rule_store.get_query(&query_str) {
                        Some(q) => {
                            all_queries_match = all_queries_match && matcher.get_match_for_query(
                                &self.code,
                                q,
                                true,
                            ).is_some();
                        },
                        None => {
                            return Err(CleanupError::InvalidQuery(query_str));
                        },
                    }
                    i = i + 1;
                }
                proof {
                    let code = encode_utf8(self.code@);
                    let n = constraint.queries@.len();
                    assert(queries_can_give(code, n, all_queries_match));
                    assert(*constraint == rule.constraint->0);
                    if !spec_constraint_outcome(all_queries_match, constraint.predicate.0@) {
                        assert(constraint_refutes(code, n, constraint.predicate.0@));
                    }
                }
                return Ok(constraint_outcome(all_queries_match, &constraint.predicate));
            }
            current = parent;
        }
        Ok(true)
    }

    /// The first match of the rule at `node` (and below it when
    /// `recursive`) that satisfies the rule's constraint: the range to
    /// replace, the replacement (the rule's, with the match's tags
    /// substituted) and the match's tags.
    pub fn get_any_match_for_rule(
        &self,
        rule: &Rule,
        rule_store: &mut RuleStore,
        node: tree_sitter::Node<'_>,
        recursive: bool,
    ) -> (res: Result<Option<(Range, String, StrMap<String>)>, CleanupError>)
        requires
            old(rule_store).rule_query_cache.wf(),
        ensures
            !(res matches Err(CleanupError::TooManyRounds)),
            cache_only(*old(rule_store), *final(rule_store)),
            res matches Ok(Some(m)) ==> m.1@ == substitute_pairs(rule.replace@, entries_view(m.2.entries@)),
    {
        let query_str = rule.get_query();
        let mut all = match rule_store.get_query(&query_str) {
            Some(q) => node.get_all_matches_for_query(&self.code, q, recursive, Some(rule.replace_node.clone())),
            None => {
                return Err(CleanupError::InvalidQuery(query_str));
            },
        };
        while all.len() > 0
            invariant
                cache_only(*old(rule_store), *rule_store),
            decreases all@.len(),
        {
            let (range, tag_substitutions) = all.remove(0);
            let matched_node = match self.get_node_for_range(range.start_byte, range.end_byte) {
                Some(n) => n,
                None => {
                    return Err(CleanupError::NoNodeForRange(range));
                },
            };
            if self.satisfies_constraint(matched_node, rule, &tag_substitutions, rule_store)? {
                let replacement = rule.replace.substitute_tags(&tag_substitutions);
                return Ok(Some((range, replacement, tag_substitutions)));
            }
        }
        Ok(None)
    }
}


/// The rules of the first scope generator named `name`.
pub open spec fn scope_rules_of(scopes: Seq<ScopeGenerator>, name: Seq<char>) -> Option<Seq<ScopeQueryGenerator>>
    decreases scopes.len(),
{
    if scopes.len() == 0 {
        None
    } else if scopes[0].name@ == name {
        Some(scopes[0].rules@)
    } else {
        scope_rules_of(scopes.drop_first(), name)
    }
}

/// There are scope generators for `name`: the first scope of that name has
/// rules.
pub open spec fn has_scope_rules(scopes: Seq<ScopeGenerator>, name: Seq<char>) -> bool {
    scope_rules_of(scopes, name) matches Some(rs) && rs.len() > 0
}

/// The rules of the first scope generator named `name`, if any.
fn find_scope_rules<'a>(scopes: &'a Vec<ScopeGenerator>, name: &str) -> (res: Option<&'a Vec<ScopeQueryGenerator>>)
    ensures
        match res {
            Some(rs) => scope_rules_of(scopes@, name@) == Some(rs@),
            None => scope_rules_of(scopes@, name@) is None,
        },
{
    let mut i: usize = 0;
    assert(scopes@.skip(0) =~= scopes@);
    while i < scopes.len()
        invariant
            i <= scopes@.len(),
            scope_rules_of(scopes@, name@) == scope_rules_of(scopes@.skip(i as int), name@),
        decreases scopes@.len() - i,
    {
        assert(scopes@.skip(i as int)[0] == scopes@[i as int]);
        assert(scopes@.skip(i as int).drop_first() =~= scopes@.skip(i + 1));
        if str_eq(scopes[i].name.as_str(), name) {
            return Some(&scopes[i].rules);
        }
        i = i + 1;
    }
    None
}

impl SourceCodeUnit {
    /// A query that matches exactly the `scope_level` (such as `Method` or
    /// `Class`) that encloses the previous edit: from the changed node up,
    /// the first ancestor that a scope rule's matcher matches gives the rule's
    /// generator with the match's tags substituted. The query is compiled
    /// into the cache. An error when the level has no scope rules or no
    /// ancestor matches. The walk up is bounded by `usize::MAX` steps.
    pub fn get_scope_query(&self, scope_level: &str, previous_edit: &TextEdit, rule_store: &mut RuleStore) -> (res: Result<String, CleanupError>)
        requires
            old(rule_store).rule_query_cache.wf(),
        ensures
            !(res matches Err(CleanupError::TooManyRounds)),
            cache_only(*old(rule_store), *final(rule_store)),
            !has_scope_rules(old(rule_store).scopes@, scope_level@) ==> (res matches Err(CleanupError::NoScope(_))),
            res matches Ok(q) ==> (exists|i: int, m: (Range, StrMap<String>)|
                #![trigger first_query_match(encode_utf8(self.code@), false, Some(m)), scope_rules_of(old(rule_store).scopes@, scope_level@)->0[i]]
                0 <= i < scope_rules_of(old(rule_store).scopes@, scope_level@)->0.len() && first_query_match(
                    encode_utf8(self.code@),
                    false,
                    Some(m),
                ) && q@ == substitute_pairs(
                    scope_rules_of(old(rule_store).scopes@, scope_level@)->0[i].generator@,
                    entries_view(m.1.entries@),
                )),
            res matches Ok(q) ==> final(rule_store).rule_query_cache@.contains_key(q@),
    {
        let ghost rs = scope_rules_of(rule_store.scopes@, scope_level@);
        let scope_matchers = match find_scope_rules(&rule_store.scopes, scope_level) {
            Some(v) => copy_scope_rules(v),
            None => {
                return Err(CleanupError::NoScope(scope_level.to_owned()));
            },
        };
        if scope_matchers.len() == 0 {
            return Err(CleanupError::NoScope(scope_level.to_owned()));
        }
        let mut changed_node = match self.get_node_for_range(previous_edit.start_byte, previous_edit.new_end_byte) {
            Some(n) => n,
            None => {
                return Err(
                    CleanupError::NoNodeForRange(
                        Range {
                            start_byte: previous_edit.start_byte,
                            end_byte: previous_edit.new_end_byte,
                            start_point: previous_edit.start_position,
                            end_point: previous_edit.new_end_position,
                        },
                    ),
                );
            },
        };
        let mut fuel: usize = usize::MAX;
        while fuel > 0
            invariant
                cache_only(*old(rule_store), *rule_store),
                rs == scope_rules_of(old(rule_store).scopes@, scope_level@),
                rs matches Some(v) && same_scope_rules(scope_matchers@, v),
            decreases fuel,
        {
            fuel = fuel - 1;
            let parent = match ts_node_parent(&changed_node) {
                Some(p) => p,
                None => {
                    return Err(CleanupError::NoScope(scope_level.to_owned()));
                },
            };
            let mut j: usize = 0;
            while j < scope_matchers.len()
                invariant
                    j <= scope_matchers@.len(),
                    cache_only(*old(rule_store), *rule_store),
                    rs == scope_rules_of(old(rule_store).scopes@, scope_level@),
                    rs matches Some(v) && same_scope_rules(scope_matchers@, v),
                decreases scope_matchers@.len() - j,
            {
                let m = &scope_matchers[j];
                let found = match rule_store.get_query(&m.matcher) {
                    Some(q) => parent.get_match_for_query(&self.code, q, false),
                    None => {
                        return Err(CleanupError::InvalidQuery(m.matcher.clone()));
                    },
                };
                if let Some((_, captures_by_tag)) = found {
                    let transformed = m.generator.substitute_tags(&captures_by_tag);
                    assert(transformed@ == substitute_pairs(rs->0[j as int].generator@, entries_view(captures_by_tag.entries@)));
                    if rule_store.get_query(&transformed).is_none() {
                        return Err(CleanupError::InvalidQuery(transformed));
                    }
                    return Ok(transformed);
                }
                j = j + 1;
            }
            changed_node = parent;
        }
        Err(CleanupError::NoScope(scope_level.to_owned()))
    }

    /// The first rule (in order) that matches the changed node of the
    /// previous edit or one of its three nearest ancestors (tried in that
    /// order), with the match: the range to replace, the replacement, the
    /// rule and the match's tags. Nothing without rules.
    pub fn match_rules_to_context(
        &self,
        previous_edit: &TextEdit,
        rule_store: &mut RuleStore,
        rules: &Vec<Rule>,
    ) -> (res: Result<Option<(Range, String, Rule, StrMap<String>)>, CleanupError>)
        requires
            old(rule_store).rule_query_cache.wf(),
        ensures
            !(res matches Err(CleanupError::TooManyRounds)),
            cache_only(*old(rule_store), *final(rule_store)),
            rules@.len() == 0 ==> (res matches Ok(None)),
            res matches Ok(Some(m)) ==> (exists|i: int| 0 <= i < rules@.len() && #[trigger] rules@[i]@ == m.2@)
                && m.1@ == substitute_pairs(m.2.replace@, entries_view(m.3.entries@)),
    {
        if rules.len() == 0 {
            return Ok(None);
        }
        let context = self.get_context(previous_edit)?;
        let mut i: usize = 0;
        while i < rules.len()
            invariant
                i <= rules@.len(),
                cache_only(*old(rule_store), *rule_store),
            decreases rules@.len() - i,
        {
            let mut k: usize = 0;
            while k < context.len()
                invariant
                    i < rules@.len(),
                    k <= context@.len(),
                    cache_only(*old(rule_store), *rule_store),
                decreases context@.len() - k,
            {
                if let Some((range, replacement, captures_by_tag)) = self.get_any_match_for_rule(
                    &rules[i],
                    rule_store,
                    context[k],
                    false,
                )? {
                    let r = rules[i].copy();
                    assert(rules@[i as int]@ == r@);
                    return Ok(Some((range, replacement, r, captures_by_tag)));
                }
                k = k + 1;
            }
            i = i + 1;
        }
        Ok(None)
    }
}

/// Copies of scope rules.
fn copy_scope_rules(v: &Vec<ScopeQueryGenerator>) -> (res: Vec<ScopeQueryGenerator>)
    ensures
        same_scope_rules(res@, v@),
{
    let mut res: Vec<ScopeQueryGenerator> = Vec::new();
    let mut i: usize = 0;
    while i < v.len()
        invariant
            i <= v@.len(),
            same_scope_rules(res@, v@.take(i as int)),
        decreases v@.len() - i,
    {
        res.push(ScopeQueryGenerator { matcher: copy_string(&v[i].matcher), generator: copy_string(&v[i].generator) });
        i = i + 1;
    }
    assert(v@.take(v@.len() as int) =~= v@);
    res
}

/// Two lists of scope rules with the same texts.
pub open spec fn same_scope_rules(a: Seq<ScopeQueryGenerator>, b: Seq<ScopeQueryGenerator>) -> bool {
    &&& a.len() == b.len()
    &&& forall|i: int| 0 <= i < a.len() ==> (#[trigger] a[i]).matcher@ == b[i].matcher@ && a[i].generator@ == b[i].generator@
}


/// No edge of the store's graph leaves the rule.
pub open spec fn leads_nowhere(store: RuleStore, rule: RuleV) -> bool {
    neighbors_of(store.rule_graph.spec_graph(), rule.name).len() == 0
}

/// `u1` is `u0` rewritten once by the rule: a range of the code replaced by
/// the rule's replacement with the tags of a match substituted, and those
/// tags added to the substitutions.
pub open spec fn rewritten_once(u0: SourceCodeUnit, u1: SourceCodeUnit, rule: RuleV) -> bool {
    exists|r: Range, tags: StrMap<String>|
        #[trigger] replaced_bytes(
            encode_utf8(u0.code@),
            r,
            encode_utf8(substitute_pairs(rule.replace, entries_view(tags.entries@))),
        ) == encode_utf8(u1.code@) && u1.substitutions@ == crate::str_map::extend_view(u0.substitutions@, tags.entries@)
}

/// The rules pushed on a stack of (scope query, rule) pairs after its first
/// `from` entries.
pub open spec fn pushed_rules(s: Seq<(String, Rule)>, from: int) -> Seq<RuleV> {
    s.subrange(from, s.len() as int).map_values(|p: (String, Rule)| p.1@)
}

/// The scopes whose rules wait for the enclosing method or class.
pub open spec fn is_file_scope(k: Seq<char>) -> bool {
    k == "Method"@ || k == "Class"@
}

/// The rules of the `Method` and `Class` entries, in order, each instantiated
/// with the table.
pub open spec fn scoped_next(entries: Seq<(String, Vec<Rule>)>, tags: Seq<(Seq<char>, Seq<char>)>) -> Seq<RuleV>
    decreases entries.len(),
{
    if entries.len() == 0 {
        seq![]
    } else {
        let e = entries.last();
        scoped_next(entries.drop_last(), tags) + (if is_file_scope(e.0@) {
            rules_view(e.1@).map_values(|r: RuleV| spec_inst(r, tags))
        } else {
            seq![]
        })
    }
}

/// Every list of the table is empty.
pub open spec fn lists_empty(entries: Seq<(String, Vec<Rule>)>) -> bool {
    forall|i: int| 0 <= i < entries.len() ==> (#[trigger] entries[i]).1@.len() == 0
}

/// Every list of the association list is empty.
pub open spec fn alist_lists_empty(l: Seq<(Seq<char>, Seq<RuleV>)>) -> bool {
    forall|i: int| 0 <= i < l.len() ==> (#[trigger] l[i]).1.len() == 0
}

/// A rule that no edge leaves is followed by no rule in any scope.
pub proof fn lemma_nowhere_next(
    g: Map<Seq<char>, Seq<(Seq<char>, Seq<char>)>>,
    rs: Map<Seq<char>, RuleV>,
    name: Seq<char>,
    tags: Seq<(Seq<char>, Seq<char>)>,
    fuel: nat,
)
    requires
        neighbors_of(g, name).len() == 0,
    ensures
        alist_lists_empty(spec_get_next(g, rs, name, tags, fuel)),
{
    assert(next_of(g, rs, name, tags, fuel) =~= Seq::<(Seq<char>, Seq<RuleV>)>::empty());
    let l0 = next_of(g, rs, name, tags, fuel);
    let l1 = with_default(l0, "Parent"@);
    let l2 = with_default(l1, "Method"@);
    let l3 = with_default(l2, "Class"@);
    let l4 = with_default(l3, "Global"@);
    lemma_with_default_empty(l0, "Parent"@);
    lemma_with_default_empty(l1, "Method"@);
    lemma_with_default_empty(l2, "Class"@);
    lemma_with_default_empty(l3, "Global"@);
}

proof fn lemma_with_default_empty(l: Seq<(Seq<char>, Seq<RuleV>)>, k: Seq<char>)
    requires
        alist_lists_empty(l),
    ensures
        alist_lists_empty(with_default(l, k)),
{
    let w = with_default(l, k);
    assert forall|i: int| 0 <= i < w.len() implies (#[trigger] w[i]).1.len() == 0 by {
        if i < l.len() {
            assert(w[i] == l[i]);
        }
    }
}

/// An association list whose lists are empty comes from a table whose
/// lists are empty.
pub proof fn lemma_lists_empty_of_view(entries: Seq<(String, Vec<Rule>)>)
    requires
        alist_lists_empty(alist_view(entries)),
    ensures
        lists_empty(entries),
{
    assert forall|i: int| 0 <= i < entries.len() implies (#[trigger] entries[i]).1@.len() == 0 by {
        assert(alist_view(entries)[i].1 == rules_view(entries[i].1@));
    }
}

/// What a run of the engine keeps: the unit and the store stay ready, the
/// store grows (see `store_grows`), the unit keeps its path, and the keys of
/// its substitutions stay (new ones may come).
pub open spec fn engine_step(u0: SourceCodeUnit, s0: RuleStore, u1: SourceCodeUnit, s1: RuleStore) -> bool {
    &&& engine_ready(u1, s1)
    &&& store_grows(s0, s1)
    &&& u1.path == u0.path
    &&& forall|k: Seq<char>| u0.substitutions@.contains_key(k) ==> #[trigger] u1.substitutions@.contains_key(k)
}

/// Nothing that the engine's result depends on changed: the code, the
/// substitutions and the global rules.
pub open spec fn engine_unchanged(u0: SourceCodeUnit, s0: RuleStore, u1: SourceCodeUnit, s1: RuleStore) -> bool {
    &&& u1.code == u0.code
    &&& u1.substitutions == u0.substitutions
    &&& s1.global_rules == s0.global_rules
}

pub proof fn lemma_engine_step_trans(
    u0: SourceCodeUnit,
    s0: RuleStore,
    u1: SourceCodeUnit,
    s1: RuleStore,
    u2: SourceCodeUnit,
    s2: RuleStore,
)
    requires
        engine_step(u0, s0, u1, s1),
        engine_step(u1, s1, u2, s2),
    ensures
        engine_step(u0, s0, u2, s2),
{
    lemma_store_grows_trans(s0, s1, s2);
}

/// Adds the rule to the store's global rules as `add_global_rule` does; an
/// error, with the store unchanged, for a rule of the feature-flag API
/// without holes.
fn add_global(rule_store: &mut RuleStore, r: &Rule, substitutions: &StrMap<String>) -> (res: Result<(), CleanupError>)
    requires
        old(rule_store).rule_query_cache.wf(),
    ensures
        !(res matches Err(CleanupError::TooManyRounds)),
        store_grows(*old(rule_store), *final(rule_store)),
        (res is Err) == (groups_of(r@).contains(spec_feature_flag_api_group()) && r@.holes is None),
        res is Err ==> final(rule_store).global_rules == old(rule_store).global_rules,
        res is Ok ==> rules_view(final(rule_store).global_rules@) == (match global_of(r@, *substitutions) {
            Some(g) => rules_view(old(rule_store).global_rules@).push(g),
            None => rules_view(old(rule_store).global_rules@),
        }),
{
    if r.is_feature_flag_cleanup() && r.holes.is_none() {
        proof {
            lemma_store_grows_refl(*rule_store);
        }
        return Err(CleanupError::NotInstantiable(r.name.clone()));
    }
    let ghost before = *rule_store;
    rule_store.add_global_rule(r, substitutions);
    proof {
        let vb = rules_view(before.global_rules@);
        let va = rules_view(rule_store.global_rules@);
        assert(vb =~= va.subrange(0, vb.len() as int));
        assert(va.len() == rule_store.global_rules@.len());
        assert(vb.len() == before.global_rules@.len());
        assert forall|i: int|
            before.global_rules@.len() <= i < rule_store.global_rules@.len() implies (
        #[trigger] rule_store.global_rules@[i])@.grep_heuristics is Some by {
            assert(va[i] == rule_store.global_rules@[i]@);
            match crate::rule_store::global_of(r@, *substitutions) {
                Some(g) => {
                    assert(va == vb.push(g));
                    assert(i == vb.len());
                    assert(va[i] == g);
                },
                None => {
                    assert(va == vb);
                },
            }
        }
    }
    Ok(())
}

impl SourceCodeUnit {
    /// Adds the entries to the substitutions: a later entry for a key wins.
    pub fn add_to_substitutions(&mut self, new_entries: StrMap<String>)
        requires
            old(self).substitutions.wf(),
        ensures
            final(self).substitutions.wf(),
            final(self).substitutions@ == crate::str_map::extend_view(old(self).substitutions@, new_entries.entries@),
            forall|k: Seq<char>|
                old(self).substitutions@.contains_key(k) ==> #[trigger] final(self).substitutions@.contains_key(k),
            final(self).code == old(self).code,
            final(self).path == old(self).path,
            final(self).facts == old(self).facts,
    {
        proof {
            crate::str_map::lemma_extend_dom(self.substitutions@, new_entries.entries@);
        }
        self.substitutions.extend(new_entries);
    }

    /// The node a scope query delimits: the smallest node spanning the
    /// query's first match in the file; the root without a scope query or
    /// without a match.
    pub fn get_scope_node(&self, scope_query: &Option<String>, rule_store: &mut RuleStore) -> (res: Result<
        tree_sitter::Node<'_>,
        CleanupError,
    >)
        requires
            old(rule_store).rule_query_cache.wf(),
        ensures
            !(res matches Err(CleanupError::TooManyRounds)),
            cache_only(*old(rule_store), *final(rule_store)),
    {
        let root = self.root_node();
        if let Some(query_str) = scope_query {
            let found = match rule_store.get_query(query_str) {
                Some(q) => root.get_match_for_query(&self.code, q, true),
                None => {
                    return Err(CleanupError::InvalidQuery(query_str.clone()));
                },
            };
            if let Some((range, _)) = found {
                return match self.get_node_for_range(range.start_byte, range.end_byte) {
                    Some(n) => Ok(n),
                    None => Err(CleanupError::NoNodeForRange(range)),
                };
            }
        }
        Ok(root)
    }

    /// Queues the rules that follow in the `Method` and `Class` scopes, each
    /// instantiated with the substitutions, with the query of the scope that
    /// encloses the previous edit; the queue's earlier entries stay.
    pub fn add_rules_to_stack(
        &self,
        next_rules_by_scope: &StrMap<Vec<Rule>>,
        current_edit: &TextEdit,
        rule_store: &mut RuleStore,
        stack: &mut Vec<(String, Rule)>,
    ) -> (res: Result<(), CleanupError>)
        requires
            old(rule_store).rule_query_cache.wf(),
        ensures
            !(res matches Err(CleanupError::TooManyRounds)),
            cache_only(*old(rule_store), *final(rule_store)),
            old(stack)@.is_prefix_of(final(stack)@),
            lists_empty(next_rules_by_scope.entries@) ==> final(stack)@ == old(stack)@,
            res is Ok ==> pushed_rules(final(stack)@, old(stack)@.len() as int) == scoped_next(
                next_rules_by_scope.entries@,
                entries_view(self.substitutions.entries@),
            ),
    {
        let ghost stack0 = stack@;
        let ghost tags = entries_view(self.substitutions.entries@);
        let ghost es = next_rules_by_scope.entries@;
        let mut i: usize = 0;
        assert(pushed_rules(stack@, stack0.len() as int) =~= scoped_next(es.take(0), tags));
        while i < next_rules_by_scope.entries.len()
            invariant
                i <= next_rules_by_scope.entries@.len(),
                es == next_rules_by_scope.entries@,
                tags == entries_view(self.substitutions.entries@),
                cache_only(*old(rule_store), *rule_store),
                stack0 == old(stack)@,
                stack0.is_prefix_of(stack@),
                lists_empty(next_rules_by_scope.entries@) ==> stack@ == stack0,
                pushed_rules(stack@, stack0.len() as int) == scoped_next(es.take(i as int), tags),
            decreases next_rules_by_scope.entries@.len() - i,
        {
            let scope_level = &next_rules_by_scope.entries[i].0;
            let rules = &next_rules_by_scope.entries[i].1;
            let ghost base = scoped_next(es.take(i as int), tags);
            let ghost rv = rules_view(rules@);
            assert(es.take(i + 1).drop_last() =~= es.take(i as int));
            assert(es.take(i + 1).last() == es[i as int]);
            assert(lists_empty(next_rules_by_scope.entries@) ==> rules@.len() == 0);
            if (str_eq(scope_level.as_str(), "Method") || str_eq(scope_level.as_str(), "Class")) && rules.len() > 0 {
                let scope_query = self.get_scope_query(scope_level.as_str(), current_edit, rule_store)?;
                let mut j: usize = 0;
                assert(rv.take(0).map_values(|r: RuleV| spec_inst(r, tags)) =~= Seq::<RuleV>::empty());
                assert(base + rv.take(0).map_values(|r: RuleV| spec_inst(r, tags)) =~= base);
                while j < rules.len()
                    invariant
                        j <= rules@.len(),
                        rv == rules_view(rules@),
                        tags == entries_view(self.substitutions.entries@),
                        cache_only(*old(rule_store), *rule_store),
                        stack0 == old(stack)@,
                        stack0.is_prefix_of(stack@),
                        lists_empty(next_rules_by_scope.entries@) ==> rules@.len() == 0,
                        lists_empty(next_rules_by_scope.entries@) ==> stack@ == stack0,
                        pushed_rules(stack@, stack0.len() as int) == base + rv.take(j as int).map_values(
                            |r: RuleV| spec_inst(r, tags),
                        ),
                    decreases rules@.len() - j,
                {
                    match rules[j].try_instantiate(&self.substitutions) {
                        Ok(r) => {
                            let ghost before = stack@;
                            let ghost rview = r@;
                            stack.push((copy_string(&scope_query), r));
                            assert(stack0 =~= stack@.subrange(0, stack0.len() as int)) by {
                                assert(stack0 =~= before.subrange(0, stack0.len() as int));
                            }
                            assert(pushed_rules(stack@, stack0.len() as int) =~= pushed_rules(before, stack0.len() as int).push(
                                rview,
                            ));
                            assert(rv[j as int] == rules@[j as int]@);
                            assert(spec_inst(rv[j as int], tags) == rview);
                            assert(rv.take(j + 1).map_values(|r: RuleV| spec_inst(r, tags)) =~= rv.take(
                                j as int,
                            ).map_values(|r: RuleV| spec_inst(r, tags)).push(rview));
                        },
                        Err(_) => {
                            return Err(CleanupError::NotInstantiable(rules[j].name.clone()));
                        },
                    }
                    j = j + 1;
                }
                assert(rv.take(rules@.len() as int) =~= rv);
            } else {
                proof {
                    if is_file_scope(scope_level@) {
                        assert(rv.map_values(|r: RuleV| spec_inst(r, tags)) =~= Seq::<RuleV>::empty());
                    }
                    assert(scoped_next(es.take(i + 1), tags) =~= base);
                }
            }
            i = i + 1;
        }
        assert(es.take(es.len() as int) =~= es);
        Ok(())
    }
}


impl SourceCodeUnit {
    /// `apply_rule_to_first_match`, with recursion and iteration bounded by
    /// `fuel`.
    fn first_match_fuel(
        &mut self,
        rule: Rule,
        rule_store: &mut RuleStore,
        parser: &mut tree_sitter::Parser,
        scope_query: &Option<String>,
        fuel: usize,
    ) -> (res: Result<bool, CleanupError>)
        requires
            engine_ready(*old(self), *old(rule_store)),
        ensures
            !(res matches Err(CleanupError::TooManyRounds)),
            engine_step(*old(self), *old(rule_store), *final(self), *final(rule_store)),
            res == Ok::<bool, CleanupError>(false) ==> engine_unchanged(
                *old(self),
                *old(rule_store),
                *final(self),
                *final(rule_store),
            ),
            res == Ok::<bool, CleanupError>(true) && leads_nowhere(*old(rule_store), rule@) ==> rewritten_once(
                *old(self),
                *final(self),
                rule@,
            ),
        decreases fuel,
    {
        let ghost rv = rule@;
        proof {
            lemma_store_grows_refl(*rule_store);
        }
        if fuel == 0 {
            return Err(CleanupError::OutOfFuel);
        }
        let found = {
            let scope_node = self.get_scope_node(scope_query, rule_store)?;
            self.get_any_match_for_rule(&rule, rule_store, scope_node, true)?
        };
        let (range, replacement, code_snippets_by_tag) = match found {
            Some(m) => m,
            None => {
                return Ok(false);
            },
        };
        let ghost tags = code_snippets_by_tag;
        let edit = Edit::new(range, replacement, rule.copy(), StrMap::new());
        let first_edit = self.try_apply_edit(&edit, parser)?;
        self.add_to_substitutions(code_snippets_by_tag);
        proof {
            assert(replaced_bytes(
                encode_utf8(old(self).code@),
                range,
                encode_utf8(substitute_pairs(rv.replace, entries_view(tags.entries@))),
            ) == encode_utf8(self.code@));
            assert(rewritten_once(*old(self), *self, rv));
        }
        let ghost u1 = *self;
        let mut current_edit = first_edit;
        let mut current_rule = rule;
        let mut file_level_next_rules: Vec<(String, Rule)> = Vec::new();
        let mut steps: usize = fuel;
        loop
            invariant
                engine_step(*old(self), *old(rule_store), *self, *rule_store),
                fuel > 0,
                rewritten_once(*old(self), u1, rv),
                leads_nowhere(*old(rule_store), rv) ==> self.code == u1.code && self.substitutions == u1.substitutions
                    && file_level_next_rules@.len() == 0 && current_rule@.name == rv.name,
            decreases steps,
        {
            if steps == 0 {
                return Err(CleanupError::OutOfFuel);
            }
            steps = steps - 1;
            let next_rules_by_scope = match rule_store.try_get_next(&current_rule, &self.substitutions) {
                Some(n) => n,
                None => {
                    return Err(CleanupError::NotInstantiable(current_rule.name.clone()));
                },
            };
            proof {
                if leads_nowhere(*old(rule_store), rv) {
                    lemma_nowhere_next(
                        rule_store.rule_graph.spec_graph(),
                        rule_map_view(rule_store.rules_by_name@),
                        current_rule@.name,
                        entries_view(self.substitutions.entries@),
                        rule_store.rules_by_name.entries@.len() as nat,
                    );
                    lemma_lists_empty_of_view(next_rules_by_scope.entries@);
                }
            }
            let ghost s1 = *rule_store;
            self.add_rules_to_stack(&next_rules_by_scope, &current_edit, rule_store, &mut file_level_next_rules)?;
            if let Some(globals) = next_rules_by_scope.get("Global") {
                let mut i: usize = 0;
                while i < globals.len()
                    invariant
                        i <= globals@.len(),
                        engine_step(*old(self), *old(rule_store), *self, *rule_store),
                        rewritten_once(*old(self), u1, rv),
                        leads_nowhere(*old(rule_store), rv) ==> self.code == u1.code && self.substitutions
                            == u1.substitutions && file_level_next_rules@.len() == 0 && current_rule@.name == rv.name,
                    decreases globals@.len() - i,
                {
                    let ghost s2 = *rule_store;
                    let added = add_global(rule_store, &globals[i], &self.substitutions);
                    proof {
                        lemma_store_grows_trans(*old(rule_store), s2, *rule_store);
                    }
                    added?;
                    i = i + 1;
                }
            }
            let no_rules: Vec<Rule> = Vec::new();
            let parents = match next_rules_by_scope.get("Parent") {
                Some(p) => p,
                None => &no_rules,
            };
            proof {
                if leads_nowhere(*old(rule_store), rv) && next_rules_by_scope@.contains_key("Parent"@) {
                    crate::str_map::lemma_lookup_index(next_rules_by_scope.entries@, "Parent"@);
                }
            }
            match self.match_rules_to_context(&current_edit, rule_store, parents)? {
                Some((c_range, replacement_str, matched_rule, code_snippets_by_tag_parent_rule)) => {
                    let parent_edit = Edit::new(c_range, replacement_str, matched_rule.copy(), StrMap::new());
                    current_edit = self.try_apply_edit(&parent_edit, parser)?;
                    current_rule = matched_rule;
                    self.add_to_substitutions(code_snippets_by_tag_parent_rule);
                },
                None => {
                    break;
                },
            }
        }
        while file_level_next_rules.len() > 0
            invariant
                engine_step(*old(self), *old(rule_store), *self, *rule_store),
                fuel > 0,
                rewritten_once(*old(self), u1, rv),
                leads_nowhere(*old(rule_store), rv) ==> self.code == u1.code && self.substitutions == u1.substitutions
                    && file_level_next_rules@.len() == 0,
            decreases file_level_next_rules@.len(),
        {
            let (sq, rle) = match file_level_next_rules.pop() {
                Some(x) => x,
                None => {
                    break;
                },
            };
            let ghost u1 = *self;
            let ghost s1 = *rule_store;
            let applied = self.apply_rule_fuel(rle, rule_store, parser, &Some(sq), fuel - 1);
            proof {
                lemma_engine_step_trans(*old(self), *old(rule_store), u1, s1, *self, *rule_store);
            }
            applied?;
        }
        Ok(true)
    }

    /// `apply_rule`, with recursion and iteration bounded by `fuel`.
    fn apply_rule_fuel(
        &mut self,
        rule: Rule,
        rule_store: &mut RuleStore,
        parser: &mut tree_sitter::Parser,
        scope_query: &Option<String>,
        fuel: usize,
    ) -> (res: Result<bool, CleanupError>)
        requires
            engine_ready(*old(self), *old(rule_store)),
        ensures
            !(res matches Err(CleanupError::TooManyRounds)),
            engine_step(*old(self), *old(rule_store), *final(self), *final(rule_store)),
            res == Ok::<bool, CleanupError>(false) ==> engine_unchanged(
                *old(self),
                *old(rule_store),
                *final(self),
                *final(rule_store),
            ),
        decreases fuel,
    {
        proof {
            lemma_store_grows_refl(*rule_store);
        }
        if fuel == 0 {
            return Err(CleanupError::OutOfFuel);
        }
        let mut any_match = false;
        let mut budget: usize = fuel;
        while budget > 0
            invariant
                engine_step(*old(self), *old(rule_store), *self, *rule_store),
                !any_match ==> engine_unchanged(*old(self), *old(rule_store), *self, *rule_store),
                fuel > 0,
            decreases budget,
        {
            budget = budget - 1;
            let ghost u1 = *self;
            let ghost s1 = *rule_store;
            let applied = self.first_match_fuel(rule.copy(), rule_store, parser, scope_query, fuel - 1);
            proof {
                lemma_engine_step_trans(*old(self), *old(rule_store), u1, s1, *self, *rule_store);
            }
            if !applied? {
                return Ok(any_match);
            }
            any_match = true;
        }
        Err(CleanupError::OutOfFuel)
    }

    /// Applies the rule to its first match (in the scope that `scope_query`
    /// delimits, else anywhere in the file) that satisfies its constraint,
    /// then cascades: the rules that follow in the `Parent` scope are tried
    /// on the changed node and its nearest ancestors, and the first match is
    /// applied in turn, until none matches; the rules that follow in the
    /// `Method` and `Class` scopes are queued with the query of the enclosing
    /// method or class and applied afterwards, the last queued first; those
    /// that follow in the `Global` scope become global rules. The captures of
    /// every applied match are added to the substitutions. Whether the rule
    /// matched. A rule that no edge leaves rewrites the file once.
    pub fn apply_rule_to_first_match(
        &mut self,
        rule: Rule,
        rule_store: &mut RuleStore,
        parser: &mut tree_sitter::Parser,
        scope_query: &Option<String>,
    ) -> (res: Result<bool, CleanupError>)
        requires
            engine_ready(*old(self), *old(rule_store)),
        ensures
            !(res matches Err(CleanupError::TooManyRounds)),
            engine_step(*old(self), *old(rule_store), *final(self), *final(rule_store)),
            res == Ok::<bool, CleanupError>(false) ==> engine_unchanged(
                *old(self),
                *old(rule_store),
                *final(self),
                *final(rule_store),
            ),
            res == Ok::<bool, CleanupError>(true) && leads_nowhere(*old(rule_store), rule@) ==> rewritten_once(
                *old(self),
                *final(self),
                rule@,
            ),
    {
        self.first_match_fuel(rule, rule_store, parser, scope_query, usize::MAX)
    }

    /// The matches of the instantiated rule (its query over the scope that
    /// `scope_query` delimits, else the whole file) that satisfy its
    /// constraint and its filters: the range to rewrite and the match's tags;
    /// only the first when `first_only`. None when a filter's fact filter
    /// holds of no fact.
    pub fn passing_matches(
        &self,
        rule: &InstantiatedRule,
        rule_store: &mut RuleStore,
        scope_query: &Option<String>,
        first_only: bool,
    ) -> (res: Result<Vec<(Range, StrMap<String>)>, CleanupError>)
        requires
            old(rule_store).rule_query_cache.wf(),
        ensures
            !(res matches Err(CleanupError::TooManyRounds)),
            cache_only(*old(rule_store), *final(rule_store)),
            (exists|k: int|
                0 <= k < rule.filters@.len() && !facts_meet(self.facts@, (#[trigger] rule.filters@[k])@.fact_filter))
                ==> (res matches Ok(v) && v@.len() == 0) || res is Err,
            first_only ==> (res matches Ok(v) ==> v@.len() <= 1),
    {
        let ghost s0 = *rule_store;
        let scope_node = self.get_scope_node(scope_query, rule_store)?;
        let query_str = rule.rule.get_query();
        let mut all = match rule_store.get_query(&query_str) {
            Some(q) => scope_node.get_all_matches_for_query(&self.code, q, true, Some(rule.rule.replace_node.clone())),
            None => {
                return Err(CleanupError::InvalidQuery(query_str));
            },
        };
        let mut out: Vec<(Range, StrMap<String>)> = Vec::new();
        while all.len() > 0
            invariant
                cache_only(s0, *rule_store),
                s0 == *old(rule_store),
                (exists|k: int|
                    0 <= k < rule.filters@.len() && !facts_meet(self.facts@, (#[trigger] rule.filters@[k])@.fact_filter))
                    ==> out@.len() == 0,
                first_only ==> out@.len() == 0,
            decreases all@.len(),
        {
            let (range, tags) = all.remove(0);
            let matched_node = match self.get_node_for_range(range.start_byte, range.end_byte) {
                Some(n) => n,
                None => {
                    return Err(CleanupError::NoNodeForRange(range));
                },
            };
            if self.satisfies_constraint(matched_node, &rule.rule, &tags, rule_store)? {
                if self.is_satisfied(matched_node, rule, &tags, rule_store) {
                    out.push((range, tags));
                    if first_only {
                        return Ok(out);
                    }
                }
            }
        }
        Ok(out)
    }

    /// Applies an instantiated rule, with its filters, in the scope that
    /// `scope_query` delimits (else the whole file). A fact rule records, at
    /// each of its matches that satisfies its constraint and its filters, a
    /// fact over the match's range whose data is the rule's fact with the
    /// match's tags substituted in its values; it does not rewrite. Any other
    /// rule rewrites its first such match with its replacement, the tags
    /// substituted, and adds the tags to the substitutions, again until no
    /// match passes (the edges of the rule graph are not followed). Whether
    /// the rule matched.
    pub fn apply_instantiated_rule(
        &mut self,
        rule: &InstantiatedRule,
        rule_store: &mut RuleStore,
        parser: &mut tree_sitter::Parser,
        scope_query: &Option<String>,
    ) -> (res: Result<bool, CleanupError>)
        requires
            engine_ready(*old(self), *old(rule_store)),
        ensures
            !(res matches Err(CleanupError::TooManyRounds)),
            engine_step(*old(self), *old(rule_store), *final(self), *final(rule_store)),
            res == Ok::<bool, CleanupError>(false) ==> engine_unchanged(
                *old(self),
                *old(rule_store),
                *final(self),
                *final(rule_store),
            ) && final(self).facts@ == old(self).facts@,
            rule.rule.fact is Some ==> final(self).code == old(self).code && final(self).substitutions
                == old(self).substitutions && final(self).facts@.len() >= old(self).facts@.len() && forall|i: int|
                0 <= i < old(self).facts@.len() ==> #[trigger] final(self).facts@[i] == old(self).facts@[i],
            rule.rule.fact is Some && res is Ok ==> (res == Ok::<bool, CleanupError>(true) <==> final(self).facts@.len()
                > old(self).facts@.len()),
            rule.rule.fact is None && (exists|k: int|
                0 <= k < rule.filters@.len() && !facts_meet(old(self).facts@, (#[trigger] rule.filters@[k])@.fact_filter))
                ==> final(self).code == old(self).code && final(self).facts@ == old(self).facts@
                && final(self).rewrites@ == old(self).rewrites@,
    {
        proof {
            lemma_store_grows_refl(*rule_store);
        }
        let ghost s0 = *rule_store;
        if let Some(fact) = &rule.rule.fact {
            let found = self.passing_matches(rule, rule_store, scope_query, false);
            proof {
                lemma_store_grows_refl(*rule_store);
            }
            let ms = match found {
                Ok(v) => v,
                Err(e) => {
                    return Err(e);
                },
            };
            let mut i: usize = 0;
            while i < ms.len()
                invariant
                    i <= ms@.len(),
                    self.code == old(self).code,
                    self.substitutions == old(self).substitutions,
                    self.path == old(self).path,
                    self.facts@.len() == old(self).facts@.len() + i,
                    forall|j: int| 0 <= j < old(self).facts@.len() ==> #[trigger] self.facts@[j] == old(self).facts@[j],
                    self.rewrites == old(self).rewrites,
                decreases ms@.len() - i,
            {
                let mut data: StrMap<String> = StrMap::new();
                let mut j: usize = 0;
                while j < fact.len()
                    invariant
                        j <= fact@.len(),
                        i < ms@.len(),
                        data.wf(),
                    decreases fact@.len() - j,
                {
                    let v = substitute_text(fact[j].1.as_str(), &ms[i].1);
                    data.insert(copy_string(&fact[j].0), v);
                    j = j + 1;
                }
                self.facts.push(Fact::new(ms[i].0, data));
                i = i + 1;
            }
            assert(self.facts@ =~= old(self).facts@ || ms@.len() > 0);
            return Ok(ms.len() > 0);
        }
        assert(rule.rule.fact is None);
        let mut any = false;
        let mut fuel: usize = usize::MAX;
        while fuel > 0
            invariant
                engine_step(*old(self), s0, *self, *rule_store),
                cache_only(s0, *rule_store),
                !any ==> engine_unchanged(*old(self), s0, *self, *rule_store) && self.facts@ == old(self).facts@
                    && self.rewrites@ == old(self).rewrites@,
                rule.rule.fact is None,
                s0 == *old(rule_store),
                (exists|k: int|
                    0 <= k < rule.filters@.len() && !facts_meet(old(self).facts@, (#[trigger] rule.filters@[k])@.fact_filter))
                    ==> !any,
            decreases fuel,
        {
            fuel = fuel - 1;
            let ghost sb = *rule_store;
            let found = self.passing_matches(rule, rule_store, scope_query, true);
            proof {
                lemma_store_grows_refl(*rule_store);
            }
            let ms = match found {
                Ok(v) => v,
                Err(e) => {
                    return Err(e);
                },
            };
            if ms.len() == 0 {
                return Ok(any);
            }
            let range = ms[0].0;
            let tags = crate::fact::copy_table(&ms[0].1);
            let replacement = rule.rule.replace.substitute_tags(&tags);
            let edit = Edit::new(range, replacement, rule.rule.copy(), StrMap::new());
            self.try_apply_edit(&edit, parser)?;
            self.add_to_substitutions(tags);
            any = true;
        }
        Err(CleanupError::OutOfFuel)
    }

    /// Applies the rule to its first match, again and again, until it
    /// matches no more. Whether it matched at all.
    pub fn apply_rule(
        &mut self,
        rule: Rule,
        rule_store: &mut RuleStore,
        parser: &mut tree_sitter::Parser,
        scope_query: &Option<String>,
    ) -> (res: Result<bool, CleanupError>)
        requires
            engine_ready(*old(self), *old(rule_store)),
        ensures
            !(res matches Err(CleanupError::TooManyRounds)),
            engine_step(*old(self), *old(rule_store), *final(self), *final(rule_store)),
            res == Ok::<bool, CleanupError>(false) ==> engine_unchanged(
                *old(self),
                *old(rule_store),
                *final(self),
                *final(rule_store),
            ),
    {
        self.apply_rule_fuel(rule, rule_store, parser, scope_query, usize::MAX)
    }

    /// Applies each of the rules in turn, as `apply_rule` does. Whether any
    /// matched.
    pub fn apply_rules(
        &mut self,
        rule_store: &mut RuleStore,
        rules: &Vec<Rule>,
        parser: &mut tree_sitter::Parser,
        scope_query: Option<String>,
    ) -> (res: Result<bool, CleanupError>)
        requires
            engine_ready(*old(self), *old(rule_store)),
        ensures
            !(res matches Err(CleanupError::TooManyRounds)),
            engine_step(*old(self), *old(rule_store), *final(self), *final(rule_store)),
            res == Ok::<bool, CleanupError>(false) ==> engine_unchanged(
                *old(self),
                *old(rule_store),
                *final(self),
                *final(rule_store),
            ),
            rules@.len() == 0 ==> res == Ok::<bool, CleanupError>(false),
    {
        proof {
            lemma_store_grows_refl(*rule_store);
        }
        let mut any_rule_applied = false;
        let mut i: usize = 0;
        while i < rules.len()
            invariant
                i <= rules@.len(),
                engine_step(*old(self), *old(rule_store), *self, *rule_store),
                !any_rule_applied ==> engine_unchanged(*old(self), *old(rule_store), *self, *rule_store),
                rules@.len() == 0 ==> !any_rule_applied,
            decreases rules@.len() - i,
        {
            let ghost u1 = *self;
            let ghost s1 = *rule_store;
            let applied = self.apply_rule(rules[i].copy(), rule_store, parser, &scope_query);
            proof {
                lemma_engine_step_trans(*old(self), *old(rule_store), u1, s1, *self, *rule_store);
            }
            if applied? {
                any_rule_applied = true;
            }
            i = i + 1;
        }
        Ok(any_rule_applied)
    }
}


/// The files, in order, whose path has the extension and whose content the
/// pattern matches.
pub open spec fn files_with_pattern(
    files: Seq<(Seq<char>, Seq<char>)>,
    ext: Seq<char>,
    pattern: Seq<char>,
) -> Seq<(Seq<char>, Seq<char>)>
    decreases files.len(),
{
    if files.len() == 0 {
        seq![]
    } else {
        let prev = files_with_pattern(files.drop_last(), ext, pattern);
        let f = files.last();
        if has_extension(f.0, ext) && regex_match_result(pattern, f.1) == Some(true) {
            prev.push(f)
        } else {
            prev
        }
    }
}

/// `k` is the path of a file of `files`, and has the extension `ext`.
pub open spec fn from_files(k: Seq<char>, files: Seq<(String, String)>, ext: Seq<char>) -> bool {
    has_extension(k, ext) && exists|j: int| 0 <= j < files.len() && files[j].0@ == k
}

/// The path of every file of `v` is the path of a file of `files` and has
/// the extension `ext`.
pub open spec fn paths_among(v: Seq<(String, String)>, files: Seq<(String, String)>, ext: Seq<char>) -> bool {
    forall|a: int| 0 <= a < v.len() ==> from_files((#[trigger] v[a]).0@, files, ext)
}

/// `k` is the path of a file of the list, with the extension, whose content
/// the grep pattern of the first `n` rules of `rules` matches, for some `n`.
pub open spec fn matched_grep(files: Seq<(String, String)>, k: Seq<char>, ext: Seq<char>, rules: Seq<RuleV>) -> bool {
    exists|j: int, n: int, p: Seq<char>|
        #![trigger files[j], is_grep_pattern(rules.take(n), p)]
        0 <= j < files.len() && 0 <= n <= rules.len() && files[j].0@ == k && has_extension(k, ext) && is_grep_pattern(
            rules.take(n),
            p,
        ) && regex_match_result(p, files[j].1@) == Some(true)
}

/// Each file a pattern picks is a file of the list, with the extension,
/// whose content the pattern matches.
proof fn lemma_picked(fs: Seq<(Seq<char>, Seq<char>)>, ext: Seq<char>, p: Seq<char>, a: int)
    requires
        0 <= a < files_with_pattern(fs, ext, p).len(),
    ensures
        exists|j: int| 0 <= j < fs.len() && #[trigger] fs[j] == files_with_pattern(fs, ext, p)[a],
        has_extension(files_with_pattern(fs, ext, p)[a].0, ext),
        regex_match_result(p, files_with_pattern(fs, ext, p)[a].1) == Some(true),
    decreases fs.len(),
{
    let prev = files_with_pattern(fs.drop_last(), ext, p);
    if a < prev.len() {
        lemma_picked(fs.drop_last(), ext, p, a);
        let j = choose|j: int| 0 <= j < fs.drop_last().len() && #[trigger] fs.drop_last()[j] == prev[a];
        assert(fs[j] == fs.drop_last()[j]);
    } else {
        assert(fs[fs.len() - 1] == fs.last());
    }
}

/// A file matched by the grep pattern of some first rules stays so when the
/// rules grow.
proof fn lemma_matched_grep_grows(files: Seq<(String, String)>, k: Seq<char>, ext: Seq<char>, a: Seq<RuleV>, b: Seq<RuleV>)
    requires
        a.is_prefix_of(b),
        matched_grep(files, k, ext, a),
    ensures
        matched_grep(files, k, ext, b),
{
    let (j, n, p) = choose|j: int, n: int, p: Seq<char>|
        #![trigger files[j], is_grep_pattern(a.take(n), p)]
        0 <= j < files.len() && 0 <= n <= a.len() && files[j].0@ == k && has_extension(k, ext) && is_grep_pattern(
            a.take(n),
            p,
        ) && regex_match_result(p, files[j].1@) == Some(true);
    lemma_take_prefix(a, b, n);
    assert(is_grep_pattern(b.take(n), p));
}

/// The first `n` rules stay the same when the rules grow.
proof fn lemma_take_prefix(a: Seq<RuleV>, b: Seq<RuleV>, n: int)
    requires
        a.is_prefix_of(b),
        0 <= n <= a.len(),
    ensures
        a.take(n) == b.take(n),
{
    assert(a.take(n) =~= b.take(n));
}

/// No file of the list has the extension `ext`.
pub open spec fn none_with_extension(files: Seq<(String, String)>, ext: Seq<char>) -> bool {
    forall|i: int| 0 <= i < files.len() ==> !has_extension((#[trigger] files[i]).0@, ext)
}

/// Whether every grep pattern of the rules is a regular expression.
pub open spec fn grep_compiles(rules: Seq<RuleV>) -> bool {
    forall|p: Seq<char>| #[trigger] is_grep_pattern(rules, p) ==> regex_match_result(p, seq![]) is Some
}

/// No file is picked by a pattern when no file has the extension.
proof fn lemma_none_picked(fs: Seq<(Seq<char>, Seq<char>)>, ext: Seq<char>, p: Seq<char>)
    requires
        forall|i: int| 0 <= i < fs.len() ==> !has_extension((#[trigger] fs[i]).0, ext),
    ensures
        files_with_pattern(fs, ext, p).len() == 0,
    decreases fs.len(),
{
    if fs.len() > 0 {
        assert forall|i: int| 0 <= i < fs.drop_last().len() implies !has_extension((#[trigger] fs.drop_last()[i]).0, ext) by {
            assert(fs.drop_last()[i] == fs[i]);
        }
        lemma_none_picked(fs.drop_last(), ext, p);
        assert(!has_extension(fs[fs.len() - 1].0, ext));
    }
}

/// Every grep pattern of the rules matches the content.
pub open spec fn grep_matches(rules: Seq<RuleV>, content: Seq<char>) -> bool {
    forall|p: Seq<char>| #[trigger] is_grep_pattern(rules, p) ==> regex_match_result(p, content) == Some(true)
}

/// Every file of `files` with the extension `ext` whose content the grep
/// pattern of `rules` matches is under rewrite in `m`.
pub open spec fn covers_matching(
    m: Map<Seq<char>, SourceCodeUnit>,
    files: Seq<(String, String)>,
    n: int,
    ext: Seq<char>,
    rules: Seq<RuleV>,
) -> bool {
    forall|a: int|
        0 <= a < n && has_extension((#[trigger] files[a]).0@, ext) && grep_matches(rules, files[a].1@) ==> m.contains_key(
            files[a].0@,
        )
}

/// Every file of the list is under rewrite.
pub open spec fn covers(m: Map<Seq<char>, SourceCodeUnit>, fs: Seq<(Seq<char>, Seq<char>)>) -> bool {
    forall|k: int| 0 <= k < fs.len() ==> m.contains_key((#[trigger] fs[k]).0)
}

/// The global rules of a list all have grep heuristics.
pub proof fn lemma_globals_have_heuristics(rs: Seq<RuleV>, subs: StrMap<String>)
    ensures
        all_have_heuristics(globals_of(rs, subs)),
    decreases rs.len(),
{
    if rs.len() > 0 {
        lemma_globals_have_heuristics(rs.drop_last(), subs);
    }
}

/// A growing store keeps its global rules' grep heuristics.
pub proof fn lemma_grows_keeps_heuristics(a: RuleStore, b: RuleStore)
    requires
        store_grows(a, b),
        all_have_heuristics(rules_view(a.global_rules@)),
    ensures
        all_have_heuristics(rules_view(b.global_rules@)),
{
    let va = rules_view(a.global_rules@);
    let vb = rules_view(b.global_rules@);
    assert forall|i: int| 0 <= i < vb.len() implies (#[trigger] vb[i]).grep_heuristics is Some by {
        if i < va.len() {
            assert(va[i] == vb[i]);
        } else {
            assert(vb[i] == b.global_rules@[i]@);
        }
    }
}

/// A file under rewrite is kept under its path and has well-formed
/// substitutions.
pub open spec fn unit_ok(e: (String, SourceCodeUnit)) -> bool {
    e.1.substitutions.wf() && e.1.path@ == e.0@
}

/// The cleanup of a code base: the rule store, the path of the code base and
/// the files under rewrite, by path.
pub struct FlagCleaner {
    /// The state of the rules.
    pub rule_store: RuleStore,
    /// The path to the code base.
    pub path_to_codebase: String,
    /// The files under rewrite, by path.
    pub relevant_files: StrMap<SourceCodeUnit>,
}

impl FlagCleaner {
    /// The store's tables and the files are well formed, and every global
    /// rule has grep heuristics.
    pub open spec fn wf(&self) -> bool {
        &&& self.rule_store.rule_query_cache.wf()
        &&& self.rule_store.rules_by_name.wf()
        &&& self.rule_store.piranha_args.input_substitutions.wf()
        &&& all_have_heuristics(rules_view(self.rule_store.global_rules@))
        &&& self.relevant_files.wf()
        &&& forall|i: int| 0 <= i < self.relevant_files.entries@.len() ==> unit_ok(#[trigger] self.relevant_files.entries@[i])
    }

    /// The cleanup of the code base at `args.path_to_code_base`, with the rule
    /// store that `RuleStore::new` builds and no file under rewrite yet.
    pub fn new(
        args: PiranhaArguments,
        language_rules: Rules,
        language_edges: Edges,
        scopes: Vec<ScopeGenerator>,
        input_rules: Rules,
        input_edges: Edges,
    ) -> (c: FlagCleaner)
        requires
            args.input_substitutions.wf(),
            edges_resolve(
                edges_view(language_edges.edges@ + input_edges.edges@),
                all_rules(rules_view(language_rules.rules@), rules_view(input_rules.rules@)),
            ),
            api_rules_have_holes(all_rules(rules_view(language_rules.rules@), rules_view(input_rules.rules@))),
        ensures
            c.wf(),
            c.path_to_codebase@ == args.path_to_code_base@,
            c.relevant_files.entries@.len() == 0,
            c.rule_store.piranha_args == args,
            c.rule_store.scopes@ == scopes@,
            c.rule_store.rule_graph.spec_graph() == graph_of(
                edges_view(language_edges.edges@ + input_edges.edges@),
                all_rules(rules_view(language_rules.rules@), rules_view(input_rules.rules@)),
            ),
            rule_map_view(c.rule_store.rules_by_name@) == names_map(
                all_rules(rules_view(language_rules.rules@), rules_view(input_rules.rules@)),
            ),
            rules_view(c.rule_store.global_rules@) == globals_of(
                entry_rules(c.rule_store.rules_by_name.entries@),
                args.input_substitutions,
            ),
    {
        let path_to_codebase = copy_string(&args.path_to_code_base);
        let rule_store = RuleStore::new(args, language_rules, language_edges, scopes, input_rules, input_edges);
        proof {
            lemma_globals_have_heuristics(
                entry_rules(rule_store.rules_by_name.entries@),
                rule_store.piranha_args.input_substitutions,
            );
        }
        FlagCleaner { rule_store, path_to_codebase, relevant_files: StrMap::new() }
    }

    /// Copies of the files under rewrite, in the order they were first
    /// rewritten.
    pub fn get_updated_files(&self) -> (res: Vec<SourceCodeUnit>)
        ensures
            res@.len() == self.relevant_files.entries@.len(),
            forall|i: int|
                0 <= i < res@.len() ==> (#[trigger] res@[i]).code@ == self.relevant_files.entries@[i].1.code@
                    && res@[i].path@ == self.relevant_files.entries@[i].1.path@,
    {
        let mut res: Vec<SourceCodeUnit> = Vec::new();
        let mut i: usize = 0;
        while i < self.relevant_files.entries.len()
            invariant
                i <= self.relevant_files.entries@.len(),
                res@.len() == i,
                forall|j: int|
                    0 <= j < i ==> (#[trigger] res@[j]).code@ == self.relevant_files.entries@[j].1.code@
                        && res@[j].path@ == self.relevant_files.entries@[j].1.path@,
            decreases self.relevant_files.entries@.len() - i,
        {
            res.push(self.relevant_files.entries[i].1.copy());
            i = i + 1;
        }
        res
    }

    /// The pattern that a file where a global rule may match contains: the
    /// global rules' grep heuristics (but `true` and `false`), sorted, each
    /// once, joined with `|`.
    pub fn get_grep_heuristics(&self) -> (r: String)
        requires
            self.wf(),
        ensures
            is_grep_pattern(rules_view(self.rule_store.global_rules@), r@),
    {
        grep_pattern(&self.rule_store.global_rules)
    }

    /// The files, in order, with the language's extension and where the grep
    /// pattern matches; an error when the pattern is not a regular
    /// expression.
    pub fn get_files_containing_feature_flag_api_usage(&self, files: &Vec<(String, String)>) -> (res: Result<
        Vec<(String, String)>,
        CleanupError,
    >)
        requires
            self.wf(),
        ensures
            !(res matches Err(CleanupError::TooManyRounds)),
            exists|p: Seq<char>|
                #![trigger is_grep_pattern(rules_view(self.rule_store.global_rules@), p)]
                is_grep_pattern(rules_view(self.rule_store.global_rules@), p) && ((res is Ok) == (regex_match_result(
                    p,
                    seq![],
                ) is Some)) && (res matches Ok(v) ==> entries_view(v@) == files_with_pattern(
                    entries_view(files@),
                    self.rule_store.piranha_args.extension@,
                    p,
                )),
            res matches Ok(v) ==> paths_among(v@, files@, self.rule_store.piranha_args.extension@),
    {
        let pattern = self.get_grep_heuristics();
        if !regex_compiles(pattern.as_str()) {
            return Err(CleanupError::InvalidPattern(pattern));
        }
        let ghost fv = entries_view(files@);
        let ghost ext = self.rule_store.piranha_args.extension@;
        let mut out: Vec<(String, String)> = Vec::new();
        let mut i: usize = 0;
        assert(fv.take(0) =~= Seq::<(Seq<char>, Seq<char>)>::empty());
        while i < files.len()
            invariant
                i <= files@.len(),
                fv == entries_view(files@),
                ext == self.rule_store.piranha_args.extension@,
                regex_match_result(pattern@, seq![]) is Some,
                entries_view(out@) == files_with_pattern(fv.take(i as int), ext, pattern@),
                paths_among(out@, files@, ext),
            decreases files@.len() - i,
        {
            assert(fv.take(i + 1).drop_last() =~= fv.take(i as int));
            assert(fv.take(i + 1).last() == fv[i as int]);
            let path = &files[i].0;
            let content = &files[i].1;
            if path_has_extension(path.as_str(), self.rule_store.piranha_args.extension.as_str()) {
                match regex_is_match(pattern.as_str(), content.as_str()) {
                    Some(true) => {
                        let ghost before = out@;
                        out.push((copy_string(path), copy_string(content)));
                        assert(entries_view(out@) =~= entries_view(before).push(fv[i as int]));
                        assert forall|a: int| 0 <= a < out@.len() implies from_files((#[trigger] out@[a]).0@, files@, ext) by {
                            if a == out@.len() - 1 {
                                assert(out@[a].0@ == files@[i as int].0@);
                            } else {
                                assert(out@[a] == before[a]);
                            }
                        }
                    },
                    Some(false) => {},
                    None => {
                        return Err(CleanupError::InvalidPattern(pattern));
                    },
                }
            }
            i = i + 1;
        }
        assert(fv.take(files@.len() as int) =~= fv);
        Ok(out)
    }

    /// Applies the rules to the file at `path`, taken from the files under
    /// rewrite or, the first time, parsed from `content` with the input
    /// substitutions and added to them. Whether any rule applied.
    pub fn apply_rules_to_file(
        &mut self,
        path: &String,
        content: &String,
        rules: &Vec<Rule>,
        parser: &mut tree_sitter::Parser,
    ) -> (res: Result<bool, CleanupError>)
        requires
            old(self).wf(),
        ensures
            !(res matches Err(CleanupError::TooManyRounds)),
            final(self).wf(),
            store_grows(old(self).rule_store, final(self).rule_store),
            final(self).path_to_codebase == old(self).path_to_codebase,
            forall|k: Seq<char>|
                #[trigger] final(self).relevant_files@.contains_key(k) ==> old(self).relevant_files@.contains_key(k)
                    || k == path@,
            res is Ok ==> final(self).relevant_files@.contains_key(path@),
            forall|k: Seq<char>|
                #[trigger] old(self).relevant_files@.contains_key(k) ==> final(self).relevant_files@.contains_key(k),
            res == Ok::<bool, CleanupError>(false) ==> final(self).rule_store.global_rules == old(
                self,
            ).rule_store.global_rules,
            res is Err ==> (res matches Err(CleanupError::ParseFailed) && !old(self).relevant_files@.contains_key(path@))
                || final(self).relevant_files@.contains_key(path@),
    {
        proof {
            lemma_store_grows_refl(self.rule_store);
        }
        let ghost e0 = self.relevant_files.entries@;
        let idx = match self.relevant_files.find(path.as_str()) {
            Some(i) => i,
            None => {
                let unit = match SourceCodeUnit::new(
                    parser,
                    copy_string(content),
                    &self.rule_store.piranha_args.input_substitutions,
                    path.as_str(),
                ) {
                    Some(u) => u,
                    None => {
                        return Err(CleanupError::ParseFailed);
                    },
                };
                proof {
                    let subs = self.rule_store.piranha_args.input_substitutions;
                    assert forall|a: int, b: int| 0 <= a < b < unit.substitutions.entries@.len() implies (
                    #[trigger] unit.substitutions.entries@[a]).0@ != (#[trigger] unit.substitutions.entries@[b]).0@ by {
                        assert(subs.entries@[a].0@ != subs.entries@[b].0@);
                    }
                    crate::str_map::lemma_lookup_index(e0, path@);
                }
                self.relevant_files.entries.push((copy_string(path), unit));
                proof {
                    let e1 = self.relevant_files.entries@;
                    assert forall|a: int, b: int| 0 <= a < b < e1.len() implies (#[trigger] e1[a]).0@ != (
                    #[trigger] e1[b]).0@ by {
                        if b == e0.len() {
                            assert(e0[a].0@ != path@);
                        } else {
                            assert(e0[a].0@ != e0[b].0@);
                        }
                    }
                    assert forall|i: int| 0 <= i < e1.len() implies unit_ok(#[trigger] e1[i]) by {
                        if i < e0.len() {
                            assert(e1[i] == e0[i]);
                        }
                    }
                    assert forall|k: Seq<char>| #[trigger] self.relevant_files@.contains_key(k) implies old(
                        self,
                    ).relevant_files@.contains_key(k) || k == path@ by {
                        crate::str_map::lemma_lookup_index(e1, k);
                        crate::str_map::lemma_lookup_index(e0, k);
                        if k != path@ {
                            let j = choose|j: int| 0 <= j < e1.len() && (#[trigger] e1[j]).0@ == k;
                            assert(j < e0.len());
                            assert(e0[j] == e1[j]);
                        }
                    }
                }
                let j = self.relevant_files.entries.len() - 1;
                assert(self.relevant_files.entries@[j as int].0@ == path@);
                j
            },
        };
        assert(self.relevant_files.entries@[idx as int].0@ == path@);
        let ghost e1 = self.relevant_files.entries@;
        proof {
            assert forall|k: Seq<char>| #[trigger] entry_lookup(e1, k) is Some implies old(self).relevant_files@.contains_key(
                k,
            ) || k == path@ by {
                assert(self.relevant_files@.contains_key(k));
            }
        }
        let ghost s0 = self.rule_store;
        let (key, mut unit) = self.relevant_files.entries.remove(idx);
        assert(unit_ok(e1[idx as int]));
        let applied = unit.apply_rules(&mut self.rule_store, rules, parser, None);
        let ghost nk = key@;
        let ghost u1 = unit;
        self.relevant_files.entries.insert(idx, (key, unit));
        proof {
            let e2 = self.relevant_files.entries@;
            assert(e2.len() == e1.len());
            assert forall|i: int| 0 <= i < e2.len() && i != idx implies #[trigger] e2[i] == e1[i] by {}
            assert(e2[idx as int].0@ == e1[idx as int].0@);
            assert forall|a: int, b: int| 0 <= a < b < e2.len() implies (#[trigger] e2[a]).0@ != (
            #[trigger] e2[b]).0@ by {
                assert(e1[a].0@ != e1[b].0@);
                if a != idx {
                    assert(e2[a] == e1[a]);
                }
                if b != idx {
                    assert(e2[b] == e1[b]);
                }
            }
            assert forall|i: int| 0 <= i < e2.len() implies unit_ok(#[trigger] e2[i]) by {
                if i != idx {
                    assert(e2[i] == e1[i]);
                }
            }
            assert forall|k: Seq<char>| #[trigger] self.relevant_files@.contains_key(k) implies old(
                self,
            ).relevant_files@.contains_key(k) || k == path@ by {
                crate::str_map::lemma_lookup_index(e2, k);
                crate::str_map::lemma_lookup_index(e1, k);
                let j = choose|j: int| 0 <= j < e2.len() && (#[trigger] e2[j]).0@ == k;
                assert(e1[j].0@ == k);
                assert(entry_lookup(e1, k) is Some);
            }
            lemma_grows_keeps_heuristics(s0, self.rule_store);
            assert(e2[idx as int].0@ == path@);
            crate::str_map::lemma_lookup_index(e2, path@);
            assert forall|k: Seq<char>| #[trigger] old(self).relevant_files@.contains_key(k) implies self.relevant_files@.contains_key(
                k,
            ) by {
                crate::str_map::lemma_lookup_index(e0, k);
                crate::str_map::lemma_lookup_index(e2, k);
                let j = choose|j: int| 0 <= j < e0.len() && (#[trigger] e0[j]).0@ == k;
                assert(e1[j] == e0[j]);
                assert(e2[j].0@ == e1[j].0@);
            }
        }
        applied
    }
}


impl FlagCleaner {
    /// Runs the global rules over the files until no new global rule
    /// appears: in each round, the files with the language's extension that
    /// the grep pattern matches are rewritten in turn with the global rules
    /// of the round's start; a round stops early when a global rule is added.
    /// The files under rewrite are taken from `files`, (path, content) pairs.
    /// The rounds are bounded by `usize::MAX`.
    pub fn perform_cleanup(&mut self, files: &Vec<(String, String)>, parser: &mut tree_sitter::Parser) -> (res: Result<
        (),
        CleanupError,
    >)
        requires
            old(self).wf(),
        ensures
            final(self).wf(),
            store_grows(old(self).rule_store, final(self).rule_store),
            final(self).path_to_codebase == old(self).path_to_codebase,
            forall|k: Seq<char>|
                #[trigger] final(self).relevant_files@.contains_key(k) ==> old(self).relevant_files@.contains_key(k)
                    || from_files(k, files@, old(self).rule_store.piranha_args.extension@),
            res is Ok ==> exists|p: Seq<char>|
                #![trigger is_grep_pattern(rules_view(final(self).rule_store.global_rules@), p)]
                is_grep_pattern(rules_view(final(self).rule_store.global_rules@), p) && covers(
                    final(self).relevant_files@,
                    files_with_pattern(entries_view(files@), final(self).rule_store.piranha_args.extension@, p),
                ),
            none_with_extension(files@, old(self).rule_store.piranha_args.extension@) && grep_compiles(
                rules_view(old(self).rule_store.global_rules@),
            ) ==> res is Ok,
            res matches Err(CleanupError::TooManyRounds) ==> final(self).rule_store.global_rules@.len()
                >= old(self).rule_store.global_rules@.len() + usize::MAX,
            forall|k: Seq<char>|
                #[trigger] final(self).relevant_files@.contains_key(k) && !old(self).relevant_files@.contains_key(k)
                    ==> matched_grep(
                    files@,
                    k,
                    old(self).rule_store.piranha_args.extension@,
                    rules_view(final(self).rule_store.global_rules@),
                ),
    {
        proof {
            lemma_store_grows_refl(self.rule_store);
        }
        let ghost sure = none_with_extension(files@, old(self).rule_store.piranha_args.extension@) && grep_compiles(
            rules_view(old(self).rule_store.global_rules@),
        );
        let mut fuel: usize = usize::MAX;
        while fuel > 0
            invariant
                sure == (none_with_extension(files@, old(self).rule_store.piranha_args.extension@) && grep_compiles(
                    rules_view(old(self).rule_store.global_rules@),
                )),
                sure ==> self.rule_store.global_rules@ == old(self).rule_store.global_rules@ && fuel == usize::MAX,
                self.rule_store.global_rules@.len() >= old(self).rule_store.global_rules@.len() + (usize::MAX - fuel),
                self.wf(),
                store_grows(old(self).rule_store, self.rule_store),
                self.path_to_codebase == old(self).path_to_codebase,
                forall|k: Seq<char>|
                    #[trigger] self.relevant_files@.contains_key(k) ==> old(self).relevant_files@.contains_key(k)
                        || from_files(k, files@, old(self).rule_store.piranha_args.extension@),
                forall|k: Seq<char>|
                    #[trigger] self.relevant_files@.contains_key(k) && !old(self).relevant_files@.contains_key(k)
                        ==> matched_grep(
                        files@,
                        k,
                        old(self).rule_store.piranha_args.extension@,
                        rules_view(self.rule_store.global_rules@),
                    ),
            decreases fuel,
        {
            fuel = fuel - 1;
            let current_rules = self.rule_store.get_global_rules();
            let n = self.rule_store.global_rules.len();
            let ghost s_start = self.rule_store;
            let ghost ext = self.rule_store.piranha_args.extension@;
            let found = self.get_files_containing_feature_flag_api_usage(files);
            proof {
                if sure {
                    assert(rules_view(self.rule_store.global_rules@) == rules_view(old(self).rule_store.global_rules@));
                    assert(found is Ok);
                }
            }
            let relevant = match found {
                Ok(v) => v,
                Err(e) => {
                    return Err(e);
                },
            };
            proof {
                if sure {
                    let fv = entries_view(files@);
                    assert forall|i: int| 0 <= i < fv.len() implies !has_extension((#[trigger] fv[i]).0, ext) by {
                        assert(fv[i].0 == files@[i].0@);
                    }
                    let q = choose|p: Seq<char>|
                        is_grep_pattern(rules_view(s_start.global_rules@), p) && entries_view(relevant@)
                            == files_with_pattern(fv, ext, p);
                    lemma_none_picked(fv, ext, q);
                    assert(relevant@.len() == 0);
                }
            }
            let ghost p = choose|p: Seq<char>|
                is_grep_pattern(rules_view(s_start.global_rules@), p) && entries_view(relevant@) == files_with_pattern(
                    entries_view(files@),
                    ext,
                    p,
                );
            proof {
                lemma_store_grows_refl(self.rule_store);
            }
            let mut i: usize = 0;
            while i < relevant.len()
                invariant
                    i <= relevant@.len(),
                    self.wf(),
                    store_grows(old(self).rule_store, self.rule_store),
                    store_grows(s_start, self.rule_store),
                    n == s_start.global_rules@.len(),
                    self.path_to_codebase == old(self).path_to_codebase,
                    paths_among(relevant@, files@, old(self).rule_store.piranha_args.extension@),
                    sure ==> self.rule_store.global_rules@ == s_start.global_rules@ && relevant@.len() == 0,
                    forall|k: Seq<char>|
                        #[trigger] self.relevant_files@.contains_key(k) ==> old(self).relevant_files@.contains_key(k)
                            || from_files(k, files@, old(self).rule_store.piranha_args.extension@),
                    forall|a: int| 0 <= a < i ==> self.relevant_files@.contains_key((#[trigger] relevant@[a]).0@),
                    is_grep_pattern(rules_view(s_start.global_rules@), p),
                    entries_view(relevant@) == files_with_pattern(entries_view(files@), ext, p),
                    ext == old(self).rule_store.piranha_args.extension@,
                    forall|k: Seq<char>|
                        #[trigger] self.relevant_files@.contains_key(k) && !old(self).relevant_files@.contains_key(k)
                            ==> matched_grep(
                            files@,
                            k,
                            old(self).rule_store.piranha_args.extension@,
                            rules_view(self.rule_store.global_rules@),
                        ),
                ensures
                    self.rule_store.global_rules@.len() == n ==> i == relevant@.len(),
                decreases relevant@.len() - i,
            {
                let ghost before = *self;
                let applied = self.apply_rules_to_file(&relevant[i].0, &relevant[i].1, &current_rules, parser);
                proof {
                    lemma_store_grows_trans(old(self).rule_store, before.rule_store, self.rule_store);
                    lemma_store_grows_trans(s_start, before.rule_store, self.rule_store);
                    assert forall|k: Seq<char>| #[trigger] self.relevant_files@.contains_key(k) implies old(
                        self,
                    ).relevant_files@.contains_key(k) || from_files(k, files@, old(self).rule_store.piranha_args.extension@) by {
                        if !before.relevant_files@.contains_key(k) {
                            assert(k == relevant@[i as int].0@);
                        }
                    }
                    let g0 = rules_view(before.rule_store.global_rules@);
                    let g1 = rules_view(self.rule_store.global_rules@);
                    let gs = rules_view(s_start.global_rules@);
                    let ext0 = old(self).rule_store.piranha_args.extension@;
                    assert forall|k: Seq<char>|
                        #[trigger] self.relevant_files@.contains_key(k) && !old(self).relevant_files@.contains_key(k)
                        implies matched_grep(files@, k, ext0, g1) by {
                        if before.relevant_files@.contains_key(k) {
                            lemma_matched_grep_grows(files@, k, ext0, g0, g1);
                        } else {
                            let fv = entries_view(files@);
                            assert(k == relevant@[i as int].0@);
                            assert(entries_view(relevant@)[i as int] == (relevant@[i as int].0@, relevant@[i as int].1@));
                            lemma_picked(fv, ext, p, i as int);
                            let j = choose|j: int| 0 <= j < fv.len() && #[trigger] fv[j] == files_with_pattern(fv, ext, p)[i as int];
                            assert(fv[j] == (files@[j].0@, files@[j].1@));
                            lemma_take_prefix(gs, g1, gs.len() as int);
                            assert(gs.take(gs.len() as int) =~= gs);
                            assert(files@[j].0@ == k);
                            assert(is_grep_pattern(g1.take(gs.len() as int), p));
                        }
                    }
                }
                applied?;
                proof {
                    assert forall|a: int| 0 <= a < i + 1 implies self.relevant_files@.contains_key(
                        (#[trigger] relevant@[a]).0@,
                    ) by {
                        if a < i {
                            assert(before.relevant_files@.contains_key(relevant@[a].0@));
                        }
                    }
                }
                if self.rule_store.global_rules.len() > n {
                    break;
                }
                i = i + 1;
            }
            if self.rule_store.global_rules.len() == n {
                proof {
                    let g0 = rules_view(s_start.global_rules@);
                    let g1 = rules_view(self.rule_store.global_rules@);
                    assert(g0 =~= g1);
                    let fw = files_with_pattern(entries_view(files@), ext, p);
                    assert forall|k: int| 0 <= k < fw.len() implies self.relevant_files@.contains_key(
                        (#[trigger] fw[k]).0,
                    ) by {
                        assert(fw[k] == entries_view(relevant@)[k]);
                        assert(fw[k].0 == relevant@[k].0@);
                    }
                    assert(is_grep_pattern(g1, p) && covers(self.relevant_files@, fw));
                }
                return Ok(());
            }
        }
        Err(CleanupError::TooManyRounds)
    }

    /// Runs the global rules over the files until a round rewrites no file:
    /// in each round, each file with the language's extension that the grep
    /// pattern of the global rules at that moment matches is rewritten with
    /// the global rules of the round's start. The files under rewrite are
    /// taken from `files`, (path, content) pairs. The rounds are bounded by
    /// `usize::MAX`.
    pub fn cleanup(&mut self, files: &Vec<(String, String)>, parser: &mut tree_sitter::Parser) -> (res: Result<
        (),
        CleanupError,
    >)
        requires
            old(self).wf(),
        ensures
            final(self).wf(),
            store_grows(old(self).rule_store, final(self).rule_store),
            final(self).path_to_codebase == old(self).path_to_codebase,
            forall|k: Seq<char>|
                #[trigger] final(self).relevant_files@.contains_key(k) ==> old(self).relevant_files@.contains_key(k)
                    || from_files(k, files@, old(self).rule_store.piranha_args.extension@),
            res is Ok ==> covers_matching(
                final(self).relevant_files@,
                files@,
                files@.len() as int,
                final(self).rule_store.piranha_args.extension@,
                rules_view(final(self).rule_store.global_rules@),
            ),
            none_with_extension(files@, old(self).rule_store.piranha_args.extension@) ==> res is Ok,
    {
        proof {
            lemma_store_grows_refl(self.rule_store);
        }
        let ghost sure = none_with_extension(files@, old(self).rule_store.piranha_args.extension@);
        let mut fuel: usize = usize::MAX;
        while fuel > 0
            invariant
                sure == none_with_extension(files@, old(self).rule_store.piranha_args.extension@),
                sure ==> fuel == usize::MAX,
                self.wf(),
                store_grows(old(self).rule_store, self.rule_store),
                self.path_to_codebase == old(self).path_to_codebase,
                forall|k: Seq<char>|
                    #[trigger] self.relevant_files@.contains_key(k) ==> old(self).relevant_files@.contains_key(k)
                        || from_files(k, files@, old(self).rule_store.piranha_args.extension@),
            decreases fuel,
        {
            fuel = fuel - 1;
            let rules = self.rule_store.get_global_rules();
            let ghost g_start = self.rule_store.global_rules@;
            let mut any_file_updated = false;
            let mut i: usize = 0;
            while i < files.len()
                invariant
                    i <= files@.len(),
                    self.wf(),
                    store_grows(old(self).rule_store, self.rule_store),
                    self.path_to_codebase == old(self).path_to_codebase,
                    forall|k: Seq<char>|
                        #[trigger] self.relevant_files@.contains_key(k) ==> old(self).relevant_files@.contains_key(k)
                            || from_files(k, files@, old(self).rule_store.piranha_args.extension@),
                    !any_file_updated ==> self.rule_store.global_rules@ == g_start,
                    sure ==> !any_file_updated,
                    sure == none_with_extension(files@, old(self).rule_store.piranha_args.extension@),
                    !any_file_updated ==> covers_matching(
                        self.relevant_files@,
                        files@,
                        i as int,
                        self.rule_store.piranha_args.extension@,
                        rules_view(self.rule_store.global_rules@),
                    ),
                decreases files@.len() - i,
            {
                let path = &files[i].0;
                let content = &files[i].1;
                if path_has_extension(path.as_str(), self.rule_store.piranha_args.extension.as_str()) {
                    let pattern = self.get_grep_heuristics();
                    match regex_is_match(pattern.as_str(), content.as_str()) {
                        Some(true) => {
                            let ghost before = *self;
                            let applied = self.apply_rules_to_file(path, content, &rules, parser);
                            proof {
                                lemma_store_grows_trans(old(self).rule_store, before.rule_store, self.rule_store);
                                assert forall|k: Seq<char>| #[trigger] self.relevant_files@.contains_key(k) implies old(
                                    self,
                                ).relevant_files@.contains_key(k) || from_files(k, files@, old(self).rule_store.piranha_args.extension@) by {
                                    if !before.relevant_files@.contains_key(k) {
                                        assert(k == files@[i as int].0@);
                                    }
                                }
                            }
                            let updated = applied?;
                            if updated {
                                any_file_updated = true;
                            }
                            proof {
                                if !any_file_updated {
                                    let ext = self.rule_store.piranha_args.extension@;
                                    let g = rules_view(self.rule_store.global_rules@);
                                    assert forall|a: int|
                                        0 <= a < i + 1 && has_extension((#[trigger] files@[a]).0@, ext) && grep_matches(
                                            g,
                                            files@[a].1@,
                                        ) implies self.relevant_files@.contains_key(files@[a].0@) by {
                                        if a < i {
                                            assert(before.relevant_files@.contains_key(files@[a].0@));
                                        }
                                    }
                                }
                            }
                        },
                        Some(false) => {
                            proof {
                                if !any_file_updated {
                                    let ext = self.rule_store.piranha_args.extension@;
                                    let g = rules_view(self.rule_store.global_rules@);
                                    assert forall|a: int|
                                        0 <= a < i + 1 && has_extension((#[trigger] files@[a]).0@, ext) && grep_matches(
                                            g,
                                            files@[a].1@,
                                        ) implies self.relevant_files@.contains_key(files@[a].0@) by {
                                        if a == i {
                                            assert(is_grep_pattern(g, pattern@));
                                        }
                                    }
                                }
                            }
                        },
                        None => {
                            return Err(CleanupError::InvalidPattern(pattern));
                        },
                    }
                }
                i = i + 1;
            }
            if !any_file_updated {
                return Ok(());
            }
        }
        Err(CleanupError::TooManyRounds)
    }
}

/// Cleans up the files of a code base, as `FlagCleaner::cleanup` does with a
/// new cleaner and a parser for the arguments' language, and gives the path
/// and the new code of each file it rewrote.
pub fn get_cleanups_for_code_base_new(
    args: PiranhaArguments,
    language_rules: Rules,
    language_edges: Edges,
    scopes: Vec<ScopeGenerator>,
    input_rules: Rules,
    input_edges: Edges,
    files: &Vec<(String, String)>,
) -> (res: Result<Vec<(String, String)>, CleanupError>)
    requires
        args.input_substitutions.wf(),
        edges_resolve(
            edges_view(language_edges.edges@ + input_edges.edges@),
            all_rules(rules_view(language_rules.rules@), rules_view(input_rules.rules@)),
        ),
        api_rules_have_holes(all_rules(rules_view(language_rules.rules@), rules_view(input_rules.rules@))),
    ensures
        res matches Ok(v) ==> paths_among(v@, files@, args.extension@),
{
    let ghost ext = args.extension@;
    let language = args.language;
    let mut flag_cleaner = FlagCleaner::new(args, language_rules, language_edges, scopes, input_rules, input_edges);
    let mut parser = ts_parser_new();
    if !ts_parser_set_language(&mut parser, language) {
        return Err(CleanupError::UnsupportedLanguage);
    }
    let ghost c0 = flag_cleaner;
    flag_cleaner.cleanup(files, &mut parser)?;
    proof {
        assert forall|k: Seq<char>| #[trigger] flag_cleaner.relevant_files@.contains_key(k) implies from_files(
            k,
            files@,
            ext,
        ) by {
            assert(!c0.relevant_files@.contains_key(k));
        }
    }
    let mut out: Vec<(String, String)> = Vec::new();
    let mut i: usize = 0;
    while i < flag_cleaner.relevant_files.entries.len()
        invariant
            i <= flag_cleaner.relevant_files.entries@.len(),
            forall|k: Seq<char>| #[trigger] flag_cleaner.relevant_files@.contains_key(k) ==> from_files(k, files@, ext),
            paths_among(out@, files@, ext),
        decreases flag_cleaner.relevant_files.entries@.len() - i,
    {
        let ghost k = flag_cleaner.relevant_files.entries@[i as int].0@;
        proof {
            crate::str_map::lemma_lookup_index(flag_cleaner.relevant_files.entries@, k);
            assert(flag_cleaner.relevant_files@.contains_key(k));
        }
        let ghost before = out@;
        out.push((copy_string(&flag_cleaner.relevant_files.entries[i].0), flag_cleaner.relevant_files.entries[i].1.code()));
        proof {
            assert forall|a: int| 0 <= a < out@.len() implies from_files((#[trigger] out@[a]).0@, files@, ext) by {
                if a < before.len() {
                    assert(paths_among(before, files@, ext));
                    assert(out@[a] == before[a]);
                } else {
                    assert(out@[a].0@ == k);
                }
            }
        }
        i = i + 1;
    }
    Ok(out)
}

} // verus!
