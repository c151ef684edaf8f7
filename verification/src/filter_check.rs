//! Whether a rule's match satisfies the rule's filters, in a file under
//! rewrite.

use vstd::prelude::*;
use crate::fact::{facts_meet, facts_meet_pairs};
use crate::filter::{CGPattern, Filter, PatternType};
use crate::interpreter::get_all_matches_for_concrete_syntax;
use crate::matches::Range;
use crate::parser::ConcreteSyntax;
use crate::query_matcher::PiranhaRuleMatcher;
use crate::rule_store::RuleStore;
use crate::rules::{Rule, entries_view, substitute_pairs};
use crate::source_code_unit::SourceCodeUnit;
use crate::str_map::StrMap;
use crate::text::{chars_to_string, copy_string, str_to_chars};
use crate::tree_sitter_adapter::{NativeNode, ts_node_child, ts_node_child_count, ts_node_range};

verus! {

/// `Node::parent`: the node's parent, if it has one.
#[verifier::external_body]
pub(crate) fn ts_node_parent<'a>(node: &tree_sitter::Node<'a>) -> (p: Option<tree_sitter::Node<'a>>) {
    node.parent()
}

/// `Node::named_child_count`: the number of named children. Nothing is
/// claimed of the number.
#[verifier::external_body]
fn ts_node_named_child_count<'a>(node: &tree_sitter::Node<'a>) -> (n: usize) {
    node.named_child_count()
}

/// `Node::descendant_for_byte_range`: the smallest node under this one that
/// spans the bytes `start..end`, if any.
#[verifier::external_body]
pub(crate) fn ts_node_descendant_for_byte_range<'a>(node: &tree_sitter::Node<'a>, start: usize, end: usize) -> (d: Option<tree_sitter::Node<'a>>) {
    node.descendant_for_byte_range(start, end)
}

/// A rule with the filters that restrict where it rewrites.
pub struct InstantiatedRule {
    pub rule: Rule,
    pub filters: Vec<Filter>,
}

impl InstantiatedRule {
    pub fn new(rule: Rule, filters: Vec<Filter>) -> (r: InstantiatedRule)
        ensures
            r.rule == rule,
            r.filters == filters,
    {
        InstantiatedRule { rule, filters }
    }
}

/// What the count filters decide, given the node's number of named children
/// and its parent's (if it has a parent): a set child count must be the
/// node's number, else a set sibling count must be the parent's; nothing when
/// neither is set.
pub open spec fn spec_count_check(f: Filter, named_children: nat, parent_named_children: Option<nat>) -> Option<bool> {
    if f.child_count != u32::MAX {
        Some(named_children == f.child_count)
    } else if f.sibling_count != u32::MAX {
        Some(parent_named_children == Some(f.sibling_count as nat))
    } else {
        None
    }
}

/// The decision of the count filters.
pub fn count_check(f: &Filter, named_children: usize, parent_named_children: Option<usize>) -> (res: Option<bool>)
    ensures
        res == spec_count_check(
            *f,
            named_children as nat,
            match parent_named_children {
                Some(n) => Some(n as nat),
                None => None,
            },
        ),
{
    if f.child_count != u32::MAX {
        return Some(named_children == f.child_count as usize);
    }
    if f.sibling_count != u32::MAX {
        return match parent_named_children {
            Some(n) => Some(n == f.sibling_count as usize),
            None => Some(false),
        };
    }
    None
}

/// Whether the number of matches of `contains` is within the filter's
/// bounds (always, without a `contains` pattern).
pub fn contains_in_bounds(f: &Filter, n_matches: usize) -> (b: bool)
    ensures
        b == (f.contains.0@.len() == 0 || (f.at_least <= n_matches && n_matches <= f.at_most)),
{
    if f.contains.0.as_str().is_empty() {
        return true;
    }
    (f.at_least as usize) <= n_matches && n_matches <= (f.at_most as usize)
}

/// The record of searches `after` keeps the record `before` and adds to it.
pub open spec fn log_extends<T>(before: Seq<T>, after: Seq<T>) -> bool {
    &&& before.len() <= after.len()
    &&& forall|k: int| 0 <= k < before.len() ==> after[k] == before[k]
}

/// The pattern searches that `after` adds to `before` are all for `pattern`
/// at a node alone (not below it).
pub open spec fn searched_at_nodes(before: Seq<(Seq<char>, bool, nat)>, after: Seq<(Seq<char>, bool, nat)>, pattern: Seq<char>) -> bool {
    &&& log_extends(before, after)
    &&& forall|i: int| before.len() <= i < after.len() ==> (#[trigger] after[i]).0 == pattern && !after[i].1
}

/// A filter that only asks for facts: no pattern and no count is set.
pub open spec fn fact_only(f: crate::filter::FilterV) -> bool {
    &&& f.enclosing_node.len() == 0
    &&& f.outermost_enclosing_node.len() == 0
    &&& f.not_enclosing_node.len() == 0
    &&& f.not_contains.len() == 0
    &&& f.contains.len() == 0
    &&& f.child_count == u32::MAX
    &&& f.sibling_count == u32::MAX
}

impl SourceCodeUnit {
    /// The matches of a pattern at `node` (and below it when `recursive`):
    /// a tree-sitter query through the query cache, a concrete-syntax
    /// pattern through the interpreter. A query that does not compile, a
    /// concrete-syntax pattern that does not parse or resolve, and a
    /// regular expression match nothing here.
    /// The search is recorded in the store's `pattern_searches`.
    fn pattern_matches(
        &self,
        rule_store: &mut RuleStore,
        pattern: &CGPattern,
        node: &tree_sitter::Node<'_>,
        recursive: bool,
    ) -> (res: Vec<(Range, StrMap<String>)>)
        requires
            old(rule_store).rule_query_cache.wf(),
        ensures
            crate::cleanup::cache_only(*old(rule_store), *final(rule_store)),
            final(rule_store).ancestor_searches == old(rule_store).ancestor_searches,
            final(rule_store).pattern_searches@ == old(rule_store).pattern_searches@.push(
                (pattern.0@, recursive, res@.len()),
            ),
    {
        let res = self.search_pattern(rule_store, pattern, node, recursive);
        proof {
            rule_store.pattern_searches@ = rule_store.pattern_searches@.push((pattern.0@, recursive, res@.len()));
        }
        res
    }

    /// The search of `pattern_matches`.
    fn search_pattern(
        &self,
        rule_store: &mut RuleStore,
        pattern: &CGPattern,
        node: &tree_sitter::Node<'_>,
        recursive: bool,
    ) -> (res: Vec<(Range, StrMap<String>)>)
        requires
            old(rule_store).rule_query_cache.wf(),
        ensures
            crate::cleanup::cache_only(*old(rule_store), *final(rule_store)),
            final(rule_store).ancestor_searches == old(rule_store).ancestor_searches,
            final(rule_store).pattern_searches == old(rule_store).pattern_searches,
    {
        match pattern.pattern_type() {
            PatternType::Tsq => match rule_store.get_query(&pattern.0) {
                Some(q) => node.get_all_matches_for_query(&self.code, q, recursive, None),
                None => Vec::new(),
            },
            PatternType::Cs => {
                let chars = str_to_chars(pattern.0.as_str());
                let mut rest: Vec<char> = Vec::new();
                let mut i: usize = 3;
                while i < chars.len()
                    invariant
                        i >= 3,
                    decreases chars@.len() - i,
                {
                    rest.push(chars[i]);
                    i = i + 1;
                }
                let text = chars_to_string(&rest);
                match ConcreteSyntax::parse(text.as_str()) {
                    Ok(cs) => match cs.resolve() {
                        Ok(resolved) => {
                            let wrapped = NativeNode { inner: *node };
                            let found = get_all_matches_for_concrete_syntax(
                                &wrapped,
                                self.code.as_str().as_bytes(),
                                &resolved,
                                recursive,
                                None,
                            );
                            let mut res: Vec<(Range, StrMap<String>)> = Vec::new();
                            let mut k: usize = 0;
                            while k < found.len()
                                decreases found@.len() - k,
                            {
                                let m = &found[k];
                                let mut entries: Vec<(String, String)> = Vec::new();
                                let mut j: usize = 0;
                                while j < m.matches.len()
                                    decreases m.matches@.len() - j,
                                {
                                    entries.push((copy_string(&m.matches[j].0), copy_string(&m.matches[j].1.text)));
                                    j = j + 1;
                                }
                                res.push((m.range, StrMap { entries }));
                                k = k + 1;
                            }
                            res
                        },
                        Err(_) => Vec::new(),
                    },
                    Err(_) => Vec::new(),
                }
            },
            _ => Vec::new(),
        }
    }

    /// The innermost ancestor of `node` (the node itself included, when it
    /// has children) that the pattern matches, as the smallest node of the
    /// tree spanning the match. The search is recorded in the store's
    /// `ancestor_searches`.
    fn _match_ancestor<'a>(
        &'a self,
        rule_store: &mut RuleStore,
        node: tree_sitter::Node<'a>,
        pattern: &CGPattern,
    ) -> (res: Option<tree_sitter::Node<'a>>)
        requires
            old(rule_store).rule_query_cache.wf(),
        ensures
            crate::cleanup::cache_only(*old(rule_store), *final(rule_store)),
            final(rule_store).ancestor_searches@ == old(rule_store).ancestor_searches@.push((pattern.0@, res is Some)),
            log_extends(old(rule_store).ancestor_searches@, final(rule_store).ancestor_searches@),
            searched_at_nodes(old(rule_store).pattern_searches@, final(rule_store).pattern_searches@, pattern.0@),
            res is Some ==> old(rule_store).pattern_searches@.len() < final(rule_store).pattern_searches@.len()
                && final(rule_store).pattern_searches@.last().2 > 0,
    {
        let res = self.find_ancestor(rule_store, node, pattern);
        proof {
            rule_store.ancestor_searches@ = rule_store.ancestor_searches@.push((pattern.0@, res is Some));
        }
        res
    }

    /// The search of `_match_ancestor`; the walk up is bounded by
    /// `usize::MAX` steps.
    fn find_ancestor<'a>(
        &'a self,
        rule_store: &mut RuleStore,
        node: tree_sitter::Node<'a>,
        pattern: &CGPattern,
    ) -> (res: Option<tree_sitter::Node<'a>>)
        requires
            old(rule_store).rule_query_cache.wf(),
        ensures
            crate::cleanup::cache_only(*old(rule_store), *final(rule_store)),
            final(rule_store).ancestor_searches == old(rule_store).ancestor_searches,
            searched_at_nodes(old(rule_store).pattern_searches@, final(rule_store).pattern_searches@, pattern.0@),
            res is Some ==> old(rule_store).pattern_searches@.len() < final(rule_store).pattern_searches@.len()
                && final(rule_store).pattern_searches@.last().2 > 0,
    {
        let mut current = node;
        if ts_node_child_count(&current) > 0 {
            match ts_node_child(&current, 0) {
                Some(c) => {
                    current = c;
                },
                None => {},
            }
        }
        let mut fuel: usize = usize::MAX;
        while fuel > 0
            invariant
                crate::cleanup::cache_only(*old(rule_store), *rule_store),
                rule_store.ancestor_searches == old(rule_store).ancestor_searches,
                searched_at_nodes(old(rule_store).pattern_searches@, rule_store.pattern_searches@, pattern.0@),
            decreases fuel,
        {
            fuel = fuel - 1;
            let parent = match ts_node_parent(&current) {
                Some(p) => p,
                None => {
                    return None;
                },
            };
            let ms = self.pattern_matches(rule_store, pattern, &parent, false);
            if ms.len() > 0 {
                let r = ms[0].0;
                let root = self.root_node();
                return ts_node_descendant_for_byte_range(&root, r.start_byte, r.end_byte);
            }
            current = parent;
        }
        None
    }

    /// The outermost ancestor of `node` that the pattern matches: from the
    /// innermost, repeatedly the innermost above it (through a parent with
    /// another range). There is one exactly when the first search, for the
    /// innermost, finds one.
    fn _match_outermost_ancestor<'a>(
        &'a self,
        rule_store: &mut RuleStore,
        node: tree_sitter::Node<'a>,
        pattern: &CGPattern,
    ) -> (res: Option<tree_sitter::Node<'a>>)
        requires
            old(rule_store).rule_query_cache.wf(),
        ensures
            crate::cleanup::cache_only(*old(rule_store), *final(rule_store)),
            log_extends(old(rule_store).ancestor_searches@, final(rule_store).ancestor_searches@),
            ({
                let n = old(rule_store).ancestor_searches@.len() as int;
                &&& n < final(rule_store).ancestor_searches@.len()
                &&& final(rule_store).ancestor_searches@[n].0 == pattern.0@
                &&& (res is Some <==> final(rule_store).ancestor_searches@[n].1)
            }),
    {
        let mut matched = match self._match_ancestor(rule_store, node, pattern) {
            Some(m) => m,
            None => {
                return None;
            },
        };
        let ghost n = old(rule_store).ancestor_searches@.len() as int;
        let ghost first = rule_store.ancestor_searches@[n];
        let mut fuel: usize = usize::MAX;
        while fuel > 0
            invariant
                crate::cleanup::cache_only(*old(rule_store), *rule_store),
                log_extends(old(rule_store).ancestor_searches@, rule_store.ancestor_searches@),
                n == old(rule_store).ancestor_searches@.len(),
                n < rule_store.ancestor_searches@.len(),
                rule_store.ancestor_searches@[n] == first,
                first == (pattern.0@, true),
            decreases fuel,
        {
            fuel = fuel - 1;
            let parent = match ts_node_parent(&matched) {
                Some(p) => p,
                None => {
                    return Some(matched);
                },
            };
            if ts_node_range(&parent) == ts_node_range(&matched) {
                return Some(matched);
            }
            let ghost before = rule_store.ancestor_searches@;
            let next = self._match_ancestor(rule_store, parent, pattern);
            assert(rule_store.ancestor_searches@[n] == before[n]);
            match next {
                Some(outer) => {
                    matched = outer;
                },
                None => {
                    return Some(matched);
                },
            }
        }
        Some(matched)
    }

    /// No ancestor of the node matches the filter's `not_enclosing_node`:
    /// with that pattern set, one ancestor search is made for it, and the
    /// check fails exactly when the search finds an ancestor.
    fn _check_not_enclosing_node(&self, rule_store: &mut RuleStore, node_to_check: tree_sitter::Node<'_>, filter: &Filter) -> (b: bool)
        requires
            old(rule_store).rule_query_cache.wf(),
        ensures
            crate::cleanup::cache_only(*old(rule_store), *final(rule_store)),
            filter@.not_enclosing_node.len() == 0 ==> b && final(rule_store).ancestor_searches
                == old(rule_store).ancestor_searches,
            filter@.not_enclosing_node.len() > 0 ==> final(rule_store).ancestor_searches@ == old(
                rule_store,
            ).ancestor_searches@.push((filter@.not_enclosing_node, !b)),
            log_extends(old(rule_store).ancestor_searches@, final(rule_store).ancestor_searches@),
    {
        if !filter.not_enclosing_node.0.as_str().is_empty() {
            if self._match_ancestor(rule_store, node_to_check, &filter.not_enclosing_node).is_some() {
                return false;
            }
        }
        true
    }

    /// The number of matches of `contains` under the node is within bounds.
    fn _check_filter_contains(&self, filter: &Filter, rule_store: &mut RuleStore, ancestor: &tree_sitter::Node<'_>) -> (b: bool)
        requires
            old(rule_store).rule_query_cache.wf(),
        ensures
            crate::cleanup::cache_only(*old(rule_store), *final(rule_store)),
            filter@.contains.len() == 0 ==> b,
            filter@.contains.len() > 0 && filter.at_least > filter.at_most ==> !b,
            final(rule_store).ancestor_searches == old(rule_store).ancestor_searches,
            filter@.contains.len() == 0 ==> final(rule_store).pattern_searches == old(rule_store).pattern_searches,
            filter@.contains.len() > 0 ==> {
                let ps = final(rule_store).pattern_searches@;
                &&& ps.drop_last() == old(rule_store).pattern_searches@
                &&& ps.len() > 0
                &&& ps.last().0 == filter@.contains
                &&& ps.last().1
                &&& b == (filter.at_least <= ps.last().2 && ps.last().2 <= filter.at_most)
            },
    {
        if filter.contains.0.as_str().is_empty() {
            return true;
        }
        let ghost before = rule_store.pattern_searches@;
        let ms = self.pattern_matches(rule_store, &filter.contains, ancestor, true);
        assert(rule_store.pattern_searches@.drop_last() =~= before);
        contains_in_bounds(filter, ms.len())
    }

    /// No `not_contains` pattern matches under the node.
    fn _check_filter_not_contains(&self, filter: &Filter, rule_store: &mut RuleStore, ancestor: &tree_sitter::Node<'_>) -> (b: bool)
        requires
            old(rule_store).rule_query_cache.wf(),
        ensures
            crate::cleanup::cache_only(*old(rule_store), *final(rule_store)),
            filter@.not_contains.len() == 0 ==> b,
            final(rule_store).ancestor_searches == old(rule_store).ancestor_searches,
            ({
                let o = old(rule_store).pattern_searches@.len() as int;
                let ps = final(rule_store).pattern_searches@;
                let k = ps.len() - o;
                &&& log_extends(old(rule_store).pattern_searches@, ps)
                &&& k <= filter@.not_contains.len()
                &&& forall|t: int| o <= t < ps.len() ==> (#[trigger] ps[t]).0 == filter@.not_contains[t - o] && ps[t].1
                &&& forall|t: int| o <= t < ps.len() - 1 ==> (#[trigger] ps[t]).2 == 0
                &&& b <==> (k == filter@.not_contains.len() && (k == 0 || ps[o + k - 1].2 == 0))
            }),
    {
        let ghost o = old(rule_store).pattern_searches@.len() as int;
        let mut i: usize = 0;
        while i < filter.not_contains.len()
            invariant
                crate::cleanup::cache_only(*old(rule_store), *rule_store),
                rule_store.ancestor_searches == old(rule_store).ancestor_searches,
                o == old(rule_store).pattern_searches@.len(),
                i <= filter.not_contains@.len(),
                log_extends(old(rule_store).pattern_searches@, rule_store.pattern_searches@),
                rule_store.pattern_searches@.len() == o + i,
                forall|t: int|
                    o <= t < o + i ==> (#[trigger] rule_store.pattern_searches@[t]).0 == filter@.not_contains[t - o]
                        && rule_store.pattern_searches@[t].1 && rule_store.pattern_searches@[t].2 == 0,
            decreases filter.not_contains@.len() - i,
        {
            let ghost before = rule_store.pattern_searches@;
            let ms = self.pattern_matches(rule_store, &filter.not_contains[i], ancestor, true);
            proof {
                assert forall|t: int| o <= t < o + i implies #[trigger] rule_store.pattern_searches@[t] == before[t] by {}
                assert(filter@.not_contains[i as int] == filter.not_contains@[i as int].0@);
            }
            if ms.len() > 0 {
                return false;
            }
            i = i + 1;
        }
        true
    }

    /// Whether the node meets the filter, instantiated with the
    /// substitutions: the count filters, if set, decide alone; else no
    /// ancestor may match `not_enclosing_node`, the node to inspect becomes
    /// the innermost ancestor matching `enclosing_node` and then the
    /// outermost matching `outermost_enclosing_node` (each, when given, must
    /// exist), and under it no `not_contains` pattern may match and the
    /// matches of `contains` must be within bounds.
    fn _check<'a>(
        &'a self,
        filter: &Filter,
        node: tree_sitter::Node<'a>,
        rule_store: &mut RuleStore,
        substitutions: &StrMap<String>,
    ) -> (b: bool)
        requires
            old(rule_store).rule_query_cache.wf(),
        ensures
            crate::cleanup::cache_only(*old(rule_store), *final(rule_store)),
            !facts_meet(self.facts@, filter@.fact_filter) ==> !b,
            fact_only(filter@) ==> b == facts_meet(self.facts@, filter@.fact_filter),
            log_extends(old(rule_store).ancestor_searches@, final(rule_store).ancestor_searches@),
            ({
                let ne = substitute_pairs(filter@.not_enclosing_node, entries_view(substitutions.entries@));
                let n = old(rule_store).ancestor_searches@.len() as int;
                facts_meet(self.facts@, filter@.fact_filter) && filter.child_count == u32::MAX && filter.sibling_count
                    == u32::MAX && ne.len() > 0 ==> {
                    &&& n < final(rule_store).ancestor_searches@.len()
                    &&& final(rule_store).ancestor_searches@[n].0 == ne
                    &&& final(rule_store).ancestor_searches@[n].1 ==> !b
                }
            }),
            ({
                let ce = substitute_pairs(filter@.contains, entries_view(substitutions.entries@));
                let ps = final(rule_store).pattern_searches@;
                b && filter.child_count == u32::MAX && filter.sibling_count == u32::MAX && ce.len() > 0 ==> {
                    &&& ps.len() > 0
                    &&& ps.last().0 == ce
                    &&& ps.last().1
                    &&& filter.at_least <= ps.last().2 <= filter.at_most
                }
            }),
            ({
                let e = entries_view(substitutions.entries@);
                let ne = substitute_pairs(filter@.not_enclosing_node, e);
                let ee = substitute_pairs(filter@.enclosing_node, e);
                let n = old(rule_store).ancestor_searches@.len() as int;
                let m = if ne.len() > 0 { n + 1 } else { n };
                let log = final(rule_store).ancestor_searches@;
                facts_meet(self.facts@, filter@.fact_filter) && filter.child_count == u32::MAX && filter.sibling_count
                    == u32::MAX && ee.len() > 0 && (ne.len() > 0 ==> !log[n].1) ==> {
                    &&& m < log.len()
                    &&& log[m].0 == ee
                    &&& !log[m].1 ==> !b
                }
            }),
            ({
                let e = entries_view(substitutions.entries@);
                let ne = substitute_pairs(filter@.not_enclosing_node, e);
                let ee = substitute_pairs(filter@.enclosing_node, e);
                let oe = substitute_pairs(filter@.outermost_enclosing_node, e);
                let n = old(rule_store).ancestor_searches@.len() as int;
                let m = if ne.len() > 0 { n + 1 } else { n };
                let p = if ee.len() > 0 { m + 1 } else { m };
                let log = final(rule_store).ancestor_searches@;
                facts_meet(self.facts@, filter@.fact_filter) && filter.child_count == u32::MAX && filter.sibling_count
                    == u32::MAX && oe.len() > 0 && (ne.len() > 0 ==> !log[n].1) && (ee.len() > 0 ==> log[m].1) ==> {
                    &&& p < log.len()
                    &&& log[p].0 == oe
                    &&& !log[p].1 ==> !b
                }
            }),
    {
        if !facts_meet_pairs(&self.facts, &filter.fact_filter) {
            return false;
        }
        let instantiated = filter.instantiate(substitutions);
        proof {
            if fact_only(filter@) {
                let ev = crate::rules::entries_view(substitutions.entries@);
                crate::rules::lemma_substitute_without_tags(filter@.enclosing_node, ev);
                crate::rules::lemma_substitute_without_tags(filter@.outermost_enclosing_node, ev);
                crate::rules::lemma_substitute_without_tags(filter@.not_enclosing_node, ev);
                crate::rules::lemma_substitute_without_tags(filter@.contains, ev);
                assert(instantiated@.not_contains.len() == 0);
            }
        }
        let parent_count = match ts_node_parent(&node) {
            Some(p) => Some(ts_node_named_child_count(&p)),
            None => None,
        };
        match count_check(filter, ts_node_named_child_count(&node), parent_count) {
            Some(b) => {
                return b;
            },
            None => {},
        }
        if !self._check_not_enclosing_node(rule_store, node, &instantiated) {
            return false;
        }
        let mut node_to_check = node;
        if !instantiated.enclosing_node.0.as_str().is_empty() {
            match self._match_ancestor(rule_store, node_to_check, &instantiated.enclosing_node) {
                Some(n) => {
                    node_to_check = n;
                },
                None => {
                    return false;
                },
            }
        }
        if !instantiated.outermost_enclosing_node.0.as_str().is_empty() {
            match self._match_outermost_ancestor(rule_store, node_to_check, &instantiated.outermost_enclosing_node) {
                Some(n) => {
                    node_to_check = n;
                },
                None => {
                    return false;
                },
            }
        }
        self._check_filter_not_contains(&instantiated, rule_store, &node_to_check) && self._check_filter_contains(
            &instantiated,
            rule_store,
            &node_to_check,
        )
    }

    /// Whether the node meets every filter of the rule, the filters
    /// instantiated with the unit's substitutions overridden by
    /// `substitutions`.
    pub fn is_satisfied<'a>(
        &'a self,
        node: tree_sitter::Node<'a>,
        rule: &InstantiatedRule,
        substitutions: &StrMap<String>,
        rule_store: &mut RuleStore,
    ) -> (b: bool)
        requires
            old(rule_store).rule_query_cache.wf(),
        ensures
            crate::cleanup::cache_only(*old(rule_store), *final(rule_store)),
            rule.filters@.len() == 0 ==> b,
            (exists|k: int| 0 <= k < rule.filters@.len() && !facts_meet(self.facts@, (#[trigger] rule.filters@[k])@.fact_filter))
                ==> !b,
            (forall|k: int| 0 <= k < rule.filters@.len() ==> fact_only((#[trigger] rule.filters@[k])@)) ==> (b <==> forall|k: int|
                0 <= k < rule.filters@.len() ==> facts_meet(self.facts@, (#[trigger] rule.filters@[k])@.fact_filter)),
            log_extends(old(rule_store).ancestor_searches@, final(rule_store).ancestor_searches@),
            ({
                let f = rule.filters@[0];
                let n = old(rule_store).ancestor_searches@.len() as int;
                rule.filters@.len() > 0 && facts_meet(self.facts@, f@.fact_filter) && f.child_count == u32::MAX
                    && f.sibling_count == u32::MAX && f@.not_enclosing_node.len() > 0 && !f@.not_enclosing_node.contains('@')
                    ==> {
                    &&& n < final(rule_store).ancestor_searches@.len()
                    &&& final(rule_store).ancestor_searches@[n].0 == f@.not_enclosing_node
                    &&& final(rule_store).ancestor_searches@[n].1 ==> !b
                }
            }),
    {
        let mut updated: StrMap<String> = StrMap::new();
        let mut i: usize = 0;
        while i < self.substitutions.entries.len()
            invariant
                updated.wf(),
            decreases self.substitutions.entries@.len() - i,
        {
            updated.insert(copy_string(&self.substitutions.entries[i].0), copy_string(&self.substitutions.entries[i].1));
            i = i + 1;
        }
        let mut j: usize = 0;
        while j < substitutions.entries.len()
            invariant
                updated.wf(),
            decreases substitutions.entries@.len() - j,
        {
            updated.insert(copy_string(&substitutions.entries[j].0), copy_string(&substitutions.entries[j].1));
            j = j + 1;
        }
        let ghost first_searched = {
            let f = rule.filters@[0];
            rule.filters@.len() > 0 && facts_meet(self.facts@, f@.fact_filter) && f.child_count == u32::MAX
                && f.sibling_count == u32::MAX && f@.not_enclosing_node.len() > 0 && !f@.not_enclosing_node.contains('@')
        };
        let ghost n = old(rule_store).ancestor_searches@.len() as int;
        let mut k: usize = 0;
        while k < rule.filters.len()
            invariant
                crate::cleanup::cache_only(*old(rule_store), *rule_store),
                k <= rule.filters@.len(),
                forall|j: int| 0 <= j < k ==> facts_meet(self.facts@, (#[trigger] rule.filters@[j])@.fact_filter),
                self.facts == self.facts,
                log_extends(old(rule_store).ancestor_searches@, rule_store.ancestor_searches@),
                k == 0 ==> rule_store.ancestor_searches == old(rule_store).ancestor_searches,
                n == old(rule_store).ancestor_searches@.len(),
                first_searched == {
                    let f = rule.filters@[0];
                    rule.filters@.len() > 0 && facts_meet(self.facts@, f@.fact_filter) && f.child_count == u32::MAX
                        && f.sibling_count == u32::MAX && f@.not_enclosing_node.len() > 0
                        && !f@.not_enclosing_node.contains('@')
                },
                k > 0 && first_searched ==> {
                    &&& n < rule_store.ancestor_searches@.len()
                    &&& rule_store.ancestor_searches@[n].0 == rule.filters@[0]@.not_enclosing_node
                    &&& !rule_store.ancestor_searches@[n].1
                },
            decreases rule.filters@.len() - k,
        {
            let ghost before = rule_store.ancestor_searches@;
            if !self._check(&rule.filters[k], node, rule_store, &updated) {
                proof {
                    if k == 0 && first_searched {
                        crate::rules::lemma_substitute_without_tags(
                            rule.filters@[0]@.not_enclosing_node,
                            entries_view(updated.entries@),
                        );
                    }
                    if k > 0 && first_searched {
                        assert(rule_store.ancestor_searches@[n] == before[n]);
                    }
                }
                return false;
            }
            proof {
                if k == 0 && first_searched {
                    crate::rules::lemma_substitute_without_tags(
                        rule.filters@[0]@.not_enclosing_node,
                        entries_view(updated.entries@),
                    );
                }
                if k > 0 && first_searched {
                    assert(rule_store.ancestor_searches@[n] == before[n]);
                }
            }
            k = k + 1;
        }
        true
    }
}

} // verus!
