//! The graph of rules: after a rule applies, which rules apply next, and in
//! which scope.

use vstd::prelude::*;
use crate::rules::{
    Edge, EdgeV, Rule, RuleV, append_to, edges_view, entries_view, groups_map, names_map, rules_view,
    strings_map_view, rule_map_view,
};
use crate::str_map::{StrMap, entry_lookup, keys_distinct};
use crate::text::{copy_string, copy_strings, strings_view};

verus! {

/// A name stands for a rule or for a group of rules.
pub open spec fn resolves(v: Seq<char>, rv: Seq<RuleV>) -> bool {
    names_map(rv).contains_key(v) || groups_map(rv).contains_key(v)
}

/// Every endpoint of every edge stands for a rule or a group.
pub open spec fn edges_resolve(edges: Seq<EdgeV>, rv: Seq<RuleV>) -> bool {
    forall|i: int|
        0 <= i < edges.len() ==> resolves((#[trigger] edges[i]).from, rv) && forall|j: int|
            0 <= j < edges[i].to.len() ==> resolves(#[trigger] edges[i].to[j], rv)
}

/// The rules a name stands for: the rule of that name, or the rules of the
/// group of that name.
pub open spec fn targets(v: Seq<char>, rv: Seq<RuleV>) -> Seq<Seq<char>> {
    if names_map(rv).contains_key(v) {
        seq![names_map(rv)[v].name]
    } else {
        groups_map(rv)[v]
    }
}

/// `m` with `(scope, t)` appended to the list of `f`, for each `t` in order.
pub open spec fn add_targets(
    m: Map<Seq<char>, Seq<(Seq<char>, Seq<char>)>>,
    f: Seq<char>,
    scope: Seq<char>,
    ts: Seq<Seq<char>>,
) -> Map<Seq<char>, Seq<(Seq<char>, Seq<char>)>>
    decreases ts.len(),
{
    if ts.len() == 0 {
        m
    } else {
        append_to(add_targets(m, f, scope, ts.drop_last()), f, (scope, ts.last()))
    }
}

/// `m` with the edges from `f` to the rules each of `tos` stands for.
pub open spec fn add_tos(
    m: Map<Seq<char>, Seq<(Seq<char>, Seq<char>)>>,
    f: Seq<char>,
    scope: Seq<char>,
    tos: Seq<Seq<char>>,
    rv: Seq<RuleV>,
) -> Map<Seq<char>, Seq<(Seq<char>, Seq<char>)>>
    decreases tos.len(),
{
    if tos.len() == 0 {
        m
    } else {
        add_targets(add_tos(m, f, scope, tos.drop_last(), rv), f, scope, targets(tos.last(), rv))
    }
}

/// `m` with the edges from each of `fs` to the rules `tos` stand for.
pub open spec fn add_froms(
    m: Map<Seq<char>, Seq<(Seq<char>, Seq<char>)>>,
    fs: Seq<Seq<char>>,
    scope: Seq<char>,
    tos: Seq<Seq<char>>,
    rv: Seq<RuleV>,
) -> Map<Seq<char>, Seq<(Seq<char>, Seq<char>)>>
    decreases fs.len(),
{
    if fs.len() == 0 {
        m
    } else {
        add_tos(add_froms(m, fs.drop_last(), scope, tos, rv), fs.last(), scope, tos, rv)
    }
}

/// The adjacency lists of the graph of `edges` over the rules `rv`: each
/// endpoint stands for its rule or its group's rules.
pub open spec fn graph_of(edges: Seq<EdgeV>, rv: Seq<RuleV>) -> Map<Seq<char>, Seq<(Seq<char>, Seq<char>)>>
    decreases edges.len(),
{
    if edges.len() == 0 {
        Map::empty()
    } else {
        let e = edges.last();
        add_froms(graph_of(edges.drop_last(), rv), targets(e.from, rv), e.scope, e.to, rv)
    }
}

/// The list of `k` in `m` holds `x`.
pub open spec fn has_pair(m: Map<Seq<char>, Seq<(Seq<char>, Seq<char>)>>, k: Seq<char>, x: (Seq<char>, Seq<char>)) -> bool {
    m.contains_key(k) && m[k].contains(x)
}

proof fn lemma_append_keeps(
    m: Map<Seq<char>, Seq<(Seq<char>, Seq<char>)>>,
    f: Seq<char>,
    y: (Seq<char>, Seq<char>),
    k: Seq<char>,
    x: (Seq<char>, Seq<char>),
)
    requires
        has_pair(m, k, x),
    ensures
        has_pair(append_to(m, f, y), k, x),
{
    if k == f {
        let i = choose|i: int| 0 <= i < m[k].len() && m[k][i] == x;
        assert(append_to(m, f, y)[k][i] == x);
    }
}

proof fn lemma_add_targets(
    m: Map<Seq<char>, Seq<(Seq<char>, Seq<char>)>>,
    f: Seq<char>,
    scope: Seq<char>,
    ts: Seq<Seq<char>>,
    k: Seq<char>,
    x: (Seq<char>, Seq<char>),
)
    ensures
        has_pair(m, k, x) ==> has_pair(add_targets(m, f, scope, ts), k, x),
        forall|j: int| 0 <= j < ts.len() ==> has_pair(add_targets(m, f, scope, ts), f, (scope, #[trigger] ts[j])),
    decreases ts.len(),
{
    if ts.len() > 0 {
        let prev = add_targets(m, f, scope, ts.drop_last());
        lemma_add_targets(m, f, scope, ts.drop_last(), k, x);
        if has_pair(m, k, x) {
            lemma_append_keeps(prev, f, (scope, ts.last()), k, x);
        }
        assert forall|j: int| 0 <= j < ts.len() implies has_pair(add_targets(m, f, scope, ts), f, (scope, #[trigger] ts[j])) by {
            if j < ts.len() - 1 {
                lemma_add_targets(m, f, scope, ts.drop_last(), f, (scope, ts[j]));
                assert(ts.drop_last()[j] == ts[j]);
                lemma_append_keeps(prev, f, (scope, ts.last()), f, (scope, ts[j]));
            } else {
                let l = append_to(prev, f, (scope, ts.last()));
                assert(l[f][l[f].len() - 1] == (scope, ts[j]));
            }
        }
    }
}

proof fn lemma_add_tos(
    m: Map<Seq<char>, Seq<(Seq<char>, Seq<char>)>>,
    f: Seq<char>,
    scope: Seq<char>,
    tos: Seq<Seq<char>>,
    rv: Seq<RuleV>,
    k: Seq<char>,
    x: (Seq<char>, Seq<char>),
)
    ensures
        has_pair(m, k, x) ==> has_pair(add_tos(m, f, scope, tos, rv), k, x),
        forall|j: int, b: int|
            0 <= j < tos.len() && 0 <= b < targets(tos[j], rv).len() ==> has_pair(
                add_tos(m, f, scope, tos, rv),
                f,
                (scope, #[trigger] targets(tos[j], rv)[b]),
            ),
    decreases tos.len(),
{
    if tos.len() > 0 {
        let prev = add_tos(m, f, scope, tos.drop_last(), rv);
        let ts = targets(tos.last(), rv);
        lemma_add_tos(m, f, scope, tos.drop_last(), rv, k, x);
        lemma_add_targets(prev, f, scope, ts, k, x);
        assert forall|j: int, b: int|
            0 <= j < tos.len() && 0 <= b < targets(tos[j], rv).len() implies has_pair(
            add_tos(m, f, scope, tos, rv),
            f,
            (scope, #[trigger] targets(tos[j], rv)[b]),
        ) by {
            let y = (scope, targets(tos[j], rv)[b]);
            if j < tos.len() - 1 {
                lemma_add_tos(m, f, scope, tos.drop_last(), rv, f, y);
                assert(tos.drop_last()[j] == tos[j]);
                lemma_add_targets(prev, f, scope, ts, f, y);
            } else {
                lemma_add_targets(prev, f, scope, ts, f, y);
            }
        }
    }
}

proof fn lemma_add_froms(
    m: Map<Seq<char>, Seq<(Seq<char>, Seq<char>)>>,
    fs: Seq<Seq<char>>,
    scope: Seq<char>,
    tos: Seq<Seq<char>>,
    rv: Seq<RuleV>,
    k: Seq<char>,
    x: (Seq<char>, Seq<char>),
)
    ensures
        has_pair(m, k, x) ==> has_pair(add_froms(m, fs, scope, tos, rv), k, x),
        forall|a: int, j: int, b: int|
            0 <= a < fs.len() && 0 <= j < tos.len() && 0 <= b < targets(tos[j], rv).len() ==> has_pair(
                add_froms(m, fs, scope, tos, rv),
                #[trigger] fs[a],
                (scope, #[trigger] targets(tos[j], rv)[b]),
            ),
    decreases fs.len(),
{
    if fs.len() > 0 {
        let prev = add_froms(m, fs.drop_last(), scope, tos, rv);
        lemma_add_froms(m, fs.drop_last(), scope, tos, rv, k, x);
        lemma_add_tos(prev, fs.last(), scope, tos, rv, k, x);
        assert forall|a: int, j: int, b: int|
            0 <= a < fs.len() && 0 <= j < tos.len() && 0 <= b < targets(tos[j], rv).len() implies has_pair(
            add_froms(m, fs, scope, tos, rv),
            #[trigger] fs[a],
            (scope, #[trigger] targets(tos[j], rv)[b]),
        ) by {
            let y = (scope, targets(tos[j], rv)[b]);
            if a < fs.len() - 1 {
                lemma_add_froms(m, fs.drop_last(), scope, tos, rv, fs[a], y);
                assert(fs.drop_last()[a] == fs[a]);
                lemma_add_tos(prev, fs.last(), scope, tos, rv, fs[a], y);
            } else {
                lemma_add_tos(prev, fs.last(), scope, tos, rv, fs[a], y);
            }
        }
    }
}

proof fn lemma_graph_of(edges: Seq<EdgeV>, rv: Seq<RuleV>, i: int, a: int, j: int, b: int)
    requires
        0 <= i < edges.len(),
        0 <= a < targets(edges[i].from, rv).len(),
        0 <= j < edges[i].to.len(),
        0 <= b < targets(edges[i].to[j], rv).len(),
    ensures
        has_pair(
            graph_of(edges, rv),
            targets(edges[i].from, rv)[a],
            (edges[i].scope, targets(edges[i].to[j], rv)[b]),
        ),
    decreases edges.len(),
{
    let e = edges.last();
    let prev = graph_of(edges.drop_last(), rv);
    let k = targets(edges[i].from, rv)[a];
    let x = (edges[i].scope, targets(edges[i].to[j], rv)[b]);
    if i < edges.len() - 1 {
        lemma_graph_of(edges.drop_last(), rv, i, a, j, b);
        assert(edges.drop_last()[i] == edges[i]);
        lemma_add_froms(prev, targets(e.from, rv), e.scope, e.to, rv, k, x);
    } else {
        lemma_add_froms(prev, targets(e.from, rv), e.scope, e.to, rv, k, x);
    }
}

proof fn lemma_add_targets_keys(
    m: Map<Seq<char>, Seq<(Seq<char>, Seq<char>)>>,
    f: Seq<char>,
    scope: Seq<char>,
    ts: Seq<Seq<char>>,
    k: Seq<char>,
)
    requires
        !m.contains_key(k),
        k != f,
    ensures
        !add_targets(m, f, scope, ts).contains_key(k),
    decreases ts.len(),
{
    if ts.len() > 0 {
        lemma_add_targets_keys(m, f, scope, ts.drop_last(), k);
    }
}

proof fn lemma_add_tos_keys(
    m: Map<Seq<char>, Seq<(Seq<char>, Seq<char>)>>,
    f: Seq<char>,
    scope: Seq<char>,
    tos: Seq<Seq<char>>,
    rv: Seq<RuleV>,
    k: Seq<char>,
)
    requires
        !m.contains_key(k),
        k != f,
    ensures
        !add_tos(m, f, scope, tos, rv).contains_key(k),
    decreases tos.len(),
{
    if tos.len() > 0 {
        lemma_add_tos_keys(m, f, scope, tos.drop_last(), rv, k);
        lemma_add_targets_keys(add_tos(m, f, scope, tos.drop_last(), rv), f, scope, targets(tos.last(), rv), k);
    }
}

proof fn lemma_add_froms_keys(
    m: Map<Seq<char>, Seq<(Seq<char>, Seq<char>)>>,
    fs: Seq<Seq<char>>,
    scope: Seq<char>,
    tos: Seq<Seq<char>>,
    rv: Seq<RuleV>,
    k: Seq<char>,
)
    requires
        !m.contains_key(k),
        !fs.contains(k),
    ensures
        !add_froms(m, fs, scope, tos, rv).contains_key(k),
    decreases fs.len(),
{
    if fs.len() > 0 {
        assert(!fs.drop_last().contains(k)) by {
            if fs.drop_last().contains(k) {
                let i = choose|i: int| 0 <= i < fs.drop_last().len() && fs.drop_last()[i] == k;
                assert(fs[i] == k);
            }
        }
        assert(fs.last() != k) by {
            assert(fs[fs.len() - 1] == fs.last());
        }
        lemma_add_froms_keys(m, fs.drop_last(), scope, tos, rv, k);
        lemma_add_tos_keys(add_froms(m, fs.drop_last(), scope, tos, rv), fs.last(), scope, tos, rv, k);
    }
}

proof fn lemma_graph_keys(edges: Seq<EdgeV>, rv: Seq<RuleV>, k: Seq<char>)
    requires
        forall|i: int| 0 <= i < edges.len() ==> !targets((#[trigger] edges[i]).from, rv).contains(k),
    ensures
        !graph_of(edges, rv).contains_key(k),
    decreases edges.len(),
{
    if edges.len() > 0 {
        assert forall|i: int| 0 <= i < edges.drop_last().len() implies !targets((#[trigger] edges.drop_last()[i]).from, rv).contains(k) by {
            assert(edges.drop_last()[i] == edges[i]);
        }
        lemma_graph_keys(edges.drop_last(), rv, k);
        let e = edges.last();
        assert(edges[edges.len() - 1] == e);
        lemma_add_froms_keys(graph_of(edges.drop_last(), rv), targets(e.from, rv), e.scope, e.to, rv, k);
    }
}

impl ParameterizedRuleGraph {
    /// A rule that no edge's `from` end stands for has no neighbours.
    pub proof fn lemma_no_edge_no_neighbors(&self, edges: Seq<EdgeV>, rv: Seq<RuleV>, n: Seq<char>)
        requires
            self.spec_graph() == graph_of(edges, rv),
            forall|i: int| 0 <= i < edges.len() ==> !targets((#[trigger] edges[i]).from, rv).contains(n),
        ensures
            self.spec_neighbors(n) == Seq::<(Seq<char>, Seq<char>)>::empty(),
    {
        lemma_graph_keys(edges, rv, n);
    }
}

impl ParameterizedRuleGraph {
    /// Every edge gives its neighbours: for an edge, each rule its `from`
    /// end stands for has, among its neighbours, the edge's scope paired with
    /// each rule that one of its `to` ends stands for.
    pub proof fn lemma_edge_neighbors(&self, edges: Seq<EdgeV>, rv: Seq<RuleV>, i: int, a: int, j: int, b: int)
        requires
            self.spec_graph() == graph_of(edges, rv),
            0 <= i < edges.len(),
            0 <= a < targets(edges[i].from, rv).len(),
            0 <= j < edges[i].to.len(),
            0 <= b < targets(edges[i].to[j], rv).len(),
        ensures
            self.spec_neighbors(targets(edges[i].from, rv)[a]).contains(
                (edges[i].scope, targets(edges[i].to[j], rv)[b]),
            ),
    {
        lemma_graph_of(edges, rv, i, a, j, b);
    }
}

/// The views of a map's lists of pairs.
pub open spec fn pairs_map_view(m: Map<Seq<char>, Vec<(String, String)>>) -> Map<Seq<char>, Seq<(Seq<char>, Seq<char>)>> {
    m.map_values(|v: Vec<(String, String)>| entries_view(v@))
}

proof fn lemma_push_pair_view(
    old_m: Map<Seq<char>, Vec<(String, String)>>,
    new_m: Map<Seq<char>, Vec<(String, String)>>,
    key: Seq<char>,
    value: (String, String),
)
    requires
        new_m.contains_key(key),
        new_m[key]@ == (if old_m.contains_key(key) { old_m[key]@ } else { Seq::<(String, String)>::empty() }).push(value),
        forall|k: Seq<char>|
            k != key ==> (#[trigger] new_m.contains_key(k) == old_m.contains_key(k)) && (old_m.contains_key(k)
                ==> new_m[k] == old_m[k]),
    ensures
        pairs_map_view(new_m) == append_to(pairs_map_view(old_m), key, (value.0@, value.1@)),
{
    let a = pairs_map_view(new_m);
    let b = append_to(pairs_map_view(old_m), key, (value.0@, value.1@));
    assert forall|k: Seq<char>| #[trigger] a.contains_key(k) == b.contains_key(k) by {
        if k != key {
            assert(new_m.contains_key(k) == old_m.contains_key(k));
        }
    }
    assert forall|k: Seq<char>| a.contains_key(k) implies #[trigger] a[k] == b[k] by {
        if k == key {
            if old_m.contains_key(key) {
                assert(entries_view(old_m[key]@.push(value)) =~= entries_view(old_m[key]@).push((value.0@, value.1@)));
            } else {
                assert(entries_view(Seq::<(String, String)>::empty().push(value)) =~= seq![(value.0@, value.1@)]);
            }
        }
    }
    assert(a =~= b);
}

/// Appends `(scope, to)` to the list of `from`.
fn push_edge(graph: &mut StrMap<Vec<(String, String)>>, from: &String, scope: &String, to: &String)
    requires
        old(graph).wf(),
    ensures
        final(graph).wf(),
        pairs_map_view(final(graph)@) == append_to(pairs_map_view(old(graph)@), from@, (scope@, to@)),
{
    let ghost before = graph@;
    match graph.find(from.as_str()) {
        Some(i) => {
            let ghost old_entries = graph.entries@;
            graph.entries[i].1.push((copy_string(scope), copy_string(to)));
            proof {
                let e = graph.entries@[i as int];
                assert(graph.entries@ =~= old_entries.update(i as int, e));
                assert forall|a: int, b: int| 0 <= a < b < graph.entries@.len() implies (
                #[trigger] graph.entries@[a]).0@ != (#[trigger] graph.entries@[b]).0@ by {
                    assert(old_entries[a].0@ != old_entries[b].0@);
                }
                assert forall|q: Seq<char>| entry_lookup(graph.entries@, q) == (if q == from@ {
                    Some(e.1)
                } else {
                    entry_lookup(old_entries, q)
                }) by {
                    crate::str_map::lemma_lookup_update(old_entries, i as int, e, q);
                }
                lemma_push_pair_view(before, graph@, from@, e.1@.last());
            }
        },
        None => {
            let mut v: Vec<(String, String)> = Vec::new();
            v.push((copy_string(scope), copy_string(to)));
            graph.insert(copy_string(from), v);
            proof {
                lemma_push_pair_view(before, graph@, from@, graph@[from@]@.last());
            }
        },
    }
}

/// The rules `val` stands for, given the rules by name and by group.
fn rules_for_tag_or_name(
    val: &String,
    rules_by_name: &StrMap<Rule>,
    rules_by_group: &StrMap<Vec<String>>,
    Ghost(rv): Ghost<Seq<RuleV>>,
) -> (res: Vec<String>)
    requires
        rule_map_view(rules_by_name@) == names_map(rv),
        strings_map_view(rules_by_group@) == groups_map(rv),
        resolves(val@, rv),
    ensures
        strings_view(res@) == targets(val@, rv),
{
    match rules_by_name.get(val.as_str()) {
        Some(r) => {
            let mut v: Vec<String> = Vec::new();
            v.push(copy_string(&r.name));
            assert(rule_map_view(rules_by_name@)[val@] == r@);
            assert(strings_view(v@) =~= seq![r@.name]);
            v
        },
        None => {
            assert(!names_map(rv).contains_key(val@));
            match rules_by_group.get(val.as_str()) {
                Some(g) => {
                    assert(strings_map_view(rules_by_group@)[val@] == strings_view(g@));
                    copy_strings(g)
                },
                None => {
                    assert(false);
                    Vec::new()
                },
            }
        },
    }
}

/// The relationship among the rules as adjacency lists: for each rule, the
/// (scope, rule) pairs of its outgoing edges.
pub struct ParameterizedRuleGraph(pub StrMap<Vec<(String, String)>>);

impl ParameterizedRuleGraph {
    pub open spec fn wf(&self) -> bool {
        self.0.wf()
    }

    /// The graph as a map from rule names to their outgoing edges.
    pub open spec fn spec_graph(&self) -> Map<Seq<char>, Seq<(Seq<char>, Seq<char>)>> {
        pairs_map_view(self.0@)
    }

    /// The outgoing edges of `rule_name`, in order.
    pub open spec fn spec_neighbors(&self, rule_name: Seq<char>) -> Seq<(Seq<char>, Seq<char>)> {
        if self.spec_graph().contains_key(rule_name) {
            self.spec_graph()[rule_name]
        } else {
            seq![]
        }
    }

    /// The graph of `edges` over `all_rules`. An endpoint of an edge stands
    /// for the rule of that name or, failing that, for the rules of the
    /// group of that name; an edge adds one adjacency for each pair of rules
    /// its endpoints stand for.
    pub fn new(edges: Vec<Edge>, all_rules: Vec<Rule>) -> (g: ParameterizedRuleGraph)
        requires
            edges_resolve(edges_view(edges@), rules_view(all_rules@)),
        ensures
            g.wf(),
            g.spec_graph() == graph_of(edges_view(edges@), rules_view(all_rules@)),
    {
        let ghost rv = rules_view(all_rules@);
        let ghost ev = edges_view(edges@);
        let (rules_by_name, rules_by_group) = Rule::get_grouped_rules(&all_rules);
        let mut graph: StrMap<Vec<(String, String)>> = StrMap::new();
        assert(pairs_map_view(graph@) =~= graph_of(ev.take(0), rv));
        let mut i: usize = 0;
        while i < edges.len()
            invariant
                i <= edges@.len(),
                ev == edges_view(edges@),
                rv == rules_view(all_rules@),
                edges_resolve(ev, rv),
                rule_map_view(rules_by_name@) == names_map(rv),
                strings_map_view(rules_by_group@) == groups_map(rv),
                graph.wf(),
                pairs_map_view(graph@) == graph_of(ev.take(i as int), rv),
            decreases edges@.len() - i,
        {
            let edge = &edges[i];
            assert(ev.take(i + 1).drop_last() =~= ev.take(i as int));
            assert(ev.take(i + 1).last() == ev[i as int]);
            assert(ev[i as int].from == edge.from@);
            assert(resolves(ev[i as int].from, rv));
            let froms = rules_for_tag_or_name(&edge.from, &rules_by_name, &rules_by_group, Ghost(rv));
            let ghost fv = strings_view(froms@);
            let ghost tos = strings_view(edge.to@);
            let ghost base = graph_of(ev.take(i as int), rv);
            assert(ev[i as int].to == tos);
            let mut a: usize = 0;
            assert(add_froms(base, fv.take(0), edge.scope@, tos, rv) == base);
            while a < froms.len()
                invariant
                    a <= froms@.len(),
                    fv == strings_view(froms@),
                    tos == strings_view(edge.to@),
                    forall|j: int| 0 <= j < tos.len() ==> resolves(#[trigger] tos[j], rv),
                    rule_map_view(rules_by_name@) == names_map(rv),
                    strings_map_view(rules_by_group@) == groups_map(rv),
                    graph.wf(),
                    pairs_map_view(graph@) == add_froms(base, fv.take(a as int), edge.scope@, tos, rv),
                decreases froms@.len() - a,
            {
                assert(fv.take(a + 1).drop_last() =~= fv.take(a as int));
                let ghost base2 = pairs_map_view(graph@);
                let mut b: usize = 0;
                assert(add_tos(base2, froms@[a as int]@, edge.scope@, tos.take(0), rv) == base2);
                while b < edge.to.len()
                    invariant
                        a < froms@.len(),
                        b <= edge.to@.len(),
                        tos == strings_view(edge.to@),
                        forall|j: int| 0 <= j < tos.len() ==> resolves(#[trigger] tos[j], rv),
                        rule_map_view(rules_by_name@) == names_map(rv),
                        strings_map_view(rules_by_group@) == groups_map(rv),
                        graph.wf(),
                        pairs_map_view(graph@) == add_tos(base2, froms@[a as int]@, edge.scope@, tos.take(b as int), rv),
                    decreases edge.to@.len() - b,
                {
                    assert(tos.take(b + 1).drop_last() =~= tos.take(b as int));
                    assert(tos[b as int] == edge.to@[b as int]@);
                    let ts = rules_for_tag_or_name(&edge.to[b], &rules_by_name, &rules_by_group, Ghost(rv));
                    let ghost tv = strings_view(ts@);
                    let ghost base3 = pairs_map_view(graph@);
                    let mut c: usize = 0;
                    assert(add_targets(base3, froms@[a as int]@, edge.scope@, tv.take(0)) == base3);
                    while c < ts.len()
                        invariant
                            a < froms@.len(),
                            c <= ts@.len(),
                            tv == strings_view(ts@),
                            graph.wf(),
                            pairs_map_view(graph@) == add_targets(base3, froms@[a as int]@, edge.scope@, tv.take(c as int)),
                        decreases ts@.len() - c,
                    {
                        assert(tv.take(c + 1).drop_last() =~= tv.take(c as int));
                        push_edge(&mut graph, &froms[a], &edge.scope, &ts[c]);
                        c = c + 1;
                    }
                    assert(tv.take(ts@.len() as int) =~= tv);
                    b = b + 1;
                }
                assert(tos.take(edge.to@.len() as int) =~= tos);
                a = a + 1;
            }
            assert(fv.take(froms@.len() as int) =~= fv);
            i = i + 1;
        }
        assert(ev.take(edges@.len() as int) =~= ev);
        ParameterizedRuleGraph(graph)
    }

    /// The outgoing edges of `rule_name`, as (scope, rule) pairs.
    pub fn get_neighbors(&self, rule_name: &String) -> (res: Vec<(String, String)>)
        ensures
            entries_view(res@) == self.spec_neighbors(rule_name@),
    {
        let mut res: Vec<(String, String)> = Vec::new();
        match self.0.get(rule_name.as_str()) {
            Some(v) => {
                assert(pairs_map_view(self.0@)[rule_name@] == entries_view(v@));
                let mut i: usize = 0;
                while i < v.len()
                    invariant
                        i <= v@.len(),
                        res@.len() == i,
                        forall|j: int| 0 <= j < i ==> (#[trigger] res@[j]).0@ == v@[j].0@ && res@[j].1@ == v@[j].1@,
                    decreases v@.len() - i,
                {
                    res.push((copy_string(&v[i].0), copy_string(&v[i].1)));
                    i = i + 1;
                }
                assert(entries_view(res@) =~= entries_view(v@));
            },
            None => {
                assert(entries_view(res@) =~= Seq::<(Seq<char>, Seq<char>)>::empty());
            },
        }
        res
    }

    /// The outgoing edges of `rule_name`, as (scope, rule) pairs.
    pub fn get_nbrs(&self, rule_name: &String) -> (res: Vec<(String, String)>)
        ensures
            entries_view(res@) == self.spec_neighbors(rule_name@),
    {
        self.get_neighbors(rule_name)
    }
}

} // verus!
