//! Matching tree-sitter queries against nodes: the query's matches are
//! grouped by the range of their outermost capture, and each group whose
//! every pattern matched gives the text of each capture by tag.

use vstd::prelude::*;
use vstd::utf8::encode_utf8;
use crate::interpreter::{bytes_at, text_at};
use crate::matches::Range;
use crate::str_map::StrMap;
use crate::text::{copy_string, str_eq, string_eq, strings_view, utf8_lossy};
use crate::tree_sitter_adapter::ts_node_range;

verus! {

/// The bytes of `code` that a node covers; nothing when its range does not
/// lie within `code`.
fn node_text<'c, 'n>(code: &'c [u8], node: &tree_sitter::Node<'n>) -> (t: &'c [u8])
    ensures
        t@.len() == 0 || exists|i: int, j: int| 0 <= i <= j <= code@.len() && t@ == code@.subrange(i, j),
{
    let r = ts_node_range(node);
    if r.start_byte <= r.end_byte && r.end_byte <= code.len() {
        vstd::slice::slice_subrange(code, r.start_byte, r.end_byte)
    } else {
        let e: &[u8] = &[];
        e
    }
}

/// `QueryCursor::matches` of the query on the node: for each match, in the
/// order the cursor gives them, the index and the node range of each
/// capture. The text of a captured node, which text predicates such as
/// `#eq?` read, is taken by `node_text`, so that a node beyond the end of
/// `code` reads as empty text rather than stopping the program. Nothing is
/// claimed of the matches.
#[verifier::external_body]
fn ts_query_matches<'a>(query: &tree_sitter::Query, node: &tree_sitter::Node<'a>, code: &[u8]) -> (m: Vec<Vec<(usize, Range)>>) {
    let mut cursor = tree_sitter::QueryCursor::new();
    let text = |n: tree_sitter::Node| std::iter::once(node_text(code, &n));
    cursor.matches(query, *node, text).map(|m| m.captures.iter().map(|c| (c.index as usize, ts_node_range(&c.node))).collect()).collect()
}

/// `Query::capture_names`: the names of the query's captures, by index.
/// Nothing is claimed of the names.
#[verifier::external_body]
fn ts_query_capture_names(query: &tree_sitter::Query) -> (n: Vec<String>) {
    query.capture_names().to_vec()
}

/// `Query::pattern_count`: the number of patterns of the query. Nothing is
/// claimed of the number.
#[verifier::external_body]
fn ts_query_pattern_count(query: &tree_sitter::Query) -> (n: usize) {
    query.pattern_count()
}

/// A query match: the index and range of each capture.
pub type QueryMatchV = Seq<(usize, Range)>;

/// The index of the first group whose key is `key`, or -1.
pub open spec fn group_index(gs: Seq<(Range, Seq<QueryMatchV>)>, key: Range) -> int
    decreases gs.len(),
{
    if gs.len() == 0 {
        -1
    } else if gs[0].0 == key {
        0
    } else {
        let j = group_index(gs.drop_first(), key);
        if j < 0 {
            -1
        } else {
            j + 1
        }
    }
}

/// The matches grouped by the range of their first (outermost) capture,
/// groups in the order of their first match; matches without captures are
/// left out.
pub open spec fn groups_of_matches(raw: Seq<QueryMatchV>) -> Seq<(Range, Seq<QueryMatchV>)>
    decreases raw.len(),
{
    if raw.len() == 0 {
        seq![]
    } else {
        let gs = groups_of_matches(raw.drop_last());
        let m = raw.last();
        if m.len() == 0 {
            gs
        } else {
            let i = group_index(gs, m[0].1);
            if i >= 0 {
                gs.update(i, (m[0].1, gs[i].1.push(m)))
            } else {
                gs.push((m[0].1, seq![m]))
            }
        }
    }
}

/// The index of the first pair whose key is `k`, or -1.
pub open spec fn pair_index(l: Seq<(Seq<char>, Seq<char>)>, k: Seq<char>) -> int
    decreases l.len(),
{
    if l.len() == 0 {
        -1
    } else if l[0].0 == k {
        0
    } else {
        let j = pair_index(l.drop_first(), k);
        if j < 0 {
            -1
        } else {
            j + 1
        }
    }
}

/// The snippets by tag with snippet `s` added for `k`: after a newline when
/// `k` has one already.
pub open spec fn snip_upsert(l: Seq<(Seq<char>, Seq<char>)>, k: Seq<char>, s: Seq<char>) -> Seq<(Seq<char>, Seq<char>)> {
    let i = pair_index(l, k);
    if i >= 0 {
        l.update(i, (k, l[i].1 + seq!['\n'] + s))
    } else {
        l.push((k, s))
    }
}

/// The snippets by tag with an empty snippet for `k` if it has none.
pub open spec fn snip_default(l: Seq<(Seq<char>, Seq<char>)>, k: Seq<char>) -> Seq<(Seq<char>, Seq<char>)> {
    if pair_index(l, k) >= 0 {
        l
    } else {
        l.push((k, seq![]))
    }
}

/// The name of capture index `idx`.
pub open spec fn capture_name(names: Seq<Seq<char>>, idx: usize) -> Option<Seq<char>> {
    if idx < names.len() {
        Some(names[idx as int])
    } else {
        None
    }
}

/// The snippets by tag and the range to replace, after one capture for
/// `tag`: a capture of that tag adds its text and, when `tag` is the node to
/// replace, gives its range.
pub open spec fn step_capture(
    st: (Seq<(Seq<char>, Seq<char>)>, Range),
    tag: Seq<char>,
    c: (usize, Range),
    names: Seq<Seq<char>>,
    code: Seq<u8>,
    replace_node: Option<Seq<char>>,
) -> (Seq<(Seq<char>, Seq<char>)>, Range) {
    if capture_name(names, c.0) == Some(tag) {
        (snip_upsert(st.0, tag, utf8_lossy(bytes_at(code, c.1))), if replace_node == Some(tag) { c.1 } else { st.1 })
    } else {
        st
    }
}

pub open spec fn step_match(
    st: (Seq<(Seq<char>, Seq<char>)>, Range),
    tag: Seq<char>,
    m: QueryMatchV,
    names: Seq<Seq<char>>,
    code: Seq<u8>,
    replace_node: Option<Seq<char>>,
) -> (Seq<(Seq<char>, Seq<char>)>, Range)
    decreases m.len(),
{
    if m.len() == 0 {
        st
    } else {
        step_capture(step_match(st, tag, m.drop_last(), names, code, replace_node), tag, m.last(), names, code, replace_node)
    }
}

pub open spec fn step_group(
    st: (Seq<(Seq<char>, Seq<char>)>, Range),
    tag: Seq<char>,
    ms: Seq<QueryMatchV>,
    names: Seq<Seq<char>>,
    code: Seq<u8>,
    replace_node: Option<Seq<char>>,
) -> (Seq<(Seq<char>, Seq<char>)>, Range)
    decreases ms.len(),
{
    if ms.len() == 0 {
        st
    } else {
        step_match(step_group(st, tag, ms.drop_last(), names, code, replace_node), tag, ms.last(), names, code, replace_node)
    }
}

/// The snippets by tag and the range to replace of a group: tag by tag, the
/// text of each capture of that tag in each match, joined by newlines (an
/// empty text for a tag without capture); the range is that of the (last)
/// capture of the node to replace, or the group's.
pub open spec fn step_tags(
    st: (Seq<(Seq<char>, Seq<char>)>, Range),
    tags: Seq<Seq<char>>,
    ms: Seq<QueryMatchV>,
    names: Seq<Seq<char>>,
    code: Seq<u8>,
    replace_node: Option<Seq<char>>,
) -> (Seq<(Seq<char>, Seq<char>)>, Range)
    decreases tags.len(),
{
    if tags.len() == 0 {
        st
    } else {
        let st2 = step_group(step_tags(st, tags.drop_last(), ms, names, code, replace_node), tags.last(), ms, names, code, replace_node);
        (snip_default(st2.0, tags.last()), st2.1)
    }
}

/// The matches of the groups whose every pattern matched, and which cover
/// the node exactly unless `recursive`, in the order of the groups.
pub open spec fn group_results(
    gs: Seq<(Range, Seq<QueryMatchV>)>,
    names: Seq<Seq<char>>,
    pattern_count: nat,
    node: Range,
    code: Seq<u8>,
    recursive: bool,
    replace_node: Option<Seq<char>>,
) -> Seq<(Range, Seq<(Seq<char>, Seq<char>)>)>
    decreases gs.len(),
{
    if gs.len() == 0 {
        seq![]
    } else {
        let prev = group_results(gs.drop_last(), names, pattern_count, node, code, recursive, replace_node);
        let g = gs.last();
        if g.1.len() == pattern_count && (recursive || (g.0.start_byte == node.start_byte && g.0.end_byte == node.end_byte)) {
            let st = step_tags((seq![], g.0), names, g.1, names, code, replace_node);
            prev.push((st.1, st.0))
        } else {
            prev
        }
    }
}

/// `l` with `x` placed before the first element that starts no later.
pub open spec fn insert_desc(l: Seq<(Range, Seq<(Seq<char>, Seq<char>)>)>, x: (Range, Seq<(Seq<char>, Seq<char>)>)) -> Seq<(Range, Seq<(Seq<char>, Seq<char>)>)>
    decreases l.len(),
{
    if l.len() == 0 {
        seq![x]
    } else if l[0].0.start_byte <= x.0.start_byte {
        seq![x] + l
    } else {
        seq![l[0]] + insert_desc(l.drop_first(), x)
    }
}

/// The matches from the last to start to the first (a stable sort by start
/// offset, reversed).
pub open spec fn sort_desc(l: Seq<(Range, Seq<(Seq<char>, Seq<char>)>)>) -> Seq<(Range, Seq<(Seq<char>, Seq<char>)>)>
    decreases l.len(),
{
    if l.len() == 0 {
        l
    } else {
        insert_desc(sort_desc(l.drop_last()), l.last())
    }
}

/// The matches a query's captures give.
pub open spec fn spec_matches_from_captures(
    raw: Seq<QueryMatchV>,
    names: Seq<Seq<char>>,
    pattern_count: nat,
    node: Range,
    code: Seq<u8>,
    recursive: bool,
    replace_node: Option<Seq<char>>,
) -> Seq<(Range, Seq<(Seq<char>, Seq<char>)>)> {
    sort_desc(group_results(groups_of_matches(raw), names, pattern_count, node, code, recursive, replace_node))
}

/// The views of a list of string pairs.
pub open spec fn pairs_view(v: Seq<(String, String)>) -> Seq<(Seq<char>, Seq<char>)> {
    v.map_values(|p: (String, String)| (p.0@, p.1@))
}

/// The views of a list of matches.
pub open spec fn results_view(v: Seq<(Range, StrMap<String>)>) -> Seq<(Range, Seq<(Seq<char>, Seq<char>)>)> {
    v.map_values(|x: (Range, StrMap<String>)| (x.0, pairs_view(x.1.entries@)))
}

fn copy_match(m: &Vec<(usize, Range)>) -> (c: Vec<(usize, Range)>)
    ensures
        c@ == m@,
{
    let mut c: Vec<(usize, Range)> = Vec::new();
    let mut i: usize = 0;
    while i < m.len()
        invariant
            i <= m@.len(),
            c@ == m@.take(i as int),
        decreases m@.len() - i,
    {
        c.push(m[i]);
        i = i + 1;
        assert(c@ =~= m@.take(i as int));
    }
    assert(m@.take(m@.len() as int) =~= m@);
    c
}

fn ranges_equal(a: &Range, b: &Range) -> (r: bool)
    ensures
        r == (*a == *b),
{
    a.start_byte == b.start_byte && a.end_byte == b.end_byte && a.start_point.row == b.start_point.row
        && a.start_point.column == b.start_point.column && a.end_point.row == b.end_point.row
        && a.end_point.column == b.end_point.column
}

/// The views of a list of matches.
pub open spec fn matches_view(ms: Seq<Vec<(usize, Range)>>) -> Seq<QueryMatchV> {
    ms.map_values(|m: Vec<(usize, Range)>| m@)
}

/// The views of the groups.
pub open spec fn groups_view(gs: Seq<(Range, Vec<Vec<(usize, Range)>>)>) -> Seq<(Range, Seq<QueryMatchV>)> {
    gs.map_values(|g: (Range, Vec<Vec<(usize, Range)>>)| (g.0, matches_view(g.1@)))
}

proof fn lemma_group_index(gs: Seq<(Range, Seq<QueryMatchV>)>, key: Range)
    ensures
        -1 <= group_index(gs, key) < gs.len(),
        group_index(gs, key) >= 0 ==> gs[group_index(gs, key)].0 == key,
        group_index(gs, key) >= 0 ==> forall|j: int| 0 <= j < group_index(gs, key) ==> gs[j].0 != key,
        group_index(gs, key) < 0 ==> forall|j: int| 0 <= j < gs.len() ==> gs[j].0 != key,
    decreases gs.len(),
{
    if gs.len() > 0 && gs[0].0 != key {
        lemma_group_index(gs.drop_first(), key);
        assert forall|j: int| 1 <= j < gs.len() implies gs[j] == gs.drop_first()[j - 1] by {}
    }
}

/// Groups the matches by the range of their first capture.
fn group_matches(raw: &Vec<Vec<(usize, Range)>>) -> (gs: Vec<(Range, Vec<Vec<(usize, Range)>>)>)
    ensures
        groups_view(gs@) == groups_of_matches(matches_view(raw@)),
{
    let ghost rv = matches_view(raw@);
    let mut gs: Vec<(Range, Vec<Vec<(usize, Range)>>)> = Vec::new();
    let mut i: usize = 0;
    assert(groups_view(gs@) =~= groups_of_matches(rv.take(0)));
    while i < raw.len()
        invariant
            i <= raw@.len(),
            rv == matches_view(raw@),
            groups_view(gs@) == groups_of_matches(rv.take(i as int)),
        decreases raw@.len() - i,
    {
        assert(rv.take(i + 1).drop_last() =~= rv.take(i as int));
        assert(rv.take(i + 1).last() == raw@[i as int]@);
        let m = &raw[i];
        if m.len() > 0 {
            let key = m[0].1;
            let ghost gv = groups_view(gs@);
            proof {
                lemma_group_index(gv, key);
            }
            let mut j: usize = 0;
            while j < gs.len() && !ranges_equal(&gs[j].0, &key)
                invariant
                    j <= gs@.len(),
                    gv == groups_view(gs@),
                    forall|a: int| 0 <= a < j ==> gs@[a].0 != key,
                decreases gs@.len() - j,
            {
                j = j + 1;
            }
            if j < gs.len() {
                assert(gv[j as int].0 == key);
                assert(group_index(gv, key) == j) by {
                    if group_index(gv, key) < j {
                        assert(gs@[group_index(gv, key)].0 == key);
                    }
                }
                let cm = copy_match(m);
                let ghost old_gs = gs@;
                gs[j].1.push(cm);
                proof {
                    assert(gs@.len() == old_gs.len());
                    assert(forall|a: int| 0 <= a < old_gs.len() && a != j ==> gs@[a] == old_gs[a]);
                    assert(gs@[j as int].0 == old_gs[j as int].0);
                    assert(matches_view(gs@[j as int].1@) =~= matches_view(old_gs[j as int].1@).push(m@));
                    assert(groups_view(gs@) =~= gv.update(j as int, (key, gv[j as int].1.push(m@))));
                }
            } else {
                assert(group_index(gv, key) < 0) by {
                    if group_index(gv, key) >= 0 {
                        assert(gs@[group_index(gv, key)].0 == key);
                    }
                }
                let mut v: Vec<Vec<(usize, Range)>> = Vec::new();
                v.push(copy_match(m));
                assert(matches_view(v@) =~= seq![m@]);
                gs.push((key, v));
                assert(groups_view(gs@) =~= gv.push((key, seq![m@])));
            }
        }
        i = i + 1;
    }
    assert(rv.take(raw@.len() as int) =~= rv);
    gs
}

proof fn lemma_pair_index(l: Seq<(Seq<char>, Seq<char>)>, k: Seq<char>)
    ensures
        -1 <= pair_index(l, k) < l.len(),
        pair_index(l, k) >= 0 ==> l[pair_index(l, k)].0 == k,
        pair_index(l, k) >= 0 ==> forall|j: int| 0 <= j < pair_index(l, k) ==> l[j].0 != k,
        pair_index(l, k) < 0 ==> forall|j: int| 0 <= j < l.len() ==> l[j].0 != k,
    decreases l.len(),
{
    if l.len() > 0 && l[0].0 != k {
        lemma_pair_index(l.drop_first(), k);
        assert forall|j: int| 1 <= j < l.len() implies l[j] == l.drop_first()[j - 1] by {}
    }
}

/// The index of the first pair whose key is `k`.
fn find_pair(l: &Vec<(String, String)>, k: &String) -> (res: Option<usize>)
    ensures
        match res {
            Some(i) => pair_index(pairs_view(l@), k@) == i,
            None => pair_index(pairs_view(l@), k@) < 0,
        },
{
    let ghost lv = pairs_view(l@);
    proof {
        lemma_pair_index(lv, k@);
    }
    let mut j: usize = 0;
    while j < l.len()
        invariant
            j <= l@.len(),
            lv == pairs_view(l@),
            forall|a: int| 0 <= a < j ==> lv[a].0 != k@,
        decreases l@.len() - j,
    {
        if string_eq(&l[j].0, k) {
            proof {
                lemma_pair_index(lv, k@);
                assert(lv[j as int].0 == k@);
                let p = pair_index(lv, k@);
                if p < 0 {
                    assert(lv[j as int].0 != k@);
                } else if p < j {
                    assert(lv[p].0 == k@);
                    assert(lv[p].0 != k@);
                } else if p > j {
                    assert(lv[j as int].0 != k@);
                }
            }
            return Some(j);
        }
        j = j + 1;
    }
    proof {
        lemma_pair_index(lv, k@);
        let p = pair_index(lv, k@);
        if p >= 0 {
            assert(lv[p].0 == k@);
            assert(lv[p].0 != k@);
        }
    }
    None
}

/// Adds snippet `s` for `k`, after a newline when `k` has one already.
fn upsert_snippet(l: &mut Vec<(String, String)>, k: &String, s: String)
    ensures
        pairs_view(final(l)@) == snip_upsert(pairs_view(old(l)@), k@, s@),
{
    let ghost lv = pairs_view(l@);
    proof {
        lemma_pair_index(lv, k@);
    }
    match find_pair(l, k) {
        Some(i) => {
            assert(lv[i as int] == (l@[i as int].0@, l@[i as int].1@));
            let newline = crate::text::chars_to_string(&vec!['\n']);
            let with_newline = crate::text::concat_strings(&l[i].1, &newline);
            let joined = crate::text::concat_strings(&with_newline, &s);
            assert(joined@ =~= lv[i as int].1 + seq!['\n'] + s@);
            l.set(i, (copy_string(k), joined));
            assert(pairs_view(l@) =~= lv.update(i as int, (k@, lv[i as int].1 + seq!['\n'] + s@)));
        },
        None => {
            l.push((copy_string(k), s));
            assert(pairs_view(l@) =~= lv.push((k@, s@)));
        },
    }
}

/// Adds an empty snippet for `k` if it has none.
fn default_snippet(l: &mut Vec<(String, String)>, k: &String)
    ensures
        pairs_view(final(l)@) == snip_default(pairs_view(old(l)@), k@),
{
    let ghost lv = pairs_view(l@);
    match find_pair(l, k) {
        Some(i) => {},
        None => {
            l.push((copy_string(k), String::new()));
            assert(pairs_view(l@) =~= lv.push((k@, seq![])));
        },
    }
}

/// The index's name, if the index names a capture.
fn name_of(names: &Vec<String>, idx: usize) -> (r: Option<&String>)
    ensures
        match r {
            Some(n) => capture_name(strings_view(names@), idx) == Some(n@),
            None => capture_name(strings_view(names@), idx) is None,
        },
{
    if idx < names.len() {
        Some(&names[idx])
    } else {
        None
    }
}

/// The snippets by tag and the range to replace for one group.
fn group_snippets(
    key: Range,
    ms: &Vec<Vec<(usize, Range)>>,
    names: &Vec<String>,
    code: &[u8],
    replace_node: &Option<String>,
) -> (res: (Vec<(String, String)>, Range))
    ensures
        (pairs_view(res.0@), res.1) == step_tags(
            (seq![], key),
            strings_view(names@),
            matches_view(ms@),
            strings_view(names@),
            code@,
            match replace_node {
                Some(r) => Some(r@),
                None => None,
            },
        ),
{
    let ghost nv = strings_view(names@);
    let ghost msv = matches_view(ms@);
    let ghost rn = match replace_node {
        Some(r) => Some(r@),
        None => None,
    };
    let mut snippets: Vec<(String, String)> = Vec::new();
    let mut rr = key;
    let mut t: usize = 0;
    assert(nv.take(0) =~= Seq::<Seq<char>>::empty());
    while t < names.len()
        invariant
            t <= names@.len(),
            nv == strings_view(names@),
            msv == matches_view(ms@),
            rn == (match replace_node {
                Some(r) => Some(r@),
                None => None,
            }),
            (pairs_view(snippets@), rr) == step_tags((seq![], key), nv.take(t as int), msv, nv, code@, rn),
        decreases names@.len() - t,
    {
        let tag = &names[t];
        assert(nv.take(t + 1).drop_last() =~= nv.take(t as int));
        assert(nv.take(t + 1).last() == tag@);
        let ghost st0 = (pairs_view(snippets@), rr);
        let mut a: usize = 0;
        assert(msv.take(0) =~= Seq::<QueryMatchV>::empty());
        while a < ms.len()
            invariant
                a <= ms@.len(),
                t < names@.len(),
                tag@ == nv[t as int],
                nv == strings_view(names@),
                msv == matches_view(ms@),
                rn == (match replace_node {
                    Some(r) => Some(r@),
                    None => None,
                }),
                (pairs_view(snippets@), rr) == step_group(st0, tag@, msv.take(a as int), nv, code@, rn),
            decreases ms@.len() - a,
        {
            assert(msv.take(a + 1).drop_last() =~= msv.take(a as int));
            assert(msv.take(a + 1).last() == ms@[a as int]@);
            let m = &ms[a];
            let ghost st1 = (pairs_view(snippets@), rr);
            let mut c: usize = 0;
            assert(m@.take(0) =~= Seq::<(usize, Range)>::empty());
            while c < m.len()
                invariant
                    c <= m@.len(),
                    tag@ == nv[t as int],
                    nv == strings_view(names@),
                    rn == (match replace_node {
                        Some(r) => Some(r@),
                        None => None,
                    }),
                    (pairs_view(snippets@), rr) == step_match(st1, tag@, m@.take(c as int), nv, code@, rn),
                decreases m@.len() - c,
            {
                assert(m@.take(c + 1).drop_last() =~= m@.take(c as int));
                assert(m@.take(c + 1).last() == m@[c as int]);
                let (idx, crange) = m[c];
                match name_of(names, idx) {
                    Some(n) => {
                        if string_eq(n, tag) {
                            let snippet = text_at(code, crange);
                            match replace_node {
                                Some(r) => {
                                    if string_eq(r, tag) {
                                        rr = crange;
                                    }
                                },
                                None => {},
                            }
                            upsert_snippet(&mut snippets, tag, snippet);
                        }
                    },
                    None => {},
                }
                c = c + 1;
            }
            assert(m@.take(m@.len() as int) =~= m@);
            a = a + 1;
        }
        assert(msv.take(ms@.len() as int) =~= msv);
        default_snippet(&mut snippets, tag);
        t = t + 1;
    }
    assert(nv.take(names@.len() as int) =~= nv);
    (snippets, rr)
}

proof fn lemma_insert_desc_len(l: Seq<(Range, Seq<(Seq<char>, Seq<char>)>)>, x: (Range, Seq<(Seq<char>, Seq<char>)>))
    ensures
        insert_desc(l, x).len() == l.len() + 1,
    decreases l.len(),
{
    if l.len() > 0 && !(l[0].0.start_byte <= x.0.start_byte) {
        lemma_insert_desc_len(l.drop_first(), x);
    }
}

/// Inserts `x` before the first match that starts no later.
fn insert_match_desc(l: &mut Vec<(Range, StrMap<String>)>, x: (Range, StrMap<String>))
    ensures
        results_view(final(l)@) == insert_desc(results_view(old(l)@), (x.0, pairs_view(x.1.entries@))),
{
    let ghost lv = results_view(l@);
    let ghost xv = (x.0, pairs_view(x.1.entries@));
    let mut j: usize = 0;
    assert(lv.skip(0) =~= lv);
    while j < l.len() && l[j].0.start_byte > x.0.start_byte
        invariant
            j <= l@.len(),
            lv == results_view(l@),
            xv.0 == x.0,
            insert_desc(lv, xv) == lv.take(j as int) + insert_desc(lv.skip(j as int), xv),
        decreases l@.len() - j,
    {
        assert(lv.skip(j as int).drop_first() =~= lv.skip(j + 1));
        assert(lv.skip(j as int)[0] == lv[j as int]);
        assert(lv[j as int].0 == l@[j as int].0);
        assert(lv.take(j + 1) =~= lv.take(j as int) + seq![lv[j as int]]);
        assert(lv.take(j as int) + (seq![lv.skip(j as int)[0]] + insert_desc(lv.skip(j + 1), xv)) =~= lv.take(j + 1)
            + insert_desc(lv.skip(j + 1), xv));
        j = j + 1;
    }
    l.insert(j, x);
    proof {
        if j < lv.len() {
            assert(lv.skip(j as int)[0] == lv[j as int]);
        }
        assert(results_view(l@) =~= lv.take(j as int) + (seq![xv] + lv.skip(j as int)));
        assert(insert_desc(lv.skip(j as int), xv) =~= seq![xv] + lv.skip(j as int));
    }
}

/// The matches that the captures of a query's matches on a node give: the
/// matches are grouped by the range of their first capture; a group counts
/// when it has one match per pattern of the query and, unless `recursive`,
/// its range is the node's; it gives the range to replace (that of the
/// capture named `replace_node`, else the group's) and the text of each tag.
/// The matches come last first.
pub fn matches_from_captures(
    raw: &Vec<Vec<(usize, Range)>>,
    names: &Vec<String>,
    pattern_count: usize,
    node: Range,
    code: &[u8],
    recursive: bool,
    replace_node: &Option<String>,
) -> (res: Vec<(Range, StrMap<String>)>)
    ensures
        results_view(res@) == spec_matches_from_captures(
            matches_view(raw@),
            strings_view(names@),
            pattern_count as nat,
            node,
            code@,
            recursive,
            match replace_node {
                Some(r) => Some(r@),
                None => None,
            },
        ),
{
    let ghost nv = strings_view(names@);
    let ghost rn = match replace_node {
        Some(r) => Some(r@),
        None => None,
    };
    let gs = group_matches(raw);
    let ghost gv = groups_view(gs@);
    let mut unsorted: Vec<(Range, StrMap<String>)> = Vec::new();
    let mut i: usize = 0;
    assert(gv.take(0) =~= Seq::<(Range, Seq<QueryMatchV>)>::empty());
    assert(results_view(unsorted@) =~= Seq::<(Range, Seq<(Seq<char>, Seq<char>)>)>::empty());
    while i < gs.len()
        invariant
            i <= gs@.len(),
            gv == groups_view(gs@),
            nv == strings_view(names@),
            rn == (match replace_node {
                Some(r) => Some(r@),
                None => None,
            }),
            results_view(unsorted@) == group_results(gv.take(i as int), nv, pattern_count as nat, node, code@, recursive, rn),
        decreases gs@.len() - i,
    {
        assert(gv.take(i + 1).drop_last() =~= gv.take(i as int));
        assert(gv.take(i + 1).last() == gv[i as int]);
        let key = gs[i].0;
        let ms = &gs[i].1;
        if ms.len() == pattern_count && (recursive || (key.start_byte == node.start_byte && key.end_byte == node.end_byte)) {
            let (snippets, rr) = group_snippets(key, ms, names, code, replace_node);
            let ghost before = results_view(unsorted@);
            unsorted.push((rr, StrMap { entries: snippets }));
            assert(results_view(unsorted@) =~= before.push((rr, pairs_view(snippets@))));
        }
        i = i + 1;
    }
    assert(gv.take(gs@.len() as int) =~= gv);
    let ghost uv = results_view(unsorted@);
    let mut sorted: Vec<(Range, StrMap<String>)> = Vec::new();
    let mut k: usize = 0;
    assert(uv.take(0) =~= Seq::<(Range, Seq<(Seq<char>, Seq<char>)>)>::empty());
    assert(results_view(sorted@) =~= Seq::<(Range, Seq<(Seq<char>, Seq<char>)>)>::empty());
    let n = unsorted.len();
    let mut rest = unsorted;
    assert(uv.skip(0) =~= uv);
    while rest.len() > 0
        invariant
            k <= uv.len(),
            uv.len() == n,
            k + rest@.len() == uv.len(),
            results_view(rest@) == uv.skip(k as int),
            results_view(sorted@) == sort_desc(uv.take(k as int)),
        decreases rest@.len(),
    {
        let ghost rb = results_view(rest@);
        let x = rest.remove(0);
        proof {
            assert(rb[0] == uv[k as int]);
            assert(results_view(rest@) =~= rb.drop_first());
            assert(uv.skip(k + 1) =~= uv.skip(k as int).drop_first());
            assert(uv.take(k + 1).drop_last() =~= uv.take(k as int));
            assert(uv.take(k + 1).last() == uv[k as int]);
        }
        insert_match_desc(&mut sorted, x);
        k = k + 1;
    }
    assert(uv.take(uv.len() as int) =~= uv);
    sorted
}

/// Matching a query against a node of a tree.
pub trait PiranhaRuleMatcher {
    /// All the matches of the query on the node (and, when `recursive`,
    /// below it): the range to replace and the text of each tag.
    fn get_all_matches_for_query(
        &self,
        source_code: &String,
        query: &tree_sitter::Query,
        recursive: bool,
        replace_node_tag: Option<String>,
    ) -> (res: Vec<(Range, StrMap<String>)>)
        ensures
            exists|raw: Seq<QueryMatchV>, names: Seq<Seq<char>>, count: nat, node: Range|
                results_view(res@) == spec_matches_from_captures(
                    raw,
                    names,
                    count,
                    node,
                    encode_utf8(source_code@),
                    recursive,
                    opt_view(replace_node_tag),
                ),
    ;

    /// The first of those matches.
    fn get_match_for_query(&self, source_code: &String, query: &tree_sitter::Query, recursive: bool) -> (res: Option<
        (Range, StrMap<String>),
    >)
        ensures
            first_query_match(encode_utf8(source_code@), recursive, res),
    ;
}

/// Whether `res` is the first of the matches that some captures of a query
/// give on `code`, run recursively or not (nothing when there is none).
pub open spec fn first_query_match(code: Seq<u8>, recursive: bool, res: Option<(Range, StrMap<String>)>) -> bool {
    exists|raw: Seq<QueryMatchV>, names: Seq<Seq<char>>, count: nat, node: Range|
        #![trigger spec_matches_from_captures(raw, names, count, node, code, recursive, None)]
    {
        let all = spec_matches_from_captures(raw, names, count, node, code, recursive, None);
        match res {
            None => all.len() == 0,
            Some(m) => all.len() > 0 && results_view(seq![m]) == seq![all[0]],
        }
    }
}

/// The view of an optional string.
pub open spec fn opt_view(o: Option<String>) -> Option<Seq<char>> {
    match o {
        Some(r) => Some(r@),
        None => None,
    }
}

impl<'a> PiranhaRuleMatcher for tree_sitter::Node<'a> {
    fn get_all_matches_for_query(
        &self,
        source_code: &String,
        query: &tree_sitter::Query,
        recursive: bool,
        replace_node_tag: Option<String>,
    ) -> Vec<(Range, StrMap<String>)> {
        let code = source_code.as_str().as_bytes();
        let raw = ts_query_matches(query, self, code);
        let names = ts_query_capture_names(query);
        let count = ts_query_pattern_count(query);
        let range = ts_node_range(self);
        let res = matches_from_captures(&raw, &names, count, range, code, recursive, &replace_node_tag);
        proof {
            let rn = opt_view(replace_node_tag);
            assert(results_view(res@) == spec_matches_from_captures(
                matches_view(raw@),
                strings_view(names@),
                count as nat,
                range,
                encode_utf8(source_code@),
                recursive,
                rn,
            ));
        }
        res
    }

    fn get_match_for_query(&self, source_code: &String, query: &tree_sitter::Query, recursive: bool) -> (res: Option<
        (Range, StrMap<String>),
    >) {
        let mut all = self.get_all_matches_for_query(source_code, query, recursive, None);
        if all.len() == 0 {
            None
        } else {
            let ghost before = all@;
            let first = all.remove(0);
            assert(results_view(seq![first]) =~= seq![results_view(before)[0]]);
            Some(first)
        }
    }
}

} // verus!
