//! Matching resolved concrete-syntax patterns against syntax trees.
//!
//! A pattern matches at a node when it matches a run of consecutive children
//! of that node. Literal words are matched against the text of leaves (a leaf
//! must be a prefix of the remaining literal text, whitespace in a leaf
//! standing for a word boundary); a hole takes one node (`:[x]`), one or more
//! consecutive siblings (`:[x+]`), zero or more (`:[x*]`) or zero or one
//! (`:[x?]`), at the shallowest level where the rest of the pattern then
//! matches. Comments are skipped. A hole named twice must take the same text
//! (up to surrounding whitespace) both times. A match must span at least two
//! children unless the node has a single child.

use vstd::prelude::*;
use crate::constraint_checker::{check_simple, constraint_holds, root_types_hold, satisfies_root_constraints, regex_is_match};
use crate::matches::{CapturedNode, Match, Range, capture_names, find_capture, lemma_lookup_none, lookup_capture, names_distinct};
use crate::parser::{CaptureMode, CsConstraint, constraint_view, constraints_view};
use crate::resolver::{ResolvedConcreteSyntax, ResolvedCsElement, constraints_resolved, resolved_wf};
use crate::text::{bytes_to_string_lossy, chars_to_string, copy_string, str_eq, trimmed_eq, utf8_lossy};
use crate::tree::{NodeRef, SyntaxNode, SyntaxTree, NodeCursor, is_comment_kind};

verus! {

/// The bytes of a literal element; nothing for a hole.
pub open spec fn elem_bytes(el: ResolvedCsElement) -> Seq<u8> {
    match el {
        ResolvedCsElement::Literal(t) => vstd::utf8::encode_utf8(t@),
        ResolvedCsElement::Capture { .. } => seq![],
    }
}

pub open spec fn is_lit(pat: Seq<ResolvedCsElement>, e: int) -> bool {
    0 <= e < pat.len() && pat[e] is Literal
}

/// The number of bytes of the element at `e`, if it is a literal.
pub open spec fn litlen(pat: Seq<ResolvedCsElement>, e: int) -> int {
    if 0 <= e < pat.len() {
        elem_bytes(pat[e]).len() as int
    } else {
        0
    }
}

fn lit_bytes(el: &ResolvedCsElement) -> (b: &[u8])
    ensures
        b@ == elem_bytes(*el),
{
    match el {
        ResolvedCsElement::Literal(t) => t.as_str().as_bytes(),
        ResolvedCsElement::Capture { .. } => {
            let e: &[u8] = &[];
            assert(e@ =~= Seq::<u8>::empty());
            e
        },
    }
}

fn is_literal(el: &ResolvedCsElement) -> (b: bool)
    ensures
        b == (*el is Literal),
{
    match el {
        ResolvedCsElement::Literal(_) => true,
        _ => false,
    }
}

/// The bytes of `src` that a range covers; nothing when the range does not
/// lie within `src`.
pub open spec fn bytes_at(src: Seq<u8>, r: Range) -> Seq<u8> {
    if r.start_byte <= r.end_byte && r.end_byte <= src.len() {
        src.subrange(r.start_byte as int, r.end_byte as int)
    } else {
        seq![]
    }
}

/// A captured node whose text is the source text of its range.
pub open spec fn faithful(c: CapturedNode, src: Seq<u8>) -> bool {
    c.text@ == utf8_lossy(bytes_at(src, c.range))
}

pub open spec fn caps_faithful(caps: Seq<(String, CapturedNode)>, src: Seq<u8>) -> bool {
    forall|i: int| 0 <= i < caps.len() ==> faithful(#[trigger] caps[i].1, src)
}

/// The source text of a range.
pub(crate) fn text_at(src: &[u8], r: Range) -> (s: String)
    ensures
        s@ == utf8_lossy(bytes_at(src@, r)),
{
    if r.start_byte <= r.end_byte && r.end_byte <= src.len() {
        bytes_to_string_lossy(vstd::slice::slice_subrange(src, r.start_byte, r.end_byte))
    } else {
        let e: &[u8] = &[];
        assert(e@ =~= Seq::<u8>::empty());
        bytes_to_string_lossy(e)
    }
}

/// The node captured from sibling `first` to sibling `last`.
fn make_capture(tree: &SyntaxTree, src: &[u8], first: usize, last: usize) -> (c: CapturedNode)
    requires
        first < tree.nodes@.len(),
        last < tree.nodes@.len(),
    ensures
        c.range == Range::spec_span(tree.nodes@[first as int].range, tree.nodes@[last as int].range),
        faithful(c, src@),
        c.node_type@ == tree.nodes@[first as int].kind@,
{
    let range = Range::span_ranges(tree.range(first), tree.range(last));
    CapturedNode { range, text: text_at(src, range), node_type: copy_string(&tree.nodes[first].kind) }
}

/// Records `c` under `name`, in place of an earlier capture of that name.
fn set_capture(caps: &mut Vec<(String, CapturedNode)>, name: String, c: CapturedNode, Ghost(src): Ghost<Seq<u8>>)
    requires
        caps_faithful(old(caps)@, src),
        faithful(c, src),
    ensures
        caps_faithful(final(caps)@, src),
        lookup_capture(final(caps)@, name@) == Some(c),
        forall|n: Seq<char>| (#[trigger] lookup_capture(old(caps)@, n)) is Some ==> lookup_capture(final(caps)@, n) is Some,
        forall|i: int|
            0 <= i < final(caps)@.len() ==> (#[trigger] final(caps)@[i]).1 == c || old(caps)@.contains(final(caps)@[i]),
        names_distinct(old(caps)@) ==> names_distinct(final(caps)@),
{
    match find_capture(caps, name.as_str()) {
        Some(i) => {
            let ghost old_caps = caps@;
            let ghost nv = name@;
            caps.set(i, (name, c));
            assert(caps@ =~= old_caps.update(i as int, (caps@[i as int].0, c)));
            assert forall|j: int| 0 <= j < caps@.len() implies (#[trigger] caps@[j]).1 == c || old_caps.contains(caps@[j]) by {
                if j != i {
                    assert(caps@[j] == old_caps[j]);
                }
            }
            assert(capture_names(caps@) =~= capture_names(old_caps));
            proof {
                if names_distinct(old_caps) {
                    assert forall|a: int, b: int| 0 <= a < b < caps@.len() implies (#[trigger] caps@[a]).0@ != (
                    #[trigger] caps@[b]).0@ by {
                        assert(capture_names(caps@)[a] == capture_names(old_caps)[a]);
                        assert(capture_names(caps@)[b] == capture_names(old_caps)[b]);
                        assert(old_caps[a].0@ != old_caps[b].0@);
                    }
                }
            }
            proof {
                lemma_lookup_update(old_caps, i as int, caps@[i as int].0, c, nv);
                assert forall|n: Seq<char>| (#[trigger] lookup_capture(old_caps, n)) is Some implies lookup_capture(caps@, n) is Some by {
                    lemma_lookup_update_keeps(old_caps, i as int, caps@[i as int].0, c, n);
                }
            }
        },
        None => {
            let ghost old_caps = caps@;
            let ghost nv = name@;
            caps.push((name, c));
            assert forall|j: int| 0 <= j < caps@.len() implies (#[trigger] caps@[j]).1 == c || old_caps.contains(caps@[j]) by {
                if j < old_caps.len() {
                    assert(caps@[j] == old_caps[j]);
                }
            }
            proof {
                lemma_lookup_none(old_caps, nv);
                if names_distinct(old_caps) {
                    assert forall|a: int, b: int| 0 <= a < b < caps@.len() implies (#[trigger] caps@[a]).0@ != (
                    #[trigger] caps@[b]).0@ by {
                        if b == old_caps.len() {
                            assert(caps@[a] == old_caps[a]);
                        } else {
                            assert(caps@[a] == old_caps[a]);
                            assert(caps@[b] == old_caps[b]);
                        }
                    }
                }
                lemma_lookup_push(old_caps, caps@.last().0, c, nv);
                assert forall|n: Seq<char>| (#[trigger] lookup_capture(old_caps, n)) is Some implies lookup_capture(caps@, n) is Some by {
                    lemma_lookup_push_keeps(old_caps, caps@.last(), n);
                }
            }
        },
    }
}

proof fn lemma_lookup_update(caps: Seq<(String, CapturedNode)>, i: int, k: String, c: CapturedNode, n: Seq<char>)
    requires
        0 <= i < caps.len(),
        caps[i].0@ == n,
        k@ == n,
        lookup_capture(caps, n) == Some(caps[i].1),
        forall|j: int| 0 <= j < i ==> caps[j].0@ != n,
    ensures
        lookup_capture(caps.update(i, (k, c)), n) == Some(c),
    decreases i,
{
    if i > 0 {
        assert(caps.update(i, (k, c)).drop_first() =~= caps.drop_first().update(i - 1, (k, c)));
        lemma_lookup_update(caps.drop_first(), i - 1, k, c, n);
    }
}

proof fn lemma_lookup_update_keeps(caps: Seq<(String, CapturedNode)>, i: int, k: String, c: CapturedNode, n: Seq<char>)
    requires
        0 <= i < caps.len(),
        caps[i].0@ == k@,
        lookup_capture(caps, n) is Some,
    ensures
        lookup_capture(caps.update(i, (k, c)), n) is Some,
    decreases i,
{
    let u = caps.update(i, (k, c));
    if i == 0 {
        assert(u.drop_first() =~= caps.drop_first());
    } else if caps[0].0@ != n {
        assert(u.drop_first() =~= caps.drop_first().update(i - 1, (k, c)));
        lemma_lookup_update_keeps(caps.drop_first(), i - 1, k, c, n);
    } else {
        assert(u[0] == caps[0]);
    }
}

proof fn lemma_lookup_push_keeps(caps: Seq<(String, CapturedNode)>, x: (String, CapturedNode), n: Seq<char>)
    requires
        lookup_capture(caps, n) is Some,
    ensures
        lookup_capture(caps.push(x), n) is Some,
    decreases caps.len(),
{
    if caps[0].0@ != n {
        assert(caps.push(x).drop_first() =~= caps.drop_first().push(x));
        lemma_lookup_push_keeps(caps.drop_first(), x, n);
    }
}

proof fn lemma_lookup_push(caps: Seq<(String, CapturedNode)>, k: String, c: CapturedNode, n: Seq<char>)
    requires
        lookup_capture(caps, n) is None,
        k@ == n,
    ensures
        lookup_capture(caps.push((k, c)), n) == Some(c),
    decreases caps.len(),
{
    if caps.len() > 0 {
        assert(caps.push((k, c)).drop_first() =~= caps.drop_first().push((k, c)));
        lemma_lookup_push(caps.drop_first(), k, c, n);
    }
}


fn is_ws_byte(b: u8) -> (r: bool)
    ensures
        r == (b == 32 || b == 9 || b == 10 || b == 13 || b == 11 || b == 12),
{
    b == 32 || b == 9 || b == 10 || b == 13 || b == 11 || b == 12
}

/// Moves the cursor to its next sibling that is not a comment.
fn find_next_sibling<'t>(tree: &'t SyntaxTree, cursor: &mut NodeCursor<'t>) -> (moved: bool)
    requires
        tree.wf(),
        old(cursor).wf(),
        old(cursor).tree == tree,
    ensures
        final(cursor).wf(),
        final(cursor).tree == tree,
        final(cursor).top() == old(cursor).top(),
        final(cursor).path@.len() == old(cursor).path@.len(),
        final(cursor).path@.drop_last() == old(cursor).path@.drop_last(),
        final(cursor).cur() >= old(cursor).cur(),
        moved ==> final(cursor).cur() > old(cursor).cur(),
        moved ==> final(cursor).path@.len() > 1,
        moved ==> final(cursor).path@.last().1 > old(cursor).path@.last().1,
        moved ==> !is_comment_kind(tree.nodes@[final(cursor).cur()].kind@),
        !moved ==> final(cursor).path@.len() == 1 || final(cursor).path@.last().1 + 1
            == tree.spec_child_count(final(cursor).path@[final(cursor).path@.len() - 2].0 as int),
{
    loop
        invariant
            tree.wf(),
            cursor.wf(),
            cursor.tree == tree,
            cursor.top() == old(cursor).top(),
            cursor.path@.len() == old(cursor).path@.len(),
            cursor.path@.drop_last() == old(cursor).path@.drop_last(),
            cursor.cur() >= old(cursor).cur(),
            cursor.path@.last().1 >= old(cursor).path@.last().1,
        decreases (if cursor.path@.len() > 1 {
            tree.spec_child_count(cursor.path@[cursor.path@.len() - 2].0 as int) - cursor.path@.last().1
        } else {
            0
        }),
    {
        let ghost before = cursor.path@;
        if !cursor.goto_next_sibling() {
            proof {
                let n = cursor.path@.len();
                if n > 1 {
                    let k = n - 1;
                    assert(cursor.path@[k - 1].0 == cursor.path@[n - 2].0);
                }
            }
            return false;
        }
        proof {
            let n = before.len();
            assert(cursor.path@[n - 2] == cursor.path@.drop_last()[n - 2]);
            assert(before[n - 2] == before.drop_last()[n - 2]);
            cursor.lemma_cur_in_tree();
        }
        if !tree.is_comment(cursor.node()) {
            return true;
        }
    }
}

/// Moves the cursor to the next sibling of its node or of the nearest
/// ancestor (below the node the cursor was made for) that has one.
fn next_sibling_or_ancestor<'t>(tree: &'t SyntaxTree, cursor: &mut NodeCursor<'t>) -> (moved: bool)
    requires
        tree.wf(),
        old(cursor).wf(),
        old(cursor).tree == tree,
    ensures
        final(cursor).wf(),
        final(cursor).tree == tree,
        final(cursor).top() == old(cursor).top(),
        !moved ==> final(cursor).path@.len() == 1,
        moved ==> {
            let n = final(cursor).path@.len();
            &&& 1 < n <= old(cursor).path@.len()
            &&& final(cursor).path@.drop_last() == old(cursor).path@.take(n - 1)
            &&& final(cursor).path@.last().1 > old(cursor).path@[n - 1].1
            &&& !is_comment_kind(tree.nodes@[final(cursor).cur()].kind@)
        },
{
    loop
        invariant
            tree.wf(),
            cursor.wf(),
            cursor.tree == tree,
            cursor.top() == old(cursor).top(),
            1 <= cursor.path@.len() <= old(cursor).path@.len(),
            cursor.path@.drop_last() == old(cursor).path@.take(cursor.path@.len() - 1),
            cursor.path@.last().1 >= old(cursor).path@[cursor.path@.len() - 1].1,
        decreases cursor.path@.len(),
    {
        let ghost before = cursor.path@;
        if find_next_sibling(tree, cursor) {
            return true;
        }
        let ghost mid = cursor.path@;
        if !cursor.goto_parent() {
            return false;
        }
        proof {
            let n = mid.len();
            assert(cursor.path@ == mid.drop_last());
            assert(cursor.path@ == old(cursor).path@.take(n - 1));
            assert(cursor.path@.drop_last() =~= old(cursor).path@.take(n - 2));
            assert(cursor.path@.last() == old(cursor).path@[n - 2]);
        }
    }
}

enum TryOutcome {
    Matched(Vec<(String, CapturedNode)>, usize),
    Abort,
    NoMatch,
}

/// The number of negations around a constraint.
pub open spec fn not_depth(c: CsConstraint) -> nat
    decreases c,
{
    match c {
        CsConstraint::Not(inner) => 1 + not_depth(*inner),
        _ => 0,
    }
}

/// The source text of a match, and each of its captures, are the text of
/// their ranges.
pub open spec fn match_faithful(m: Match, src: Seq<u8>) -> bool {
    &&& caps_faithful(m.caps(), src)
    &&& m.spec_text() == utf8_lossy(bytes_at(src, m.spec_range()))
}

/// The name of a hole; nothing for a literal.
pub open spec fn hole_name(el: ResolvedCsElement) -> Option<Seq<char>> {
    match el {
        ResolvedCsElement::Capture { name, .. } => Some(name@),
        ResolvedCsElement::Literal(_) => None,
    }
}

proof fn lemma_caps_below_set(
    tree: &SyntaxTree,
    top: int,
    before: Seq<(String, CapturedNode)>,
    after: Seq<(String, CapturedNode)>,
    c: CapturedNode,
)
    requires
        caps_below(tree, top, before),
        captured_below(tree, top, c),
        forall|i: int| 0 <= i < after.len() ==> (#[trigger] after[i]).1 == c || before.contains(after[i]),
    ensures
        caps_below(tree, top, after),
{
    assert forall|i: int| 0 <= i < after.len() implies captured_below(tree, top, (#[trigger] after[i]).1) by {
        if after[i].1 != c {
            let j = choose|j: int| 0 <= j < before.len() && before[j] == after[i];
            assert(captured_below(tree, top, before[j].1));
        }
    }
}

/// Whether the pattern has a hole named `name`.
pub open spec fn has_hole(pat: Seq<ResolvedCsElement>, name: Seq<char>) -> bool {
    exists|j: int| 0 <= j < pat.len() && #[trigger] hole_name(pat[j]) == Some(name)
}

/// `c` is a capture of tree nodes below `top`: it has the kind of a node
/// below `top` and starts where that node starts.
pub open spec fn captured_below(tree: &SyntaxTree, top: int, c: CapturedNode) -> bool {
    exists|f: int|
        #![trigger tree.nodes@[f]]
        top < f < tree.nodes@.len() && tree.nodes@[f].kind@ == c.node_type@ && tree.nodes@[f].range.start_byte
            == c.range.start_byte
}

/// Every capture of the list is a capture of tree nodes below `top`.
pub open spec fn caps_below(tree: &SyntaxTree, top: int, caps: Seq<(String, CapturedNode)>) -> bool {
    forall|i: int| 0 <= i < caps.len() ==> captured_below(tree, top, (#[trigger] caps[i]).1)
}

/// Every hole of the pattern from element `e` on has a capture.
pub open spec fn holes_captured(pat: Seq<ResolvedCsElement>, e: int, caps: Seq<(String, CapturedNode)>) -> bool {
    forall|j: int|
        e <= j < pat.len() && (#[trigger] hole_name(pat[j])) is Some ==> lookup_capture(
            caps,
            hole_name(pat[j])->0,
        ) is Some
}

/// Whether the pattern from element `e`, byte `o` on is used up: what is
/// left is literals whose bytes have all been matched (the first from byte
/// `o`, the others empty).
pub open spec fn rest_used_up(pat: Seq<ResolvedCsElement>, e: int, o: int) -> bool
    decreases pat.len() - e,
{
    if e >= pat.len() {
        e == pat.len()
    } else {
        is_lit(pat, e) && o == litlen(pat, e) && rest_used_up(pat, e + 1, 0)
    }
}

/// Whether the element `e` of the pattern is a hole without constraints
/// and nothing but matched literals follows it.
pub open spec fn last_free_hole(pat: Seq<ResolvedCsElement>, e: int) -> bool {
    &&& 0 <= e < pat.len()
    &&& pat[e] matches ResolvedCsElement::Capture { constraints, .. } && constraints@.len() == 0
    &&& rest_used_up(pat, e + 1, 0)
}

/// Skips the literal elements whose bytes have all been matched.
fn skip_matched_literals(pat: &Vec<ResolvedCsElement>, e: usize, o: usize) -> (res: (usize, usize))
    requires
        e <= pat@.len(),
        o <= litlen(pat@, e as int),
    ensures
        e <= res.0 <= pat@.len(),
        res.1 <= litlen(pat@, res.0 as int),
        res.0 == e ==> res.1 == o,
        forall|j: int| e <= j < res.0 ==> is_lit(pat@, j),
        res.0 < pat@.len() ==> !(is_lit(pat@, res.0 as int) && res.1 == litlen(pat@, res.0 as int)),
        rest_used_up(pat@, e as int, o as int) <==> res.0 == pat@.len(),
{
    let mut e2 = e;
    let mut o2 = o;
    while e2 < pat.len() && is_literal(&pat[e2]) && o2 == lit_bytes(&pat[e2]).len()
        invariant
            rest_used_up(pat@, e as int, o as int) <==> rest_used_up(pat@, e2 as int, o2 as int),
            e <= e2 <= pat@.len(),
            o2 <= litlen(pat@, e2 as int),
            e2 == e ==> o2 == o,
            forall|j: int| e <= j < e2 ==> is_lit(pat@, j),
        decreases pat@.len() - e2,
    {
        e2 = e2 + 1;
        o2 = 0;
    }
    (e2, o2)
}

/// Matches the bytes `start..end` of `src`, the text of a leaf, against the
/// literal text of the pattern from element `e`, byte `o` on. A whitespace
/// byte may stand for the boundary between two literal words. Gives where
/// the pattern stands after the leaf.
fn consume_leaf(src: &[u8], pat: &Vec<ResolvedCsElement>, e: usize, o: usize, start: usize, end: usize) -> (res: Option<(usize, usize)>)
    requires
        e <= pat@.len(),
        o <= litlen(pat@, e as int),
        start < end <= src@.len(),
    ensures
        res matches Some((e2, o2)) ==> {
            &&& e <= e2 <= pat@.len()
            &&& o2 <= litlen(pat@, e2 as int)
            &&& e2 > e || o2 > o
            &&& forall|j: int| e <= j < e2 ==> is_lit(pat@, j)
        },
        leaf_walk(src@, pat@, e as int, o as int, start as int, end as int) == match res {
            Some((e2, o2)) => Some((e2 as int, o2 as int)),
            None => None,
        },
{
    let mut e2 = e;
    let mut o2 = o;
    let mut k = start;
    while k < end
        invariant
            leaf_walk(src@, pat@, e2 as int, o2 as int, k as int, end as int) == leaf_walk(
                src@,
                pat@,
                e as int,
                o as int,
                start as int,
                end as int,
            ),
            e2 <= pat@.len(),
            o2 <= litlen(pat@, e2 as int),
            e <= e2,
            e2 == e ==> o2 >= o,
            k > start ==> (e2 > e || o2 > o),
            start <= k <= end,
            end <= src@.len(),
            forall|j: int| e <= j < e2 ==> is_lit(pat@, j),
        decreases end - k,
    {
        let b = src[k];
        if e2 < pat.len() && is_literal(&pat[e2]) {
            let lit = lit_bytes(&pat[e2]);
            if o2 < lit.len() && lit[o2] == b {
                o2 = o2 + 1;
            } else if o2 == lit.len() && is_ws_byte(b) && e2 + 1 < pat.len() && is_literal(&pat[e2 + 1]) {
                e2 = e2 + 1;
                o2 = 0;
            } else {
                return None;
            }
        } else {
            return None;
        }
        k = k + 1;
    }
    Some((e2, o2))
}

/// Where a match ends among `count` children of the top node of a cursor
/// at `path`: the last child when no node is left after it, else the child
/// before the cursor's, when the cursor stands on a child (not the first)
/// of the top node.
pub open spec fn match_end(count: int, path: Seq<(usize, usize)>, nodes_left: bool) -> Option<usize> {
    if !nodes_left {
        Some((count - 1) as usize)
    } else if path.len() == 2 && path[1].1 > 0 {
        Some((path[1].1 - 1) as usize)
    } else {
        None
    }
}

/// The step of `consume_leaf` on one byte `b` of the leaf, with the pattern
/// at element `e`, byte `o`: the next literal byte is matched, or a
/// whitespace byte passes from a used-up literal to the next literal.
pub open spec fn leaf_step(pat: Seq<ResolvedCsElement>, e: int, o: int, b: u8) -> Option<(int, int)> {
    if is_lit(pat, e) {
        let lit = elem_bytes(pat[e]);
        if o < lit.len() && lit[o] == b {
            Some((e, o + 1))
        } else if o == lit.len() && (b == 32 || b == 9 || b == 10 || b == 13 || b == 11 || b == 12) && is_lit(
            pat,
            e + 1,
        ) {
            Some((e + 1, 0))
        } else {
            None
        }
    } else {
        None
    }
}

/// Where the pattern stands after the bytes `k..end` of `src`, from element
/// `e`, byte `o`; nothing when a byte cannot be matched.
pub open spec fn leaf_walk(src: Seq<u8>, pat: Seq<ResolvedCsElement>, e: int, o: int, k: int, end: int) -> Option<
    (int, int),
>
    decreases end - k,
{
    if k >= end {
        Some((e, o))
    } else {
        match leaf_step(pat, e, o, src[k]) {
            Some((e2, o2)) => leaf_walk(src, pat, e2, o2, k + 1, end),
            None => None,
        }
    }
}

/// Where a match whose pattern is used up ends: the index, among the
/// children of the cursor's top node, of the last child it reaches.
fn end_of_match(tree: &SyntaxTree, cursor: &NodeCursor, nodes_left: bool) -> (res: Option<usize>)
    requires
        tree.wf(),
        cursor.wf(),
        cursor.tree == tree,
        tree.spec_child_count(cursor.top()) > 0,
    ensures
        res matches Some(idx) ==> idx < tree.spec_child_count(cursor.top()),
        res == match_end(tree.spec_child_count(cursor.top()) as int, cursor.path@, nodes_left),
{
    if !nodes_left {
        let t = cursor.path[0].0;
        return Some(tree.child_count(t) - 1);
    }
    if cursor.path.len() == 2 {
        let idx = cursor.path[1].1;
        if idx > 0 {
            proof {
                let k = 1int;
                assert(cursor.path@[k - 1].0 == cursor.top());
            }
            return Some(idx - 1);
        }
    }
    None
}

/// Matches the rest of the pattern, from element `e` (byte `o` of it if it
/// is literal), against the nodes from the cursor on. On success gives the
/// captures and the index, among the children of the cursor's top node, of
/// the last child the match reaches.
#[verifier::rlimit(50)]
#[verifier::spinoff_prover]
fn match_seq<'t>(
    tree: &'t SyntaxTree,
    src: &[u8],
    pat: &Vec<ResolvedCsElement>,
    e: usize,
    o: usize,
    cursor: NodeCursor<'t>,
    nodes_left: bool,
    depth: usize,
) -> (res: Option<(Vec<(String, CapturedNode)>, usize)>)
    requires
        tree.wf(),
        tree.nodes@.len() > 0,
        cursor.wf(),
        cursor.tree == tree,
        tree.spec_child_count(cursor.top()) > 0,
        e <= pat@.len(),
        o <= litlen(pat@, e as int),
        nodes_left ==> cursor.path@.len() >= 2,
    ensures
        res matches Some((caps, idx)) ==> {
            &&& idx < tree.spec_child_count(cursor.top())
            &&& caps_faithful(caps@, src@)
            &&& holes_captured(pat@, e as int, caps@)
            &&& names_distinct(caps@)
            &&& caps_below(tree, cursor.top(), caps@)
        },
        rest_used_up(pat@, e as int, o as int) ==> match res {
            Some((caps, idx)) => caps@.len() == 0 && match_end(
                tree.spec_child_count(cursor.top()) as int,
                cursor.path@,
                nodes_left,
            ) == Some(idx),
            None => match_end(tree.spec_child_count(cursor.top()) as int, cursor.path@, nodes_left) is None,
        },
        !rest_used_up(pat@, e as int, o as int) && !nodes_left ==> res is None,
        last_free_hole(pat@, e as int) && cursor.path@.len() == 2 && nodes_left ==> res is Some,
    decreases depth, pat@.len() - e, litlen(pat@, e as int) - o, tree.nodes@.len() - cursor.cur(), 2int,
{
    proof {
        cursor.lemma_cur_in_tree();
    }
    let ghost top = cursor.top();
    let (e1, o1) = skip_matched_literals(pat, e, o);
    if e1 == pat.len() {
        let none: Vec<(String, CapturedNode)> = Vec::new();
        proof {
            assert(holes_captured(pat@, e1 as int, none@));
            lemma_holes_after_literals(pat@, e as int, e1 as int, none@);
        }
        return match end_of_match(tree, &cursor, nodes_left) {
            Some(idx) => Some((none, idx)),
            None => None,
        };
    }
    if !nodes_left {
        return None;
    }
    let mut cursor = cursor;
    if tree.is_comment(cursor.node()) {
        let _ = find_next_sibling(tree, &mut cursor);
    }
    proof {
        cursor.lemma_cur_in_tree();
    }
    let node = cursor.node();
    let res = if !is_literal(&pat[e1]) {
        handle_capture(tree, src, pat, e1, cursor, depth)
    } else if tree.child_count(node) > 0 {
        let mut cursor = cursor;
        cursor.goto_first_child();
        proof {
            cursor.lemma_cur_in_tree();
        }
        match_seq(tree, src, pat, e1, o1, cursor, true, depth)
    } else {
        match_leaf(tree, src, pat, e1, o1, cursor, depth)
    };
    proof {
        if res is Some {
            lemma_holes_after_literals(pat@, e as int, e1 as int, res.unwrap().0@);
        }
    }
    res
}

/// Matches the text of the leaf at the cursor against the literal at element
/// `e` (from byte `o`), and the rest of the pattern from the nodes after it.
fn match_leaf<'t>(
    tree: &'t SyntaxTree,
    src: &[u8],
    pat: &Vec<ResolvedCsElement>,
    e: usize,
    o: usize,
    cursor: NodeCursor<'t>,
    depth: usize,
) -> (res: Option<(Vec<(String, CapturedNode)>, usize)>)
    requires
        tree.wf(),
        tree.nodes@.len() > 0,
        cursor.wf(),
        cursor.tree == tree,
        tree.spec_child_count(cursor.top()) > 0,
        e <= pat@.len(),
        o <= litlen(pat@, e as int),
    ensures
        res matches Some((caps, idx)) ==> {
            &&& idx < tree.spec_child_count(cursor.top())
            &&& caps_faithful(caps@, src@)
            &&& holes_captured(pat@, e as int, caps@)
            &&& names_distinct(caps@)
            &&& caps_below(tree, cursor.top(), caps@)
        },
        ({
            let r = tree.nodes@[cursor.cur()].range;
            &&& cursor.path@.len() == 2
            &&& r.start_byte < r.end_byte <= src@.len()
            &&& leaf_walk(src@, pat@, e as int, o as int, r.start_byte as int, r.end_byte as int) matches Some(
                (e2, o2),
            ) && rest_used_up(pat@, e2, o2)
        }) ==> res is Some,
    decreases depth, pat@.len() - e, litlen(pat@, e as int) - o, tree.nodes@.len() - cursor.cur(), 1int,
{
    proof {
        cursor.lemma_cur_in_tree();
    }
    let r = tree.range(cursor.node());
    if !(r.start_byte < r.end_byte && r.end_byte <= src.len()) {
        return None;
    }
    match consume_leaf(src, pat, e, o, r.start_byte, r.end_byte) {
        Some((e2, o2)) => {
            let mut next = cursor;
            let found = next_sibling_or_ancestor(tree, &mut next);
            proof {
                next.lemma_cur_in_tree();
            }
            let res = match_seq(tree, src, pat, e2, o2, next, found, depth);
            proof {
                assert(leaf_walk(src@, pat@, e as int, o as int, r.start_byte as int, r.end_byte as int) == Some(
                    (e2 as int, o2 as int),
                ));
                if cursor.path@.len() == 2 && rest_used_up(pat@, e2 as int, o2 as int) {
                    let count = tree.spec_child_count(cursor.top()) as int;
                    if found {
                        assert(next.path@.len() == 2);
                        assert(next.path@.last() == next.path@[1]);
                        assert(cursor.path@[next.path@.len() - 1] == cursor.path@[1]);
                        assert(match_end(count, next.path@, found) is Some);
                    }
                    assert(res is Some);
                }
                if res is Some {
                    lemma_holes_after_literals(pat@, e as int, e2 as int, res.unwrap().0@);
                }
            }
            res
        },
        None => None,
    }
}

/// Holes captured from element `e2` on are all the holes from `e` on when
/// only literals stand between `e` and `e2`.
proof fn lemma_holes_after_literals(pat: Seq<ResolvedCsElement>, e: int, e2: int, caps: Seq<(String, CapturedNode)>)
    requires
        e <= e2,
        forall|j: int| e <= j < e2 ==> is_lit(pat, j),
        holes_captured(pat, e2, caps),
    ensures
        holes_captured(pat, e, caps),
{
    assert forall|j: int| e <= j < pat.len() && (#[trigger] hole_name(pat[j])) is Some implies lookup_capture(
        caps,
        hole_name(pat[j])->0,
    ) is Some by {
        if j < e2 {
            assert(is_lit(pat, j));
        }
    }
}

/// Matches the hole at element `e`, and the rest of the pattern after it,
/// from the cursor on.
fn handle_capture<'t>(
    tree: &'t SyntaxTree,
    src: &[u8],
    pat: &Vec<ResolvedCsElement>,
    e: usize,
    cursor: NodeCursor<'t>,
    depth: usize,
) -> (res: Option<(Vec<(String, CapturedNode)>, usize)>)
    requires
        tree.wf(),
        tree.nodes@.len() > 0,
        cursor.wf(),
        cursor.tree == tree,
        tree.spec_child_count(cursor.top()) > 0,
        e < pat@.len(),
        cursor.path@.len() >= 2,
    ensures
        res matches Some((caps, idx)) ==> {
            &&& idx < tree.spec_child_count(cursor.top())
            &&& caps_faithful(caps@, src@)
            &&& holes_captured(pat@, e as int, caps@)
            &&& names_distinct(caps@)
            &&& caps_below(tree, cursor.top(), caps@)
        },
        last_free_hole(pat@, e as int) && cursor.path@.len() == 2 ==> res is Some,
    decreases depth, pat@.len() - e, 0int, 0int, 1int,
{
    let ghost sure = last_free_hole(pat@, e as int) && cursor.path@.len() == 2;
    let (name, mode, constraints) = match &pat[e] {
        ResolvedCsElement::Capture { name, mode, constraints } => (name, *mode, constraints),
        ResolvedCsElement::Literal(_) => {
            return None;
        },
    };
    assert(hole_name(pat@[e as int]) == Some(name@));
    proof {
        cursor.lemma_cur_in_tree();
    }
    let ghost top = cursor.top();
    if mode == CaptureMode::ZeroPlus || mode == CaptureMode::Optional {
        let first = cursor.node();
        proof {
            cursor.lemma_cur_below_top();
        }
        let r0 = tree.range(first);
        let zr = Range {
            start_byte: r0.start_byte,
            end_byte: r0.start_byte,
            start_point: r0.start_point,
            end_point: r0.start_point,
        };
        let c = CapturedNode { range: zr, text: text_at(src, zr), node_type: copy_string(&tree.nodes[first].kind) };
        assert(tree.nodes@[first as int].kind@ == c.node_type@);
        let after = cursor.duplicate();
        match try_capture(tree, src, pat, e, name, constraints, c, after, true, depth) {
            TryOutcome::Matched(caps, idx) => {
                return Some((caps, idx));
            },
            TryOutcome::Abort => {
                return None;
            },
            TryOutcome::NoMatch => {},
        }
    }
    let mut cur = cursor;
    loop
        invariant
            sure == (last_free_hole(pat@, e as int) && cursor.path@.len() == 2),
            sure ==> cur.path@ == cursor.path@ && cursor.path@.len() == 2,
            sure ==> constraints@.len() == 0,
            sure ==> rest_used_up(pat@, e + 1, 0),
            tree.wf(),
            tree.nodes@.len() > 0,
            cur.wf(),
            cur.tree == tree,
            cur.top() == top,
            cur.path@.len() >= 2,
            tree.spec_child_count(top) > 0,
            top == cursor.top(),
            e < pat@.len(),
            hole_name(pat@[e as int]) == Some(name@),
        decreases tree.nodes@.len() - cur.cur(),
    {
        proof {
            cur.lemma_cur_in_tree();
            cur.lemma_cur_below_top();
        }
        let first = cur.node();
        let mut after = cur.duplicate();
        let should = next_sibling_or_ancestor(tree, &mut after);
        let c = make_capture(tree, src, first, first);
        assert(tree.nodes@[first as int].kind@ == c.node_type@);
        proof {
            if sure {
                let count = tree.spec_child_count(top) as int;
                if should {
                    assert(after.path@.len() == 2);
                    assert(after.path@.last() == after.path@[1]);
                    assert(cur.path@[after.path@.len() - 1] == cur.path@[1]);
                }
                assert(match_end(count, after.path@, should) is Some);
            }
        }
        match try_capture(tree, src, pat, e, name, constraints, c, after, should, depth) {
            TryOutcome::Matched(caps, idx) => {
                return Some((caps, idx));
            },
            TryOutcome::Abort => {
                return None;
            },
            TryOutcome::NoMatch => {},
        }
        assert(!sure);
        if mode == CaptureMode::OnePlus || mode == CaptureMode::ZeroPlus {
            let mut ext = cur.duplicate();
            loop
                invariant
                    !sure,
                    tree.wf(),
                    tree.nodes@.len() > 0,
                    ext.wf(),
                    ext.tree == tree,
                    ext.top() == top,
                    tree.spec_child_count(top) > 0,
                    e < pat@.len(),
                    top < first < tree.nodes@.len(),
                    top == cursor.top(),
                    hole_name(pat@[e as int]) == Some(name@),
                decreases (if ext.path@.len() > 1 {
                    tree.spec_child_count(ext.path@[ext.path@.len() - 2].0 as int) - ext.path@.last().1
                } else {
                    0
                }),
            {
                let ghost before = ext.path@;
                if !find_next_sibling(tree, &mut ext) {
                    break;
                }
                proof {
                    let n = before.len();
                    assert(ext.path@[n - 2] == ext.path@.drop_last()[n - 2]);
                    assert(before[n - 2] == before.drop_last()[n - 2]);
                    let k = n - 1;
                    assert(ext.path@[k - 1].0 == ext.path@[n - 2].0);
                    assert(before[k] == before[n - 1]);
                    ext.lemma_cur_in_tree();
                }
                let last = ext.node();
                let mut after = ext.duplicate();
                let should = next_sibling_or_ancestor(tree, &mut after);
                let c = make_capture(tree, src, first, last);
                assert(tree.nodes@[first as int].kind@ == c.node_type@);
                match try_capture(tree, src, pat, e, name, constraints, c, after, should, depth) {
                    TryOutcome::Matched(caps, idx) => {
                        return Some((caps, idx));
                    },
                    TryOutcome::Abort => {
                        return None;
                    },
                    TryOutcome::NoMatch => {},
                }
            }
        }
        if !cur.goto_first_child() {
            return None;
        }
    }
}

/// Tries the capture `c` for the hole `name` at element `e`, with the rest
/// of the pattern matched from `after`.
fn try_capture<'t>(
    tree: &'t SyntaxTree,
    src: &[u8],
    pat: &Vec<ResolvedCsElement>,
    e: usize,
    name: &String,
    constraints: &Vec<CsConstraint>,
    c: CapturedNode,
    after: NodeCursor<'t>,
    should: bool,
    depth: usize,
) -> (res: TryOutcome)
    requires
        tree.wf(),
        tree.nodes@.len() > 0,
        after.wf(),
        after.tree == tree,
        tree.spec_child_count(after.top()) > 0,
        e < pat@.len(),
        hole_name(pat@[e as int]) == Some(name@),
        faithful(c, src@),
        captured_below(tree, after.top(), c),
        should ==> after.path@.len() >= 2,
    ensures
        res matches TryOutcome::Matched(caps, idx) ==> {
            &&& idx < tree.spec_child_count(after.top())
            &&& caps_faithful(caps@, src@)
            &&& holes_captured(pat@, e as int, caps@)
            &&& names_distinct(caps@)
            &&& caps_below(tree, after.top(), caps@)
            &&& lookup_capture(caps@, name@) == Some(c)
            &&& forall|i: int|
                0 <= i < constraints@.len() ==> constraint_verdict(
                    #[trigger] constraints@[i],
                    c.text@,
                    c.node_type@,
                    depth as int,
                    true,
                )
        },
        rest_used_up(pat@, e + 1, 0) ==> match match_end(
            tree.spec_child_count(after.top()) as int,
            after.path@,
            should,
        ) {
            None => res is NoMatch,
            Some(idx) => {
                &&& !(res is Abort)
                &&& res matches TryOutcome::Matched(_, i) ==> i == idx
                &&& res is NoMatch ==> exists|i: int|
                    0 <= i < constraints@.len() && constraint_verdict(
                        #[trigger] constraints@[i],
                        c.text@,
                        c.node_type@,
                        depth as int,
                        false,
                    )
            },
        },
    decreases depth, pat@.len() - e, 0int, 0int, 0int,
{
    let n = pat.len();
    match match_seq(tree, src, pat, e + 1, 0, after, should, depth) {
        None => TryOutcome::NoMatch,
        Some((caps, idx)) => {
            let mut caps = caps;
            match find_capture(&caps, name.as_str()) {
                Some(i) => {
                    if !trimmed_eq(caps[i].1.text.as_str(), c.text.as_str()) {
                        return TryOutcome::Abort;
                    }
                },
                None => {},
            }
            if !capture_ok(tree, src, &c, constraints, depth, Ghost((pat@.len() - e - 1) as int)) {
                return TryOutcome::NoMatch;
            }
            let ghost before = caps@;
            set_capture(&mut caps, copy_string(name), c, Ghost(src@));
            proof {
                lemma_caps_below_set(tree, after.top(), before, caps@, c);
                assert forall|j: int|
                    e <= j < pat@.len() && (#[trigger] hole_name(pat@[j])) is Some implies lookup_capture(
                    caps@,
                    hole_name(pat@[j])->0,
                ) is Some by {
                    if j > e {
                        assert(lookup_capture(before, hole_name(pat@[j])->0) is Some);
                    }
                }
            }
            TryOutcome::Matched(caps, idx)
        },
    }
}

/// The constraint under all the negations around `c`.
pub open spec fn innermost(c: CsConstraint) -> CsConstraint
    decreases c,
{
    match c {
        CsConstraint::Not(inner) => innermost(*inner),
        _ => c,
    }
}

/// Whether a `contains` search may run for `c` at recursion budget `depth`:
/// its innermost constraint is a `contains` with a resolved sub-pattern.
pub open spec fn contains_searchable(c: CsConstraint, depth: int) -> bool {
    depth > 0 && innermost(c) matches CsConstraint::Contains { resolved_pattern: Some(_), .. }
}

/// Whether `r` is a verdict of the constraint `c` on a node with text
/// `text` and kind `ty`: the constraint evaluated with some outcome `b` of
/// its `contains` search, where a search that cannot run finds nothing.
pub open spec fn constraint_verdict(c: CsConstraint, text: Seq<char>, ty: Seq<char>, depth: int, r: bool) -> bool {
    exists|b: bool|
        #![trigger constraint_holds(constraint_view(c), text, ty, b)]
        r == constraint_holds(constraint_view(c), text, ty, b) && (b ==> contains_searchable(c, depth))
}

/// Whether a captured node meets all the constraints of its hole.
fn capture_ok(
    tree: &SyntaxTree,
    src: &[u8],
    c: &CapturedNode,
    constraints: &Vec<CsConstraint>,
    depth: usize,
    Ghost(m): Ghost<int>,
) -> (res: bool)
    requires
        tree.wf(),
        tree.nodes@.len() > 0,
        m >= 0,
    ensures
        res ==> forall|i: int|
            0 <= i < constraints@.len() ==> constraint_verdict(
                #[trigger] constraints@[i],
                c.text@,
                c.node_type@,
                depth as int,
                true,
            ),
        !res ==> exists|i: int|
            0 <= i < constraints@.len() && constraint_verdict(
                #[trigger] constraints@[i],
                c.text@,
                c.node_type@,
                depth as int,
                false,
            ),
    decreases depth, m, 0int, 0int, 1int,
{
    let mut i: usize = 0;
    while i < constraints.len()
        invariant
            tree.wf(),
            tree.nodes@.len() > 0,
            m >= 0,
            i <= constraints.len(),
            forall|j: int|
                0 <= j < i ==> constraint_verdict(#[trigger] constraints@[j], c.text@, c.node_type@, depth as int, true),
        decreases constraints.len() - i,
    {
        if !eval_constraint(tree, src, c, &constraints[i], depth, Ghost(m)) {
            return false;
        }
        i = i + 1;
    }
    true
}

/// Whether a captured node meets one constraint; a `contains` constraint
/// holds when its sub-pattern matches somewhere in the tree.
fn eval_constraint(
    tree: &SyntaxTree,
    src: &[u8],
    c: &CapturedNode,
    ctr: &CsConstraint,
    depth: usize,
    Ghost(m): Ghost<int>,
) -> (res: bool)
    requires
        tree.wf(),
        tree.nodes@.len() > 0,
        m >= 0,
    ensures
        constraint_verdict(*ctr, c.text@, c.node_type@, depth as int, res),
        contains_found(tree, *ctr, depth as int) ==> res == constraint_holds(
            constraint_view(*ctr),
            c.text@,
            c.node_type@,
            true,
        ),
    decreases depth, m, 0int, 0int, 0int,
{
    let mut cur: &CsConstraint = ctr;
    let mut neg = false;
    loop
        invariant
            innermost(*cur) == innermost(*ctr),
            forall|b: bool|
                #[trigger] constraint_holds(constraint_view(*ctr), c.text@, c.node_type@, b) == (neg != constraint_holds(
                    constraint_view(*cur),
                    c.text@,
                    c.node_type@,
                    b,
                )),
        ensures
            !(*cur is Not),
            innermost(*cur) == innermost(*ctr),
            forall|b: bool|
                #[trigger] constraint_holds(constraint_view(*ctr), c.text@, c.node_type@, b) == (neg != constraint_holds(
                    constraint_view(*cur),
                    c.text@,
                    c.node_type@,
                    b,
                )),
        decreases not_depth(*cur),
    {
        match cur {
            CsConstraint::Not(inner) => {
                neg = !neg;
                cur = &**inner;
            },
            _ => {
                break;
            },
        }
    }
    let base = match check_simple(c, cur) {
        Some(b) => b,
        None => match cur {
            CsConstraint::Contains { resolved_pattern: Some(sub), .. } => {
                if depth > 0 {
                    let ms = get_all_core(tree, 0, src, sub, true, &None, depth - 1);
                    ms.len() > 0
                } else {
                    false
                }
            },
            _ => false,
        },
    };
    proof {
        let t = c.text@;
        let ty = c.node_type@;
        let cv = constraint_view(*ctr);
        let w = if constraint_view(*cur) is Contains {
            base
        } else {
            false
        };
        assert(constraint_holds(cv, t, ty, w) == (neg != constraint_holds(constraint_view(*cur), t, ty, w)));
        assert(base == constraint_holds(constraint_view(*cur), t, ty, w));
        assert(w ==> contains_searchable(*ctr, depth as int));
        if contains_found(tree, *ctr, depth as int) {
            assert(innermost(*cur) == *cur);
            assert(base);
            assert(w);
        }
    }
    if neg {
        !base
    } else {
        base
    }
}

/// Matches the pattern against runs of consecutive children of `node`,
/// trying each child in turn as the start of the run.
fn match_sequential_siblings(
    tree: &SyntaxTree,
    src: &[u8],
    pat: &Vec<ResolvedCsElement>,
    node: usize,
    depth: usize,
) -> (res: Option<(Vec<(String, CapturedNode)>, Range)>)
    requires
        tree.wf(),
        tree.nodes@.len() > 0,
        node < tree.nodes@.len(),
    ensures
        res matches Some((caps, r)) ==> caps_faithful(caps@, src@) && holes_captured(pat@, 0, caps@) && names_distinct(caps@)
            && caps_below(tree, node as int, caps@),
        last_free_hole(pat@, 0) && tree.spec_child_count(node as int) == 1 ==> res is Some,
    decreases depth, pat@.len() + 1, 0int, 0int, 0int,
{
    let nr = NodeRef { tree, index: node };
    let mut cursor = nr.walk();
    if !cursor.goto_first_child() {
        return None;
    }
    let mut start: usize = 0;
    loop
        invariant
            tree.wf(),
            tree.nodes@.len() > 0,
            node < tree.nodes@.len(),
            cursor.wf(),
            cursor.tree == tree,
            cursor.top() == node,
            cursor.path@.len() == 2,
            cursor.path@[1].1 == start,
            tree.spec_child_count(node as int) > 0,
        decreases tree.spec_child_count(node as int) - start,
    {
        proof {
            let k = 1int;
            assert(cursor.path@[k - 1].0 == node);
        }
        let tmp = cursor.duplicate();
        match match_seq(tree, src, pat, 0, 0, tmp, true, depth) {
            Some((caps, last_idx)) => {
                let last = tree.child(node, last_idx);
                let range = Range::span_ranges(tree.range(cursor.node()), tree.range(last));
                if last_idx != start || tree.child_count(node) == 1 {
                    return Some((caps, range));
                } else {
                    return None;
                }
            },
            None => {},
        }
        if !cursor.goto_next_sibling() {
            return None;
        }
        start = start + 1;
    }
}

/// Whether `cs` is a single hole without constraints (after which only
/// matched literals may stand) whose root constraints hold of `node`, a
/// node with exactly one child: such a pattern matches at the node.
pub open spec fn bare_hole_matches(tree: &SyntaxTree, node: int, cs: &ResolvedConcreteSyntax) -> bool {
    &&& root_types_hold(constraints_view(cs.pattern.root_constraints@), tree.nodes@[node].kind@)
    &&& last_free_hole(cs.pattern.sequence@, 0)
    &&& tree.spec_child_count(node) == 1
}

/// Whether the bare hole pattern `cs` (see `bare_hole_matches`) matches at
/// `n` itself (when `k` is 0) or at or below one of the children of `n`
/// from the `k`-th on.
pub open spec fn match_from(tree: &SyntaxTree, n: int, k: int, cs: &ResolvedConcreteSyntax) -> bool
    decreases tree.nodes@.len() - n, tree.spec_child_count(n) - k,
{
    ||| k == 0 && bare_hole_matches(tree, n, cs)
    ||| tree.wf() && 0 <= n < tree.nodes@.len() && 0 <= k < tree.spec_child_count(n) && (match_from(
        tree,
        tree.spec_child(n, k),
        0,
        cs,
    ) || match_from(tree, n, k + 1, cs))
}

/// Whether the bare hole pattern `cs` matches at `n` or at some node below
/// it.
pub open spec fn match_below(tree: &SyntaxTree, n: int, cs: &ResolvedConcreteSyntax) -> bool {
    match_from(tree, n, 0, cs)
}

/// Whether `c` is, under its negations, a `contains` constraint that may
/// search (budget `depth` left) and whose sub-pattern matches as a bare hole
/// somewhere in the tree.
pub open spec fn contains_found(tree: &SyntaxTree, c: CsConstraint, depth: int) -> bool {
    depth > 0 && contains_found_at(tree, 0, c)
}

/// Whether `c` is, under its negations, a `contains` constraint whose
/// sub-pattern matches as a bare hole at `root` or somewhere below it.
pub open spec fn contains_found_at(tree: &SyntaxTree, root: int, c: CsConstraint) -> bool {
    match innermost(c) {
        CsConstraint::Contains { resolved_pattern: Some(sub), .. } => match_below(tree, root, &*sub),
        _ => false,
    }
}

/// With `replace_node` naming a hole of the pattern (a name other than
/// `*`), the match stands for that hole's capture: the match's range and
/// text are those of its capture of that name, a capture of tree nodes below
/// `node`.
pub open spec fn stands_for_hole(
    tree: &SyntaxTree,
    node: int,
    cs: &ResolvedConcreteSyntax,
    replace_node: Option<String>,
    m: Match,
) -> bool {
    match replace_node {
        Some(k) => k@ != seq!['*'] && has_hole(cs.pattern.sequence@, k@) ==> {
            &&& lookup_capture(m.caps(), k@) matches Some(c)
            &&& m.spec_range() == c.range
            &&& m.spec_text() == c.text@
            &&& captured_below(tree, node, c)
        },
        None => true,
    }
}

proof fn lemma_lookup_in(caps: Seq<(String, CapturedNode)>, n: Seq<char>)
    requires
        lookup_capture(caps, n) is Some,
    ensures
        exists|i: int| 0 <= i < caps.len() && caps[i].1 == lookup_capture(caps, n)->0,
    decreases caps.len(),
{
    if caps[0].0@ != n {
        lemma_lookup_in(caps.drop_first(), n);
        let i = choose|i: int| 0 <= i < caps.drop_first().len() && caps.drop_first()[i].1 == lookup_capture(caps, n)->0;
        assert(caps[i + 1] == caps.drop_first()[i]);
    } else {
        assert(caps[0].1 == lookup_capture(caps, n)->0);
    }
}

proof fn lemma_stands_for_hole_up(
    tree: &SyntaxTree,
    node: int,
    child: int,
    cs: &ResolvedConcreteSyntax,
    replace_node: Option<String>,
    m: Match,
)
    requires
        node < child,
        stands_for_hole(tree, child, cs, replace_node, m),
    ensures
        stands_for_hole(tree, node, cs, replace_node, m),
{
    if let Some(k) = replace_node {
        if k@ != seq!['*'] && has_hole(cs.pattern.sequence@, k@) {
            let c = lookup_capture(m.caps(), k@)->0;
            let f = choose|f: int|
                #![trigger tree.nodes@[f]]
                child < f < tree.nodes@.len() && tree.nodes@[f].kind@ == c.node_type@
                    && tree.nodes@[f].range.start_byte == c.range.start_byte;
            assert(tree.nodes@[f].kind@ == c.node_type@);
        }
    }
}

/// All matches of `cs` at `node` and, when `recursive`, at every node below.
fn get_all_core(
    tree: &SyntaxTree,
    node: usize,
    src: &[u8],
    cs: &ResolvedConcreteSyntax,
    recursive: bool,
    replace_node: &Option<String>,
    depth: usize,
) -> (res: Vec<Match>)
    requires
        tree.wf(),
        tree.nodes@.len() > 0,
        node < tree.nodes@.len(),
    ensures
        forall|i: int| 0 <= i < res@.len() ==> match_faithful(#[trigger] res@[i], src@),
        forall|i: int| 0 <= i < res@.len() ==> holes_captured(cs.pattern.sequence@, 0, (#[trigger] res@[i]).caps()),
        forall|i: int| 0 <= i < res@.len() ==> (#[trigger] res@[i]).wf(),
        forall|i: int| 0 <= i < res@.len() ==> stands_for_hole(tree, node as int, cs, *replace_node, #[trigger] res@[i]),
        !recursive ==> res@.len() <= 1,
        bare_hole_matches(tree, node as int, cs) ==> res@.len() >= 1,
        recursive && match_below(tree, node as int, cs) ==> res@.len() >= 1,
    decreases depth, cs.pattern.sequence@.len() + 2, 0int, tree.nodes@.len() - node, 0int,
{
    let mut matches: Vec<Match> = Vec::new();
    let nr = NodeRef { tree, index: node };
    if satisfies_root_constraints(&nr, &cs.pattern.root_constraints) {
        match match_sequential_siblings(tree, src, &cs.pattern.sequence, node, depth) {
            Some((caps, range)) => {
                let star = chars_to_string(&vec!['*']);
                let key = match replace_node {
                    Some(k) => copy_string(k),
                    None => copy_string(&star),
                };
                let whole = CapturedNode {
                    range,
                    text: text_at(src, range),
                    node_type: copy_string(&tree.nodes[node].kind),
                };
                proof {
                    if let Some(k) = replace_node {
                        if k@ != seq!['*'] && has_hole(cs.pattern.sequence@, k@) {
                            let j = choose|j: int|
                                0 <= j < cs.pattern.sequence@.len() && #[trigger] hole_name(cs.pattern.sequence@[j])
                                    == Some(k@);
                            assert(lookup_capture(caps@, hole_name(cs.pattern.sequence@[j])->0) is Some);
                        }
                    }
                }
                let rn = if str_eq(key.as_str(), star.as_str()) {
                    whole
                } else {
                    match find_capture(&caps, key.as_str()) {
                        Some(i) => caps[i].1.copy(),
                        None => whole,
                    }
                };
                proof {
                    if let Some(k) = replace_node {
                        if k@ != seq!['*'] && has_hole(cs.pattern.sequence@, k@) {
                            let c0 = lookup_capture(caps@, k@)->0;
                            assert(star@ == seq!['*']);
                            assert(key@ == k@);
                            assert(lookup_capture(caps@, k@) is Some);
                            assert(rn.range == c0.range && rn.node_type@ == c0.node_type@);
                            lemma_lookup_in(caps@, k@);
                            let i = choose|i: int| 0 <= i < caps@.len() && caps@[i].1 == c0;
                            assert(captured_below(tree, node as int, caps@[i].1));
                            let f = choose|f: int|
                                #![trigger tree.nodes@[f]]
                                node < f < tree.nodes@.len() && tree.nodes@[f].kind@ == c0.node_type@
                                    && tree.nodes@[f].range.start_byte == c0.range.start_byte;
                            assert(tree.nodes@[f].kind@ == rn.node_type@);
                        }
                    }
                }
                let mut caps = caps;
                let matched_string = copy_string(&rn.text);
                let mrange = rn.range;
                let ghost before = caps@;
                set_capture(&mut caps, key, rn, Ghost(src@));
                proof {
                    let pat = cs.pattern.sequence@;
                    assert forall|j: int|
                        0 <= j < pat.len() && (#[trigger] hole_name(pat[j])) is Some implies lookup_capture(
                        caps@,
                        hole_name(pat[j])->0,
                    ) is Some by {
                        assert(lookup_capture(before, hole_name(pat[j])->0) is Some);
                    }
                }
                matches.push(Match::new(matched_string, mrange, caps));
            },
            None => {},
        }
    }
    if recursive {
        let n = tree.child_count(node);
        let mut k: usize = 0;
        while k < n
            invariant
                tree.wf(),
                tree.nodes@.len() > 0,
                node < tree.nodes@.len(),
                n == tree.spec_child_count(node as int),
                k <= n,
                bare_hole_matches(tree, node as int, cs) ==> matches@.len() >= 1,
                recursive,
                match_from(tree, node as int, 0, cs) && !match_from(tree, node as int, k as int, cs) ==> matches@.len()
                    >= 1,
                forall|i: int| 0 <= i < matches@.len() ==> match_faithful(#[trigger] matches@[i], src@),
                forall|i: int| 0 <= i < matches@.len() ==> holes_captured(cs.pattern.sequence@, 0, (#[trigger] matches@[i]).caps()),
                forall|i: int| 0 <= i < matches@.len() ==> (#[trigger] matches@[i]).wf(),
                forall|i: int|
                    0 <= i < matches@.len() ==> stands_for_hole(tree, node as int, cs, *replace_node, #[trigger] matches@[i]),
            decreases n - k,
        {
            let child = tree.child(node, k);
            let mut sub = get_all_core(tree, child, src, cs, recursive, replace_node, depth);
            proof {
                assert forall|i: int| 0 <= i < sub@.len() implies stands_for_hole(
                    tree,
                    node as int,
                    cs,
                    *replace_node,
                    #[trigger] sub@[i],
                ) by {
                    lemma_stands_for_hole_up(tree, node as int, child as int, cs, *replace_node, sub@[i]);
                }
            }
            matches.append(&mut sub);
            k = k + 1;
        }
    }
    matches
}

/// All matches of the resolved pattern `cs` at the tree node `node` and, when
/// `recursive`, at every node below it, in pre-order. Each match's text is
/// the source text of its range, and each hole of the pattern has a capture;
/// with `replace_node` naming a hole, the match stands for that hole's
/// capture instead of the whole matched range (a capture of nodes below
/// `node`). `contains` constraints are looked for in the whole tree.
pub fn get_all_matches_at_node(
    node: &NodeRef,
    code_str: &[u8],
    cs: &ResolvedConcreteSyntax,
    recursive: bool,
    replace_node: Option<String>,
) -> (res: Vec<Match>)
    requires
        node.tree.wf(),
        node.index < node.tree.nodes@.len(),
    ensures
        forall|i: int| 0 <= i < res@.len() ==> match_faithful(#[trigger] res@[i], code_str@),
        forall|i: int| 0 <= i < res@.len() ==> holes_captured(cs.pattern.sequence@, 0, (#[trigger] res@[i]).caps()),
        forall|i: int| 0 <= i < res@.len() ==> (#[trigger] res@[i]).wf(),
        forall|i: int|
            0 <= i < res@.len() ==> stands_for_hole(node.tree, node.index as int, cs, replace_node, #[trigger] res@[i]),
        !recursive ==> res@.len() <= 1,
        bare_hole_matches(node.tree, node.index as int, cs) ==> res@.len() >= 1,
        recursive && match_below(node.tree, node.index as int, cs) ==> res@.len() >= 1,
{
    get_all_core(node.tree, node.index, code_str, cs, recursive, &replace_node, 1)
}

/// All matches of the resolved pattern `cs` at `node` and, when `recursive`,
/// at every node below it, in pre-order (the tree under `node` is read into a
/// `SyntaxTree` first). Each match's text is the source text of its range,
/// and each hole of the pattern has a capture; with `replace_node` naming a
/// hole, the match stands for that hole's capture instead of the whole
/// matched range.
pub fn get_all_matches_for_concrete_syntax<N: SyntaxNode>(
    node: &N,
    code_str: &[u8],
    cs: &ResolvedConcreteSyntax,
    recursive: bool,
    replace_node: Option<String>,
) -> (res: Vec<Match>)
    ensures
        forall|i: int| 0 <= i < res@.len() ==> match_faithful(#[trigger] res@[i], code_str@),
        forall|i: int| 0 <= i < res@.len() ==> holes_captured(cs.pattern.sequence@, 0, (#[trigger] res@[i]).caps()),
        forall|i: int| 0 <= i < res@.len() ==> (#[trigger] res@[i]).wf(),
        !recursive ==> res@.len() <= 1,
{
    let tree = SyntaxTree::from_node(node);
    get_all_core(&tree, 0, code_str, cs, recursive, &replace_node, 1)
}

} // verus!
