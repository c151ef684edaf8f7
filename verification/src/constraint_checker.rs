//! Checking captured nodes against constraints.

use vstd::prelude::*;
use crate::matches::CapturedNode;
use crate::parser::{ConstraintV, CsConstraint, constraint_view, kw_root, strings_view};
use crate::resolver::ResolvedConcreteSyntax;
use crate::text::{chars_to_string, lemma_has_string_contains, str_eq, vec_contains_string};
use crate::tree::{NodeRef, SyntaxTree};

verus! {

/// What matching `text` against the regular expression `pattern` gives:
/// `None` when `pattern` is not a valid regular expression.
pub uninterp spec fn regex_match_result(pattern: Seq<char>, text: Seq<char>) -> Option<bool>;

/// Compiles `pattern` with `regex::Regex::new` and, if it compiles, tells
/// whether it matches somewhere in `text` (`Regex::is_match`). Whether it
/// compiles does not depend on the text.
#[verifier::external_body]
pub(crate) fn regex_is_match(pattern: &str, text: &str) -> (res: Option<bool>)
    ensures
        res == regex_match_result(pattern@, text@),
        (res is Some) == (regex_match_result(pattern@, seq![]) is Some),
{
    match regex::Regex::new(pattern) {
        Ok(re) => Some(re.is_match(text)),
        Err(_) => None,
    }
}

/// Whether `regex::Regex::new` compiles `pattern`: what makes the match
/// result of `regex_is_match` something rather than nothing.
#[verifier::external_body]
pub(crate) fn regex_compiles(pattern: &str) -> (b: bool)
    ensures
        b == (regex_match_result(pattern@, seq![]) is Some),
{
    regex::Regex::new(pattern).is_ok()
}

/// The names of the groups of `pattern`, in order (nothing for an unnamed
/// group); `None` when `pattern` is not a valid regular expression.
pub uninterp spec fn regex_group_names(pattern: Seq<char>) -> Option<Seq<Option<Seq<char>>>>;

/// The names of a list of groups.
pub open spec fn group_names_view(v: Seq<Option<String>>) -> Seq<Option<Seq<char>>> {
    v.map_values(
        |o: Option<String>|
            match o {
                Some(s) => Some(s@),
                None => None,
            },
    )
}

/// Compiles `pattern` with `regex::Regex::new` and gives the names of its
/// groups (`Regex::capture_names`, the whole match included as an unnamed
/// group), one for one.
#[verifier::external_body]
pub(crate) fn regex_capture_names(pattern: &str) -> (res: Option<Vec<Option<String>>>)
    ensures
        match res {
            Some(v) => regex_group_names(pattern@) == Some(group_names_view(v@)),
            None => regex_group_names(pattern@) is None,
        },
        (res is Some) == (regex_match_result(pattern@, seq![]) is Some),
{
    match regex::Regex::new(pattern) {
        Ok(re) => Some(re.capture_names().map(|n| n.map(|s| s.to_string())).collect()),
        Err(_) => None,
    }
}

/// The texts of the successive non-overlapping matches of `pattern` in
/// `text`; `None` when `pattern` is not a valid regular expression.
pub uninterp spec fn regex_matches_of(pattern: Seq<char>, text: Seq<char>) -> Option<Seq<Seq<char>>>;

/// Compiles `pattern` with `regex::Regex::new` and gives the text of each
/// match that `Regex::find_iter` finds in `text`, in order.
#[verifier::external_body]
pub(crate) fn regex_find_all(pattern: &str, text: &str) -> (res: Option<Vec<String>>)
    ensures
        match res {
            Some(v) => regex_matches_of(pattern@, text@) == Some(strings_view(v@)),
            None => regex_matches_of(pattern@, text@) is None,
        },
        (res is Some) == (regex_match_result(pattern@, seq![]) is Some),
{
    match regex::Regex::new(pattern) {
        Ok(re) => Some(re.find_iter(text).map(|m| m.as_str().to_string()).collect()),
        Err(_) => None,
    }
}

/// Whether `c` holds of a node with text `text` and kind `node_type`, where
/// `contains` is what each `contains` constraint evaluates to.
pub open spec fn constraint_holds(c: ConstraintV, text: Seq<char>, node_type: Seq<char>, contains: bool) -> bool
    decreases c,
{
    match c {
        ConstraintV::In { items, .. } => items.contains(text),
        ConstraintV::Regex { pattern, .. } => regex_match_result(pattern, text) == Some(true),
        ConstraintV::Type { types, .. } => types.contains(node_type),
        ConstraintV::Contains { .. } => contains,
        ConstraintV::Not(inner) => !constraint_holds(*inner, text, node_type, contains),
    }
}


/// Whether a constraint other than `contains` holds of a captured node;
/// `None` for a `contains` constraint, which depends on the whole tree.
pub(crate) fn check_simple(node: &CapturedNode, c: &CsConstraint) -> (res: Option<bool>)
    ensures
        match res {
            Some(b) => !(constraint_view(*c) is Contains) && b == constraint_holds(
                constraint_view(*c),
                node.text@,
                node.node_type@,
                false,
            ),
            None => constraint_view(*c) is Contains || constraint_view(*c) is Not,
        },
{
    match c {
        CsConstraint::In { items, .. } => {
            proof {
                lemma_has_string_contains(items@, node.text@);
            }
            Some(vec_contains_string(items, node.text.as_str()))
        },
        CsConstraint::Regex { pattern, .. } => match regex_is_match(pattern.as_str(), node.text.as_str()) {
            Some(b) => Some(b),
            None => Some(false),
        },
        CsConstraint::Type { types, .. } => {
            proof {
                lemma_has_string_contains(types@, node.node_type@);
            }
            Some(vec_contains_string(types, node.node_type.as_str()))
        },
        CsConstraint::Contains { .. } => None,
        CsConstraint::Not(_) => None,
    }
}

/// What a check may read besides the captured node: the source code and the
/// root of the tree it was parsed into.
pub struct ConstraintContext<'a> {
    pub captured_node: &'a CapturedNode,
    pub source_code: &'a [u8],
    pub ast_root: &'a NodeRef<'a>,
}

/// The constraint has no `contains` part.
pub open spec fn contains_free(c: ConstraintV) -> bool
    decreases c,
{
    match c {
        ConstraintV::Contains { .. } => false,
        ConstraintV::Not(inner) => contains_free(*inner),
        _ => true,
    }
}

/// Whether a captured node satisfies one constraint. A `contains` constraint
/// holds when the tree under the context's root holds a match of its resolved
/// sub-pattern, and never without a context or a resolved sub-pattern.
pub(crate) fn check_constraint(node: &CapturedNode, ctr: &CsConstraint, context: Option<&ConstraintContext>) -> (res: bool)
    requires
        context matches Some(ctx) ==> ctx.ast_root.tree.wf() && ctx.ast_root.index
            < ctx.ast_root.tree.nodes@.len() && ctx.ast_root.tree.nodes@.len() > 0,
    ensures
        contains_free(constraint_view(*ctr)) ==> res == constraint_holds(
            constraint_view(*ctr),
            node.text@,
            node.node_type@,
            false,
        ),
        context is None ==> res == constraint_holds(constraint_view(*ctr), node.text@, node.node_type@, false),
        exists|b: bool|
            #![trigger constraint_holds(constraint_view(*ctr), node.text@, node.node_type@, b)]
            res == constraint_holds(constraint_view(*ctr), node.text@, node.node_type@, b),
        context is Some && crate::interpreter::contains_found_at(
            context->0.ast_root.tree,
            context->0.ast_root.index as int,
            *ctr,
        ) ==> res == constraint_holds(constraint_view(*ctr), node.text@, node.node_type@, true),
    decreases ctr,
{
    match ctr {
        CsConstraint::Not(inner) => {
            let r = check_constraint(node, inner, context);
            proof {
                let b = choose|b: bool| r == constraint_holds(constraint_view(**inner), node.text@, node.node_type@, b);
                assert(!r == constraint_holds(constraint_view(*ctr), node.text@, node.node_type@, b));
            }
            !r
        },
        CsConstraint::Contains { resolved_pattern, .. } => {
            let r = match (resolved_pattern, context) {
                (Some(resolved), Some(ctx)) => check_contains_recursive(resolved, ctx),
                _ => false,
            };
            assert(r == constraint_holds(constraint_view(*ctr), node.text@, node.node_type@, r));
            r
        },
        _ => {
            let r = match check_simple(node, ctr) {
                Some(b) => b,
                None => false,
            };
            assert(r == constraint_holds(constraint_view(*ctr), node.text@, node.node_type@, false));
            r
        },
    }
}

/// Whether the sub-pattern `resolved_pattern` matches anywhere under the
/// context's root.
fn check_contains_recursive(resolved_pattern: &ResolvedConcreteSyntax, context: &ConstraintContext) -> (res: bool)
    requires
        context.ast_root.tree.wf(),
        context.ast_root.index < context.ast_root.tree.nodes@.len(),
    ensures
        crate::interpreter::match_below(context.ast_root.tree, context.ast_root.index as int, resolved_pattern) ==> res,
{
    let matches = crate::interpreter::get_all_matches_at_node(
        context.ast_root,
        context.source_code,
        resolved_pattern,
        true,
        None,
    );
    matches.len() > 0
}

/// All the constraints hold of `node`.
pub open spec fn all_hold(cs: Seq<ConstraintV>, text: Seq<char>, node_type: Seq<char>) -> bool {
    forall|i: int| 0 <= i < cs.len() ==> constraint_holds(#[trigger] cs[i], text, node_type, false)
}

/// Whether a captured node satisfies all the constraints.
pub(crate) fn satisfies_constraints(node: &CapturedNode, constraints: &Vec<CsConstraint>, context: Option<&ConstraintContext>) -> (res: bool)
    requires
        context matches Some(ctx) ==> ctx.ast_root.tree.wf() && ctx.ast_root.index
            < ctx.ast_root.tree.nodes@.len() && ctx.ast_root.tree.nodes@.len() > 0,
    ensures
        context is None ==> res == all_hold(
            crate::parser::constraints_view(constraints@),
            node.text@,
            node.node_type@,
        ),
{
    let mut i: usize = 0;
    while i < constraints.len()
        invariant
            i <= constraints.len(),
            context matches Some(ctx) ==> ctx.ast_root.tree.wf() && ctx.ast_root.index
                < ctx.ast_root.tree.nodes@.len() && ctx.ast_root.tree.nodes@.len() > 0,
            context is None ==> forall|j: int| 0 <= j < i ==> constraint_holds(
                constraint_view(#[trigger] constraints@[j]),
                node.text@,
                node.node_type@,
                false,
            ),
        decreases constraints.len() - i,
    {
        if !check_constraint(node, &constraints[i], context) {
            assert(crate::parser::constraints_view(constraints@)[i as int] == constraint_view(constraints@[i as int]));
            return false;
        }
        i = i + 1;
    }
    proof {
        let cs = crate::parser::constraints_view(constraints@);
        assert forall|j: int| 0 <= j < cs.len() implies context is None ==> constraint_holds(
            #[trigger] cs[j],
            node.text@,
            node.node_type@,
            false,
        ) by {
            assert(cs[j] == constraint_view(constraints@[j]));
        }
    }
    true
}

pub open spec fn root_type_holds(c: ConstraintV, kind: Seq<char>) -> bool {
    match c {
        ConstraintV::Type { target, types } => target == kw_root() ==> types.contains(kind),
        _ => true,
    }
}

/// The `root.node_type` constraints that a node of kind `kind` meets.
pub open spec fn root_types_hold(cs: Seq<ConstraintV>, kind: Seq<char>) -> bool {
    forall|i: int| 0 <= i < cs.len() ==> root_type_holds(#[trigger] cs[i], kind)
}

/// Whether the node meets every `root.node_type` constraint.
pub(crate) fn satisfies_root_constraints(node: &NodeRef, constraints: &Vec<CsConstraint>) -> (res: bool)
    requires
        node.index < node.tree.nodes@.len(),
    ensures
        res == root_types_hold(
            crate::parser::constraints_view(constraints@),
            node.tree.nodes@[node.index as int].kind@,
        ),
{
    let kind = node.tree.nodes[node.index].kind.as_str();
    let root = chars_to_string(&vec!['r', 'o', 'o', 't']);
    assert(root@ == kw_root());
    let ghost cs = crate::parser::constraints_view(constraints@);
    let mut i: usize = 0;
    while i < constraints.len()
        invariant
            i <= constraints.len(),
            cs == crate::parser::constraints_view(constraints@),
            kind@ == node.tree.nodes@[node.index as int].kind@,
            root@ == kw_root(),
            forall|j: int| 0 <= j < i ==> root_type_holds(#[trigger] cs[j], kind@),
        decreases constraints.len() - i,
    {
        assert(cs[i as int] == constraint_view(constraints@[i as int]));
        match &constraints[i] {
            CsConstraint::Type { target, types } => {
                if str_eq(target.as_str(), root.as_str()) {
                    proof {
                        lemma_has_string_contains(types@, kind@);
                    }
                    if !vec_contains_string(types, kind) {
                        return false;
                    }
                }
            },
            _ => {},
        }
        i = i + 1;
    }
    true
}

} // verus!
