//! Resolution of constraints onto the holes they constrain.
//!
//! Constraints on `root` (`root.node_type in [...]`) stay with the pattern;
//! every other constraint moves onto the first hole of the same name, and the
//! sub-pattern of each `contains` constraint is resolved too.

use vstd::prelude::*;
use crate::parser::{
    CaptureMode, ConcreteSyntax, ConstraintV, CsConstraint, CsElement, ElemV, PatternV, constraint_view,
    constraints_view, elems_view, kw_root, strings_view,
};
use crate::text::{copy_string, copy_strings, str_eq, chars_to_string, str_to_chars};

verus! {

/// A pattern whose constraints stand on the holes they constrain.
#[derive(Debug)]
pub struct ResolvedConcreteSyntax {
    pub pattern: ResolvedCsPattern,
}

/// The elements of a resolved pattern and its constraints on the root node.
#[derive(Debug)]
pub struct ResolvedCsPattern {
    pub sequence: Vec<ResolvedCsElement>,
    pub root_constraints: Vec<CsConstraint>,
}

/// A resolved element: a hole with its constraints, or a literal word.
#[derive(Debug)]
pub enum ResolvedCsElement {
    Capture { name: String, mode: CaptureMode, constraints: Vec<CsConstraint> },
    Literal(String),
}

/// The mathematical value of a resolved element.
pub enum RElemV {
    Capture { name: Seq<char>, mode: CaptureMode, constraints: Seq<ConstraintV> },
    Literal(Seq<char>),
}

impl View for ResolvedCsElement {
    type V = RElemV;

    open spec fn view(&self) -> RElemV {
        match self {
            ResolvedCsElement::Capture { name, mode, constraints } => RElemV::Capture {
                name: name@,
                mode: *mode,
                constraints: constraints_view(constraints@),
            },
            ResolvedCsElement::Literal(s) => RElemV::Literal(s@),
        }
    }
}

/// The mathematical value of a resolved pattern.
pub struct ResolvedV {
    pub sequence: Seq<RElemV>,
    pub root_constraints: Seq<ConstraintV>,
}

pub open spec fn relems_view(v: Seq<ResolvedCsElement>) -> Seq<RElemV> {
    v.map_values(|e: ResolvedCsElement| e@)
}

impl View for ResolvedConcreteSyntax {
    type V = ResolvedV;

    open spec fn view(&self) -> ResolvedV {
        ResolvedV {
            sequence: relems_view(self.pattern.sequence@),
            root_constraints: constraints_view(self.pattern.root_constraints@),
        }
    }
}

/// An element resolved on its own: a hole without constraints.
pub open spec fn plain_relem(e: ElemV) -> RElemV {
    match e {
        ElemV::Capture { name, mode } => RElemV::Capture { name, mode, constraints: seq![] },
        ElemV::Literal(t) => RElemV::Literal(t),
    }
}

/// `r` is the resolution of the constraint-free pattern made of `els`.
pub open spec fn plainly_resolved(r: ResolvedConcreteSyntax, els: Seq<ElemV>) -> bool {
    &&& r@.root_constraints.len() == 0
    &&& r@.sequence == els.map_values(|e: ElemV| plain_relem(e))
}

/// Every `contains` constraint inside `c` carries the resolution of its
/// sub-pattern.
pub open spec fn constraint_resolved(c: CsConstraint) -> bool
    decreases c,
{
    match c {
        CsConstraint::Contains { target, pattern, resolved_pattern } => match resolved_pattern {
            Some(b) => plainly_resolved(*b, elems_view(pattern@)),
            None => false,
        },
        CsConstraint::Not(inner) => constraint_resolved(*inner),
        _ => true,
    }
}

pub open spec fn constraints_resolved(v: Seq<CsConstraint>) -> bool {
    forall|i: int| 0 <= i < v.len() ==> constraint_resolved(#[trigger] v[i])
}

/// The constraints of a resolved pattern all carry resolved sub-patterns.
pub open spec fn resolved_wf(r: ResolvedConcreteSyntax) -> bool {
    &&& constraints_resolved(r.pattern.root_constraints@)
    &&& forall|i: int| 0 <= i < r.pattern.sequence@.len() ==> (match #[trigger] r.pattern.sequence@[i] {
        ResolvedCsElement::Capture { constraints, .. } => constraints_resolved(constraints@),
        ResolvedCsElement::Literal(_) => true,
    })
}

// ---------------------------------------------------------------------
// What resolution computes
// ---------------------------------------------------------------------

/// The name a constraint speaks of.
pub open spec fn constraint_name(c: ConstraintV) -> Seq<char>
    decreases c,
{
    match c {
        ConstraintV::In { capture, .. } => capture,
        ConstraintV::Regex { capture, .. } => capture,
        ConstraintV::Type { target, .. } => target,
        ConstraintV::Contains { target, .. } => target,
        ConstraintV::Not(inner) => constraint_name(*inner),
    }
}

pub open spec fn is_root_type(c: ConstraintV) -> bool {
    c matches ConstraintV::Type { target, .. } && target == kw_root()
}

pub open spec fn is_root_contains(c: ConstraintV) -> bool {
    c matches ConstraintV::Contains { target, .. } && target == kw_root()
}

/// The `root.node_type` constraints among `cs`, in order.
pub open spec fn root_constraints_of(cs: Seq<ConstraintV>) -> Seq<ConstraintV>
    decreases cs.len(),
{
    if cs.len() == 0 {
        seq![]
    } else if is_root_type(cs.last()) {
        root_constraints_of(cs.drop_last()).push(cs.last())
    } else {
        root_constraints_of(cs.drop_last())
    }
}

/// The constraints among `cs` that move onto the hole named `n`, in order.
pub open spec fn constraints_named(cs: Seq<ConstraintV>, n: Seq<char>) -> Seq<ConstraintV>
    decreases cs.len(),
{
    if cs.len() == 0 {
        seq![]
    } else if !is_root_type(cs.last()) && constraint_name(cs.last()) == n {
        constraints_named(cs.drop_last(), n).push(cs.last())
    } else {
        constraints_named(cs.drop_last(), n)
    }
}

pub open spec fn is_capture_named(e: ElemV, n: Seq<char>) -> bool {
    e matches ElemV::Capture { name, .. } && name == n
}

pub open spec fn has_capture_named(els: Seq<ElemV>, n: Seq<char>) -> bool {
    exists|j: int| 0 <= j < els.len() && is_capture_named(#[trigger] els[j], n)
}

/// The element at `i` is a hole, and no hole before it has its name.
pub open spec fn first_capture_at(els: Seq<ElemV>, i: int) -> bool {
    els[i] is Capture && !has_capture_named(els.take(i), els[i]->Capture_name)
}

/// The element at `i` of the resolution of `p`.
pub open spec fn resolve_elem(p: PatternV, i: int) -> RElemV {
    match p.sequence[i] {
        ElemV::Capture { name, mode } => RElemV::Capture {
            name,
            mode,
            constraints: if first_capture_at(p.sequence, i) {
                constraints_named(p.constraints, name)
            } else {
                seq![]
            },
        },
        ElemV::Literal(t) => RElemV::Literal(t),
    }
}

/// A constraint that no hole of `p` can take.
pub open spec fn unresolved(p: PatternV, c: ConstraintV) -> bool {
    !is_root_type(c) && !has_capture_named(p.sequence, constraint_name(c))
}

/// Resolution fails when a `root contains` constraint is given or a
/// constraint speaks of a hole that the pattern does not have.
pub open spec fn spec_resolve(p: PatternV) -> Option<ResolvedV> {
    if exists|i: int| 0 <= i < p.constraints.len() && is_root_contains(#[trigger] p.constraints[i]) {
        None
    } else if exists|i: int| 0 <= i < p.constraints.len() && unresolved(p, #[trigger] p.constraints[i]) {
        None
    } else {
        Some(ResolvedV {
            sequence: Seq::new(p.sequence.len(), |i: int| resolve_elem(p, i)),
            root_constraints: root_constraints_of(p.constraints),
        })
    }
}

// ---------------------------------------------------------------------
// Resolution
// ---------------------------------------------------------------------

impl ConcreteSyntax {
    /// The name of the hole (or `root`) that a constraint speaks of.
    fn extract_capture_name_from_constraint(c: &CsConstraint) -> (res: String)
        ensures
            res@ == constraint_name(constraint_view(*c)),
        decreases c,
    {
        match c {
            CsConstraint::In { capture, .. } => copy_string(capture),
            CsConstraint::Regex { capture, .. } => copy_string(capture),
            CsConstraint::Type { target, .. } => copy_string(target),
            CsConstraint::Contains { target, .. } => copy_string(target),
            CsConstraint::Not(inner) => Self::extract_capture_name_from_constraint(inner),
        }
    }

    fn is_root_type_constraint(c: &CsConstraint) -> (b: bool)
        ensures
            b == is_root_type(constraint_view(*c)),
    {
        match c {
            CsConstraint::Type { target, .. } => {
                let root = vec!['r', 'o', 'o', 't'];
                let r = chars_to_string(&root);
                assert(r@ == kw_root());
                str_eq(target.as_str(), r.as_str())
            },
            _ => false,
        }
    }

    fn is_root_contains_constraint(c: &CsConstraint) -> (b: bool)
        ensures
            b == is_root_contains(constraint_view(*c)),
    {
        match c {
            CsConstraint::Contains { target, .. } => {
                let root = vec!['r', 'o', 'o', 't'];
                let r = chars_to_string(&root);
                assert(r@ == kw_root());
                str_eq(target.as_str(), r.as_str())
            },
            _ => false,
        }
    }
}


/// A copy of a list of pattern elements.
pub fn copy_elements(v: &Vec<CsElement>) -> (res: Vec<CsElement>)
    ensures
        elems_view(res@) == elems_view(v@),
{
    let mut res: Vec<CsElement> = Vec::new();
    let mut i: usize = 0;
    while i < v.len()
        invariant
            i <= v.len(),
            res@.len() == i,
            forall|j: int| 0 <= j < i ==> #[trigger] res@[j]@ == v@[j]@,
        decreases v.len() - i,
    {
        let e = match &v[i] {
            CsElement::Capture { name, mode } => CsElement::Capture { name: copy_string(name), mode: *mode },
            CsElement::Literal(t) => CsElement::Literal(copy_string(t)),
        };
        res.push(e);
        i = i + 1;
    }
    assert(elems_view(res@) =~= elems_view(v@));
    res
}

/// The resolution of the constraint-free pattern made of `els`.
fn resolve_plain(els: &Vec<CsElement>) -> (r: ResolvedConcreteSyntax)
    ensures
        plainly_resolved(r, elems_view(els@)),
        resolved_wf(r),
{
    let mut seq: Vec<ResolvedCsElement> = Vec::new();
    let mut i: usize = 0;
    while i < els.len()
        invariant
            i <= els.len(),
            seq@.len() == i,
            forall|j: int| 0 <= j < i ==> #[trigger] seq@[j]@ == plain_relem(els@[j]@),
            forall|j: int| 0 <= j < i ==> (match #[trigger] seq@[j] {
                ResolvedCsElement::Capture { constraints, .. } => constraints@.len() == 0,
                ResolvedCsElement::Literal(_) => true,
            }),
        decreases els.len() - i,
    {
        let e = match &els[i] {
            CsElement::Capture { name, mode } => {
                let cs: Vec<CsConstraint> = Vec::new();
                assert(constraints_view(cs@) =~= Seq::<ConstraintV>::empty());
                ResolvedCsElement::Capture { name: copy_string(name), mode: *mode, constraints: cs }
            },
            CsElement::Literal(t) => ResolvedCsElement::Literal(copy_string(t)),
        };
        seq.push(e);
        i = i + 1;
    }
    let rc: Vec<CsConstraint> = Vec::new();
    let r = ResolvedConcreteSyntax { pattern: ResolvedCsPattern { sequence: seq, root_constraints: rc } };
    assert(r@.sequence =~= elems_view(els@).map_values(|e: ElemV| plain_relem(e)));
    assert(r@.root_constraints =~= Seq::<ConstraintV>::empty());
    r
}

/// A copy of `c` in which every `contains` constraint carries its resolved
/// sub-pattern.
fn resolve_constraint(c: &CsConstraint) -> (res: CsConstraint)
    ensures
        constraint_view(res) == constraint_view(*c),
        constraint_resolved(res),
    decreases c,
{
    match c {
        CsConstraint::In { capture, items } => CsConstraint::In {
            capture: copy_string(capture),
            items: copy_strings(items),
        },
        CsConstraint::Regex { capture, pattern } => CsConstraint::Regex {
            capture: copy_string(capture),
            pattern: copy_string(pattern),
        },
        CsConstraint::Type { target, types } => CsConstraint::Type {
            target: copy_string(target),
            types: copy_strings(types),
        },
        CsConstraint::Contains { target, pattern, .. } => {
            let r = resolve_plain(pattern);
            CsConstraint::Contains {
                target: copy_string(target),
                pattern: copy_elements(pattern),
                resolved_pattern: Some(Box::new(r)),
            }
        },
        CsConstraint::Not(inner) => {
            let ri = resolve_constraint(inner);
            let ghost v = constraint_view(ri);
            let res = CsConstraint::Not(Box::new(ri));
            assert(constraint_view(res) == ConstraintV::Not(Box::new(v)));
            res
        },
    }
}

impl ConcreteSyntax {
    /// Resolves the `contains` sub-patterns in a list of constraints.
    fn resolve_contains_in_constraints(constraints: &Vec<CsConstraint>) -> (res: Vec<CsConstraint>)
        ensures
            constraints_view(res@) == constraints_view(constraints@),
            constraints_resolved(res@),
    {
        let mut res: Vec<CsConstraint> = Vec::new();
        let mut i: usize = 0;
        while i < constraints.len()
            invariant
                i <= constraints.len(),
                res@.len() == i,
                forall|j: int| 0 <= j < i ==> constraint_view(#[trigger] res@[j]) == constraint_view(
                    constraints@[j],
                ),
                constraints_resolved(res@),
            decreases constraints.len() - i,
        {
            res.push(resolve_constraint(&constraints[i]));
            i = i + 1;
        }
        assert(constraints_view(res@) =~= constraints_view(constraints@));
        res
    }
}


/// Whether one of the first `upto` elements is a hole named `name`.
fn has_capture_before(els: &Vec<CsElement>, upto: usize, name: &str) -> (b: bool)
    requires
        upto <= els.len(),
    ensures
        b == has_capture_named(elems_view(els@).take(upto as int), name@),
{
    let ghost ev = elems_view(els@).take(upto as int);
    let mut j: usize = 0;
    while j < upto
        invariant
            upto <= els.len(),
            ev == elems_view(els@).take(upto as int),
            j <= upto,
            forall|t: int| 0 <= t < j ==> !is_capture_named(#[trigger] ev[t], name@),
        decreases upto - j,
    {
        match &els[j] {
            CsElement::Capture { name: n, .. } => {
                if str_eq(n.as_str(), name) {
                    assert(is_capture_named(ev[j as int], name@));
                    return true;
                }
            },
            CsElement::Literal(_) => {},
        }
        j = j + 1;
    }
    false
}

/// The constraints of `cs` that move onto the hole named `name`, resolved.
fn collect_named(cs: &Vec<CsConstraint>, name: &str) -> (res: Vec<CsConstraint>)
    ensures
        constraints_view(res@) == constraints_named(constraints_view(cs@), name@),
        constraints_resolved(res@),
{
    let mut res: Vec<CsConstraint> = Vec::new();
    let mut i: usize = 0;
    assert(constraints_view(cs@).take(0) =~= Seq::<ConstraintV>::empty());
    assert(constraints_view(res@) =~= Seq::<ConstraintV>::empty());
    while i < cs.len()
        invariant
            i <= cs.len(),
            constraints_view(res@) == constraints_named(constraints_view(cs@).take(i as int), name@),
            constraints_resolved(res@),
        decreases cs.len() - i,
    {
        let ghost cv = constraints_view(cs@);
        assert(cv.take(i + 1).drop_last() =~= cv.take(i as int));
        assert(cv.take(i + 1).last() == constraint_view(cs@[i as int]));
        let ghost old_res = constraints_view(res@);
        if !ConcreteSyntax::is_root_type_constraint(&cs[i]) {
            let n = ConcreteSyntax::extract_capture_name_from_constraint(&cs[i]);
            if str_eq(n.as_str(), name) {
                let r = resolve_constraint(&cs[i]);
                res.push(r);
                assert(constraints_view(res@) =~= old_res.push(constraint_view(cs@[i as int])));
            }
        }
        i = i + 1;
    }
    assert(constraints_view(cs@).take(cs.len() as int) =~= constraints_view(cs@));
    res
}

/// The `root.node_type` constraints of `cs`, resolved.
fn collect_root(cs: &Vec<CsConstraint>) -> (res: Vec<CsConstraint>)
    ensures
        constraints_view(res@) == root_constraints_of(constraints_view(cs@)),
        constraints_resolved(res@),
{
    let mut res: Vec<CsConstraint> = Vec::new();
    let mut i: usize = 0;
    assert(constraints_view(cs@).take(0) =~= Seq::<ConstraintV>::empty());
    assert(constraints_view(res@) =~= Seq::<ConstraintV>::empty());
    while i < cs.len()
        invariant
            i <= cs.len(),
            constraints_view(res@) == root_constraints_of(constraints_view(cs@).take(i as int)),
            constraints_resolved(res@),
        decreases cs.len() - i,
    {
        let ghost cv = constraints_view(cs@);
        assert(cv.take(i + 1).drop_last() =~= cv.take(i as int));
        assert(cv.take(i + 1).last() == constraint_view(cs@[i as int]));
        let ghost old_res = constraints_view(res@);
        if ConcreteSyntax::is_root_type_constraint(&cs[i]) {
            let r = resolve_constraint(&cs[i]);
            res.push(r);
            assert(constraints_view(res@) =~= old_res.push(constraint_view(cs@[i as int])));
        }
        i = i + 1;
    }
    assert(constraints_view(cs@).take(cs.len() as int) =~= constraints_view(cs@));
    res
}

/// A character as it stands in the Debug form of a string.
pub open spec fn debug_char(c: char) -> Seq<char> {
    if c == '"' {
        seq!['\\', '"']
    } else if c == '\\' {
        seq!['\\', '\\']
    } else if c == '\n' {
        seq!['\\', 'n']
    } else if c == '\r' {
        seq!['\\', 'r']
    } else if c == '\t' {
        seq!['\\', 't']
    } else if c == '\0' {
        seq!['\\', '0']
    } else {
        seq![c]
    }
}

/// The characters of a string with the escapes of its Debug form.
pub open spec fn debug_escaped(s: Seq<char>) -> Seq<char>
    decreases s.len(),
{
    if s.len() == 0 {
        seq![]
    } else {
        debug_escaped(s.drop_last()) + debug_char(s.last())
    }
}

/// A string in its Debug form: quoted and escaped.
pub open spec fn debug_str(s: Seq<char>) -> Seq<char> {
    seq!['"'] + debug_escaped(s) + seq!['"']
}

/// The items of a list of strings in Debug form, separated by `, `.
pub open spec fn debug_items(names: Seq<Seq<char>>) -> Seq<char>
    decreases names.len(),
{
    if names.len() == 0 {
        seq![]
    } else if names.len() == 1 {
        debug_str(names[0])
    } else {
        debug_items(names.drop_last()) + seq![',', ' '] + debug_str(names.last())
    }
}

/// A list of strings in Debug form, as `["a", "b"]`.
pub open spec fn debug_list(names: Seq<Seq<char>>) -> Seq<char> {
    seq!['['] + debug_items(names) + seq![']']
}

/// The names of the holes that the first `n` constraints speak of and the
/// pattern lacks, each once, in the order they first appear.
pub open spec fn unresolved_names(p: PatternV, n: int) -> Seq<Seq<char>>
    decreases n,
{
    if n <= 0 {
        seq![]
    } else {
        let prev = unresolved_names(p, n - 1);
        let c = p.constraints[n - 1];
        if unresolved(p, c) && !prev.contains(constraint_name(c)) {
            prev.push(constraint_name(c))
        } else {
            prev
        }
    }
}

/// The message for a pattern whose resolution fails.
pub open spec fn resolve_error(p: PatternV) -> Seq<char> {
    if exists|i: int| 0 <= i < p.constraints.len() && is_root_contains(#[trigger] p.constraints[i]) {
        "'root contains' is not supported. Only 'root.node_type' constraints are allowed."@
    } else {
        "Unresolved constraints for captures: "@ + debug_list(unresolved_names(p, p.constraints.len() as int))
    }
}

/// Appends the Debug form of `s` to `out`.
pub(crate) fn push_debug_str(out: &mut Vec<char>, s: &str)
    ensures
        final(out)@ == old(out)@ + debug_str(s@),
{
    let v = str_to_chars(s);
    let ghost start = out@;
    out.push('"');
    let mut i: usize = 0;
    while i < v.len()
        invariant
            i <= v@.len(),
            v@ == s@,
            out@ == start + seq!['"'] + debug_escaped(v@.take(i as int)),
        decreases v@.len() - i,
    {
        assert(v@.take(i + 1).drop_last() =~= v@.take(i as int));
        assert(v@.take(i + 1).last() == v@[i as int]);
        let c = v[i];
        let ghost before = out@;
        if c == '"' {
            out.push('\\');
            out.push('"');
        } else if c == '\\' {
            out.push('\\');
            out.push('\\');
        } else if c == '\n' {
            out.push('\\');
            out.push('n');
        } else if c == '\r' {
            out.push('\\');
            out.push('r');
        } else if c == '\t' {
            out.push('\\');
            out.push('t');
        } else if c == '\0' {
            out.push('\\');
            out.push('0');
        } else {
            out.push(c);
        }
        assert(out@ =~= before + debug_char(c));
        i = i + 1;
    }
    assert(v@.take(v@.len() as int) =~= v@);
    out.push('"');
}

/// The Debug form of a list of strings.
fn debug_list_string(names: &Vec<String>) -> (r: String)
    ensures
        r@ == debug_list(strings_view(names@)),
{
    let mut out: Vec<char> = Vec::new();
    push_debug_list(&mut out, names);
    chars_to_string(&out)
}

/// Appends the Debug form of a list of strings to `out`.
pub(crate) fn push_debug_list(out: &mut Vec<char>, names: &Vec<String>)
    ensures
        final(out)@ == old(out)@ + debug_list(strings_view(names@)),
{
    let ghost start = out@;
    out.push('[');
    let ghost nv = strings_view(names@);
    let mut i: usize = 0;
    while i < names.len()
        invariant
            i <= names@.len(),
            nv == strings_view(names@),
            out@ == start + seq!['['] + debug_items(nv.take(i as int)),
        decreases names@.len() - i,
    {
        assert(nv.take(i + 1).drop_last() =~= nv.take(i as int));
        assert(nv.take(i + 1).last() == names@[i as int]@);
        if i > 0 {
            out.push(',');
            out.push(' ');
        } else {
            assert(nv.take(0) =~= Seq::<Seq<char>>::empty());
            assert(nv.take(1)[0] == names@[0]@);
        }
        let ghost before = out@;
        push_debug_str(out, names[i].as_str());
        assert(out@ =~= start + seq!['['] + debug_items(nv.take(i + 1)));
        i = i + 1;
    }
    assert(nv.take(names@.len() as int) =~= nv);
    out.push(']');
    assert(out@ =~= start + debug_list(nv));
}

/// Whether `names` holds `n`.
fn names_contain(names: &Vec<String>, n: &str) -> (b: bool)
    ensures
        b == strings_view(names@).contains(n@),
{
    let ghost nv = strings_view(names@);
    let mut i: usize = 0;
    while i < names.len()
        invariant
            i <= names@.len(),
            nv == strings_view(names@),
            forall|j: int| 0 <= j < i ==> nv[j] != n@,
        decreases names@.len() - i,
    {
        if str_eq(names[i].as_str(), n) {
            assert(nv[i as int] == n@);
            return true;
        }
        i = i + 1;
    }
    false
}

impl ConcreteSyntax {
    /// Attaches each constraint to the hole it speaks of.
    ///
    /// Fails when a `root contains` constraint is given, or when a
    /// constraint speaks of a hole that the pattern does not have.
    pub fn resolve(self) -> (res: Result<ResolvedConcreteSyntax, String>)
        ensures
            match res {
                Ok(r) => spec_resolve(self@) == Some(r@) && resolved_wf(r),
                Err(m) => spec_resolve(self@) is None && m@ == resolve_error(self@),
            },
    {
        let ghost p = self@;
        let cs = &self.pattern.constraints;
        let els = &self.pattern.sequence;
        assert(p.constraints.len() == cs.len());
        assert(p.sequence.len() == els.len());
        let mut i: usize = 0;
        while i < cs.len()
            invariant
                p == self@,
                p.constraints == constraints_view(cs@),
                p.sequence == elems_view(els@),
                p.constraints.len() == cs.len(),
                p.sequence.len() == els.len(),
                i <= cs.len(),
                forall|j: int| 0 <= j < i ==> !is_root_contains(#[trigger] p.constraints[j]),
            decreases cs.len() - i,
        {
            assert(p.constraints[i as int] == constraint_view(cs@[i as int]));
            if Self::is_root_contains_constraint(&cs[i]) {
                assert(is_root_contains(p.constraints[i as int]));
                return Err(
                    "'root contains' is not supported. Only 'root.node_type' constraints are allowed.".to_owned(),
                );
            }
            i = i + 1;
        }
        let mut names: Vec<String> = Vec::new();
        let mut any_unresolved = false;
        i = 0;
        while i < cs.len()
            invariant
                p == self@,
                p.constraints == constraints_view(cs@),
                p.sequence == elems_view(els@),
                p.constraints.len() == cs.len(),
                p.sequence.len() == els.len(),
                i <= cs.len(),
                any_unresolved == exists|j: int| 0 <= j < i && unresolved(p, #[trigger] p.constraints[j]),
                strings_view(names@) == unresolved_names(p, i as int),
                forall|j: int| 0 <= j < cs.len() ==> !is_root_contains(#[trigger] p.constraints[j]),
            decreases cs.len() - i,
        {
            assert(p.constraints[i as int] == constraint_view(cs@[i as int]));
            if !Self::is_root_type_constraint(&cs[i]) {
                let n = Self::extract_capture_name_from_constraint(&cs[i]);
                assert(elems_view(els@).take(els.len() as int) =~= elems_view(els@));
                if !has_capture_before(els, els.len(), n.as_str()) {
                    assert(unresolved(p, p.constraints[i as int]));
                    any_unresolved = true;
                    if !names_contain(&names, n.as_str()) {
                        let ghost before = strings_view(names@);
                        names.push(n);
                        assert(strings_view(names@) =~= before.push(constraint_name(p.constraints[i as int])));
                    }
                }
            }
            i = i + 1;
        }
        if any_unresolved {
            let mut msg = str_to_chars("Unresolved constraints for captures: ");
            let mut list = str_to_chars(debug_list_string(&names).as_str());
            msg.append(&mut list);
            return Err(chars_to_string(&msg));
        }
        let mut seq: Vec<ResolvedCsElement> = Vec::new();
        i = 0;
        while i < els.len()
            invariant
                p == self@,
                p.constraints == constraints_view(cs@),
                p.sequence == elems_view(els@),
                p.constraints.len() == cs.len(),
                p.sequence.len() == els.len(),
                i <= els.len(),
                seq@.len() == i,
                forall|j: int| 0 <= j < i ==> #[trigger] seq@[j]@ == resolve_elem(p, j),
                forall|j: int| 0 <= j < i ==> (match #[trigger] seq@[j] {
                    ResolvedCsElement::Capture { constraints, .. } => constraints_resolved(constraints@),
                    ResolvedCsElement::Literal(_) => true,
                }),
            decreases els.len() - i,
        {
            match &els[i] {
                CsElement::Capture { name, mode } => {
                    let constraints = if !has_capture_before(els, i, name.as_str()) {
                        collect_named(cs, name.as_str())
                    } else {
                        let v: Vec<CsConstraint> = Vec::new();
                        assert(constraints_view(v@) =~= Seq::<ConstraintV>::empty());
                        v
                    };
                    seq.push(ResolvedCsElement::Capture { name: copy_string(name), mode: *mode, constraints });
                },
                CsElement::Literal(t) => {
                    seq.push(ResolvedCsElement::Literal(copy_string(t)));
                },
            }
            i = i + 1;
        }
        let root = collect_root(cs);
        let r = ResolvedConcreteSyntax { pattern: ResolvedCsPattern { sequence: seq, root_constraints: root } };
        assert(r@.sequence =~= Seq::new(p.sequence.len(), |j: int| resolve_elem(p, j)));
        Ok(r)
    }
}

/// Resolves a pattern that is known to resolve.
pub fn resolve_concrete_syntax(cs: &ConcreteSyntax) -> (r: ResolvedConcreteSyntax)
    requires
        spec_resolve(cs@) is Some,
    ensures
        spec_resolve(cs@) == Some(r@),
        resolved_wf(r),
{
    let copy = ConcreteSyntax {
        pattern: crate::parser::CsPattern {
            sequence: copy_elements(&cs.pattern.sequence),
            constraints: ConcreteSyntax::resolve_contains_in_constraints(&cs.pattern.constraints),
        },
    };
    assert(copy@ == cs@);
    match copy.resolve() {
        Ok(r) => r,
        Err(_) => {
            assert(false);
            ResolvedConcreteSyntax {
                pattern: ResolvedCsPattern { sequence: Vec::new(), root_constraints: Vec::new() },
            }
        },
    }
}

} // verus!
