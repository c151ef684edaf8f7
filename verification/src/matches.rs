//! Positions, ranges, captured nodes and match results.

use vstd::prelude::*;
use crate::text::{copy_string, str_eq};

verus! {

/// A position in a text document: zero-based row and column.
#[derive(Debug, Clone, Copy, PartialEq, Eq, Structural)]
pub struct Point {
    pub row: usize,
    pub column: usize,
}

impl Point {
    pub fn new(row: usize, column: usize) -> (p: Point)
        ensures
            p.row == row,
            p.column == column,
    {
        Point { row, column }
    }
}

/// A range of a text document, by byte offsets and by row/column positions.
#[derive(Debug, Clone, Copy, PartialEq, Eq, Structural)]
pub struct Range {
    pub start_byte: usize,
    pub end_byte: usize,
    pub start_point: Point,
    pub end_point: Point,
}

impl Range {
    pub fn new(start_byte: usize, end_byte: usize, start_point: Point, end_point: Point) -> (r: Range)
        ensures
            r == (Range { start_byte, end_byte, start_point, end_point }),
    {
        Range { start_byte, end_byte, start_point, end_point }
    }

    /// The range from the start of `first` to the end of `second`.
    pub open spec fn spec_span(first: Range, second: Range) -> Range {
        Range {
            start_byte: first.start_byte,
            end_byte: second.end_byte,
            start_point: first.start_point,
            end_point: second.end_point,
        }
    }

    /// Creates a range that spans from the start of `first` to the end of `second`.
    pub fn span_ranges(first: Range, second: Range) -> (r: Range)
        ensures
            r == Range::spec_span(first, second),
    {
        Range {
            start_byte: first.start_byte,
            end_byte: second.end_byte,
            start_point: first.start_point,
            end_point: second.end_point,
        }
    }

    /// The length of the range in bytes.
    pub fn len(&self) -> (n: usize)
        requires
            self.start_byte <= self.end_byte,
        ensures
            n == self.end_byte - self.start_byte,
    {
        self.end_byte - self.start_byte
    }

    /// Whether the range covers no byte.
    pub fn is_empty(&self) -> (b: bool)
        ensures
            b == (self.start_byte == self.end_byte),
    {
        self.start_byte == self.end_byte
    }

    pub open spec fn spec_contains(self, other: Range) -> bool {
        self.start_byte <= other.start_byte && other.end_byte <= self.end_byte
    }

    /// Whether this range contains `other`, by byte offsets.
    pub fn contains(&self, other: &Range) -> (b: bool)
        ensures
            b == self.spec_contains(*other),
    {
        self.start_byte <= other.start_byte && other.end_byte <= self.end_byte
    }

    pub open spec fn spec_overlaps(self, other: Range) -> bool {
        self.start_byte < other.end_byte && other.start_byte < self.end_byte
    }

    /// Whether this range and `other` share at least one byte.
    pub fn overlaps(&self, other: &Range) -> (b: bool)
        ensures
            b == self.spec_overlaps(*other),
    {
        self.start_byte < other.end_byte && other.start_byte < self.end_byte
    }
}

/// Containment of ranges is reflexive and transitive.
pub proof fn lemma_contains_preorder(a: Range, b: Range, c: Range)
    ensures
        a.spec_contains(a),
        a.spec_contains(b) && b.spec_contains(c) ==> a.spec_contains(c),
{
}

/// Overlap of ranges is symmetric, and a range overlaps itself exactly when
/// it is not empty.
pub proof fn lemma_overlaps_symmetric(a: Range, b: Range)
    ensures
        a.spec_overlaps(b) == b.spec_overlaps(a),
        a.spec_overlaps(a) <==> a.start_byte < a.end_byte,
{
}

/// The span of two ordered ranges contains both of them.
pub proof fn lemma_span_contains_both(first: Range, second: Range)
    requires
        first.start_byte <= first.end_byte,
        first.end_byte <= second.start_byte,
        second.start_byte <= second.end_byte,
    ensures
        Range::spec_span(first, second).spec_contains(first),
        Range::spec_span(first, second).spec_contains(second),
{
}

/// A captured node: its range, its text and the kind of the (first) node it
/// covers.
#[derive(Debug, Clone)]
pub struct CapturedNode {
    pub range: Range,
    pub text: String,
    pub node_type: String,
}

impl CapturedNode {
    /// A captured node of no particular kind.
    pub fn new(range: Range, text: String) -> (c: CapturedNode)
        ensures
            c.range == range,
            c.text@ == text@,
            c.node_type@ == Seq::<char>::empty(),
    {
        CapturedNode { range, text, node_type: String::new() }
    }

    pub fn copy(&self) -> (c: CapturedNode)
        ensures
            c.range == self.range,
            c.text@ == self.text@,
            c.node_type@ == self.node_type@,
    {
        CapturedNode {
            range: self.range,
            text: copy_string(&self.text),
            node_type: copy_string(&self.node_type),
        }
    }
}

/// The first capture named `name` in a list of named captures.
pub open spec fn lookup_capture(caps: Seq<(String, CapturedNode)>, name: Seq<char>) -> Option<CapturedNode>
    decreases caps.len(),
{
    if caps.len() == 0 {
        None
    } else if caps[0].0@ == name {
        Some(caps[0].1)
    } else {
        lookup_capture(caps.drop_first(), name)
    }
}

/// The names of a list of named captures, in order.
pub open spec fn capture_names(caps: Seq<(String, CapturedNode)>) -> Seq<Seq<char>> {
    caps.map_values(|p: (String, CapturedNode)| p.0@)
}

/// No two captures have the same name.
pub open spec fn names_distinct(caps: Seq<(String, CapturedNode)>) -> bool {
    forall|i: int, j: int| 0 <= i < j < caps.len() ==> (#[trigger] caps[i]).0@ != (#[trigger] caps[j]).0@
}

/// No capture is named `name` when looking it up finds nothing.
pub proof fn lemma_lookup_none(caps: Seq<(String, CapturedNode)>, name: Seq<char>)
    requires
        lookup_capture(caps, name) is None,
    ensures
        forall|i: int| 0 <= i < caps.len() ==> (#[trigger] caps[i]).0@ != name,
    decreases caps.len(),
{
    if caps.len() > 0 {
        lemma_lookup_none(caps.drop_first(), name);
        assert forall|i: int| 0 <= i < caps.len() implies (#[trigger] caps[i]).0@ != name by {
            if i > 0 {
                assert(caps.drop_first()[i - 1] == caps[i]);
            }
        }
    }
}

/// Index of the first capture named `name`, if any.
pub fn find_capture(caps: &Vec<(String, CapturedNode)>, name: &str) -> (res: Option<usize>)
    ensures
        match res {
            Some(i) => i < caps.len() && caps@[i as int].0@ == name@
                && lookup_capture(caps@, name@) == Some(caps@[i as int].1)
                && forall|j: int| 0 <= j < i ==> (#[trigger] caps@[j]).0@ != name@,
            None => lookup_capture(caps@, name@) is None,
        },
{
    let mut i: usize = 0;
    assert(caps@.skip(0) =~= caps@);
    while i < caps.len()
        invariant
            i <= caps.len(),
            lookup_capture(caps@, name@) == lookup_capture(caps@.skip(i as int), name@),
            forall|j: int| 0 <= j < i ==> (#[trigger] caps@[j]).0@ != name@,
        decreases caps.len() - i,
    {
        assert(caps@.skip(i as int).drop_first() =~= caps@.skip(i + 1));
        if str_eq(caps[i].0.as_str(), name) {
            return Some(i);
        }
        i = i + 1;
    }
    assert(caps@.skip(i as int).len() == 0);
    None
}

/// A match: the matched text, its range, the captured holes and an optional
/// replacement.
#[derive(Debug)]
pub struct Match {
    /// The matched text.
    pub(crate) matched_string: String,
    /// Where the match lies in the source code.
    pub(crate) range: Range,
    /// The captured holes, by name: no two share a name.
    pub(crate) matches: Vec<(String, CapturedNode)>,
    /// The replacement text for this match, if one was given.
    pub(crate) replacement: Option<String>,
}

impl Match {
    /// No two captures of a match have the same name.
    #[verifier::type_invariant]
    pub(crate) open spec fn names_unique(self) -> bool {
        names_distinct(self.matches@)
    }

    /// The matched text.
    pub closed spec fn spec_text(self) -> Seq<char> {
        self.matched_string@
    }

    /// Where the match lies.
    pub closed spec fn spec_range(self) -> Range {
        self.range
    }

    /// The captured holes, by name.
    pub closed spec fn caps(self) -> Seq<(String, CapturedNode)> {
        self.matches@
    }

    /// The replacement text, if one was given.
    pub closed spec fn spec_replacement(self) -> Option<Seq<char>> {
        match self.replacement {
            Some(r) => Some(r@),
            None => None,
        }
    }

    pub fn new(matched_string: String, range: Range, matches: Vec<(String, CapturedNode)>) -> (m: Match)
        requires
            names_distinct(matches@),
        ensures
            m.spec_text() == matched_string@,
            m.spec_range() == range,
            m.caps() == matches@,
            m.spec_replacement() is None,
    {
        Match { matched_string, range, matches, replacement: None }
    }

    /// The match with `replacement` as its replacement text.
    pub fn with_replacement(self, replacement: String) -> (m: Match)
        ensures
            m.spec_text() == self.spec_text(),
            m.spec_range() == self.spec_range(),
            m.caps() == self.caps(),
            m.spec_replacement() == Some(replacement@),
    {
        proof {
            use_type_invariant(&self);
        }
        let mut s = self;
        s.replacement = Some(replacement);
        s
    }

    /// The captured node named `name`.
    pub fn get_match(&self, name: &str) -> (res: Option<&CapturedNode>)
        ensures
            match res {
                Some(c) => lookup_capture(self.caps(), name@) == Some(*c),
                None => lookup_capture(self.caps(), name@) is None,
            },
    {
        match find_capture(&self.matches, name) {
            Some(i) => Some(&self.matches[i].1),
            None => None,
        }
    }

    /// The text of the captured node named `name`.
    pub fn get_match_text(&self, name: &str) -> (res: Option<&str>)
        ensures
            match res {
                Some(t) => lookup_capture(self.caps(), name@) matches Some(c) && t@ == c.text@,
                None => lookup_capture(self.caps(), name@) is None,
            },
    {
        match find_capture(&self.matches, name) {
            Some(i) => Some(self.matches[i].1.text.as_str()),
            None => None,
        }
    }

    /// The range of the captured node named `name`.
    pub fn get_match_range(&self, name: &str) -> (res: Option<Range>)
        ensures
            match res {
                Some(r) => lookup_capture(self.caps(), name@) matches Some(c) && r == c.range,
                None => lookup_capture(self.caps(), name@) is None,
            },
    {
        match find_capture(&self.matches, name) {
            Some(i) => Some(self.matches[i].1.range),
            None => None,
        }
    }

    /// No two captures of the match have the same name.
    pub open spec fn wf(&self) -> bool {
        names_distinct(self.caps())
    }

    /// The matched text.
    pub fn matched_string(&self) -> (s: &String)
        ensures
            s@ == self.spec_text(),
    {
        &self.matched_string
    }

    /// Where the match lies.
    pub fn range(&self) -> (r: Range)
        ensures
            r == self.spec_range(),
    {
        self.range
    }

    /// The captured holes, by name.
    pub fn matches(&self) -> (m: &Vec<(String, CapturedNode)>)
        ensures
            m@ == self.caps(),
            names_distinct(m@),
    {
        proof {
            use_type_invariant(self);
        }
        &self.matches
    }

    /// The replacement text, if one was given.
    pub fn replacement(&self) -> (r: &Option<String>)
        ensures
            match r {
                Some(x) => self.spec_replacement() == Some(x@),
                None => self.spec_replacement() is None,
            },
    {
        &self.replacement
    }

    /// The names of all captured nodes, in order, each once.
    pub fn match_names(&self) -> (names: Vec<String>)
        ensures
            names@.map_values(|s: String| s@) == capture_names(self.caps()),
            forall|i: int, j: int| 0 <= i < j < names@.len() ==> (#[trigger] names@[i])@ != (#[trigger] names@[j])@,
    {
        proof {
            use_type_invariant(self);
        }
        let mut names: Vec<String> = Vec::new();
        let mut i: usize = 0;
        while i < self.matches.len()
            invariant
                i <= self.matches.len(),
                names@.len() == i,
                forall|j: int| 0 <= j < i ==> #[trigger] names@[j]@ == self.matches@[j].0@,
            decreases self.matches.len() - i,
        {
            names.push(copy_string(&self.matches[i].0));
            i = i + 1;
        }
        assert(names@.map_values(|s: String| s@) =~= capture_names(self.matches@));
        proof {
            if true {
                assert forall|i: int, j: int| 0 <= i < j < names@.len() implies (#[trigger] names@[i])@ != (
                #[trigger] names@[j])@ by {
                    assert(self.matches@[i].0@ != self.matches@[j].0@);
                }
            }
        }
        names
    }
}

} // verus!
