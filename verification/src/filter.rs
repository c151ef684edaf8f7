//! Capture-group patterns and the filters that restrict where a rule may
//! rewrite: the enclosing nodes a match must (not) have, what they must
//! (not) contain and how many children or siblings the match has.

use vstd::prelude::*;
use crate::constraint_checker::{regex_compiles, regex_match_result};
use crate::rules::{entries_view, substitute_pairs, substitute_text};
use crate::str_map::StrMap;
use crate::text::{copy_string, str_to_chars, chars_to_string, is_ws, strings_view};

verus! {

/// The kinds of patterns.
#[derive(Debug, Clone, Copy, PartialEq, Eq, Structural)]
pub enum PatternType {
    /// A tree-sitter query.
    Tsq,
    /// A regular expression (`rgx ` before it).
    Regex,
    /// A concrete-syntax pattern (`cs ` before it).
    Cs,
    /// None of these.
    Unknown,
}

/// `s` starts with `prefix`.
pub open spec fn starts_with(s: Seq<char>, prefix: Seq<char>) -> bool {
    prefix.len() <= s.len() && s.take(prefix.len() as int) == prefix
}

/// The first character of `s` that is not whitespace, if any.
pub open spec fn first_non_ws(s: Seq<char>) -> Option<char>
    decreases s.len(),
{
    if s.len() == 0 {
        None
    } else if is_ws(s[0]) {
        first_non_ws(s.drop_first())
    } else {
        Some(s[0])
    }
}

/// The kind of a pattern: `rgx ` or `cs ` before it, or a tree-sitter
/// query, which starts (after whitespace) with `(`.
pub open spec fn spec_pattern_type(p: Seq<char>) -> PatternType {
    if starts_with(p, seq!['r', 'g', 'x', ' ']) {
        PatternType::Regex
    } else if starts_with(p, seq!['c', 's', ' ']) {
        PatternType::Cs
    } else if first_non_ws(p) == Some('(') {
        PatternType::Tsq
    } else {
        PatternType::Unknown
    }
}

/// Whether a pattern is valid: a regular expression must compile; the
/// other kinds are taken as they are.
pub open spec fn pattern_valid(p: Seq<char>) -> bool {
    spec_pattern_type(p) == PatternType::Regex ==> regex_match_result(p.skip(4), seq![]) is Some
}

fn chars_start_with(s: &Vec<char>, prefix: &Vec<char>) -> (b: bool)
    ensures
        b == starts_with(s@, prefix@),
{
    if prefix.len() > s.len() {
        return false;
    }
    let mut i: usize = 0;
    while i < prefix.len()
        invariant
            prefix@.len() <= s@.len(),
            i <= prefix@.len(),
            forall|j: int| 0 <= j < i ==> s@[j] == prefix@[j],
        decreases prefix@.len() - i,
    {
        if s[i] != prefix[i] {
            assert(s@.take(prefix@.len() as int)[i as int] != prefix@[i as int]);
            return false;
        }
        i = i + 1;
    }
    assert(s@.take(prefix@.len() as int) =~= prefix@);
    true
}

/// A pattern whose captures a rule, a filter or a scope uses: a tree-sitter
/// query, a regular expression or a concrete-syntax pattern.
#[derive(Debug, Clone)]
pub struct CGPattern(pub String);

impl CGPattern {
    pub fn new(query: String) -> (p: CGPattern)
        ensures
            p.0 == query,
    {
        CGPattern(query)
    }

    /// The text of the pattern.
    pub fn pattern(&self) -> (s: String)
        ensures
            s@ == self.0@,
    {
        copy_string(&self.0)
    }

    /// The kind of the pattern.
    pub fn pattern_type(&self) -> (t: PatternType)
        ensures
            t == spec_pattern_type(self.0@),
    {
        let s = str_to_chars(self.0.as_str());
        if chars_start_with(&s, &vec!['r', 'g', 'x', ' ']) {
            return PatternType::Regex;
        }
        if chars_start_with(&s, &vec!['c', 's', ' ']) {
            return PatternType::Cs;
        }
        let mut i: usize = 0;
        assert(s@.skip(0) =~= s@);
        while i < s.len() && is_ws_char(s[i])
            invariant
                i <= s@.len(),
                first_non_ws(self.0@) == first_non_ws(s@.skip(i as int)),
                s@ == self.0@,
            decreases s@.len() - i,
        {
            assert(s@.skip(i as int).drop_first() =~= s@.skip(i + 1));
            i = i + 1;
        }
        if i < s.len() && s[i] == '(' {
            PatternType::Tsq
        } else {
            PatternType::Unknown
        }
    }

    /// Checks the pattern: a regular expression must compile.
    pub fn validate(&self) -> (res: Result<(), String>)
        ensures
            res is Ok <==> pattern_valid(self.0@),
            res matches Err(m) ==> m@ == "Cannot convert the pattern to a valid regex"@,
    {
        if self.pattern_type() == PatternType::Regex {
            let s = str_to_chars(self.0.as_str());
            let mut rest: Vec<char> = Vec::new();
            let mut i: usize = 4;
            while i < s.len()
                invariant
                    4 <= i <= s@.len(),
                    rest@ == s@.subrange(4, i as int),
                decreases s@.len() - i,
            {
                rest.push(s[i]);
                i = i + 1;
                assert(rest@ =~= s@.subrange(4, i as int));
            }
            assert(rest@ =~= self.0@.skip(4));
            let r = chars_to_string(&rest);
            if regex_compiles(r.as_str()) {
                Ok(())
            } else {
                Err("Cannot convert the pattern to a valid regex".to_owned())
            }
        } else {
            Ok(())
        }
    }

    /// The pattern with each `@tag` of the table replaced by its value.
    pub fn instantiate(&self, substitutions: &StrMap<String>) -> (p: CGPattern)
        ensures
            p.0@ == substitute_pairs(self.0@, entries_view(substitutions.entries@)),
    {
        CGPattern(substitute_text(self.0.as_str(), substitutions))
    }
}

/// A copy of a list of (key, value) pairs.
pub fn copy_table_entries(v: &Vec<(String, String)>) -> (c: Vec<(String, String)>)
    ensures
        entries_view(c@) == entries_view(v@),
{
    let mut c: Vec<(String, String)> = Vec::new();
    let mut i: usize = 0;
    while i < v.len()
        invariant
            i <= v@.len(),
            entries_view(c@) == entries_view(v@).take(i as int),
        decreases v@.len() - i,
    {
        let ghost before = c@;
        let a = copy_string(&v[i].0);
        let b = copy_string(&v[i].1);
        c.push((a, b));
        assert(entries_view(c@) =~= entries_view(before).push((v@[i as int].0@, v@[i as int].1@)));
        assert(entries_view(v@).take(i + 1) =~= entries_view(v@).take(i as int).push((v@[i as int].0@, v@[i as int].1@)));
        i = i + 1;
    }
    assert(entries_view(v@).take(v@.len() as int) =~= entries_view(v@));
    c
}

fn is_ws_char(c: char) -> (b: bool)
    ensures
        b == is_ws(c),
{
    crate::text::char_is_ws(c)
}

/// The mathematical value of a filter.
pub struct FilterV {
    pub enclosing_node: Seq<char>,
    pub outermost_enclosing_node: Seq<char>,
    pub not_enclosing_node: Seq<char>,
    pub not_contains: Seq<Seq<char>>,
    pub contains: Seq<char>,
    pub at_least: u32,
    pub at_most: u32,
    pub child_count: u32,
    pub sibling_count: u32,
    pub fact_filter: Seq<(Seq<char>, Seq<char>)>,
}

/// Where a rule's match may be rewritten: an ancestor matching
/// `enclosing_node` (the innermost) or `outermost_enclosing_node` (the
/// outermost), no ancestor matching `not_enclosing_node`, and within the
/// node so found no match of any `not_contains` pattern and between
/// `at_least` and `at_most` matches of `contains`. Alternatively, the number
/// of named children or siblings of the match.
#[derive(Debug, Clone)]
pub struct Filter {
    pub enclosing_node: CGPattern,
    pub outermost_enclosing_node: CGPattern,
    pub not_enclosing_node: CGPattern,
    pub not_contains: Vec<CGPattern>,
    pub contains: CGPattern,
    pub at_least: u32,
    pub at_most: u32,
    pub child_count: u32,
    pub sibling_count: u32,
    /// When not empty: some fact of the file that is not voided must hold
    /// each of these (key, value) pairs.
    pub fact_filter: Vec<(String, String)>,
}

/// The texts of a list of patterns.
pub open spec fn patterns_view(v: Seq<CGPattern>) -> Seq<Seq<char>> {
    v.map_values(|p: CGPattern| p.0@)
}

impl View for Filter {
    type V = FilterV;

    open spec fn view(&self) -> FilterV {
        FilterV {
            enclosing_node: self.enclosing_node.0@,
            outermost_enclosing_node: self.outermost_enclosing_node.0@,
            not_enclosing_node: self.not_enclosing_node.0@,
            not_contains: patterns_view(self.not_contains@),
            contains: self.contains.0@,
            at_least: self.at_least,
            at_most: self.at_most,
            child_count: self.child_count,
            sibling_count: self.sibling_count,
            fact_filter: entries_view(self.fact_filter@),
        }
    }
}

/// The defaults: no patterns, at least one match of `contains` and at most
/// `u32::MAX`, and no count of children or siblings.
pub open spec fn default_contains_at_least() -> u32 {
    1
}

pub open spec fn default_count() -> u32 {
    u32::MAX
}

/// The first pattern of the list that is not valid, if any.
pub open spec fn first_invalid(ps: Seq<Seq<char>>) -> Option<int>
    decreases ps.len(),
{
    if ps.len() == 0 {
        None
    } else if !pattern_valid(ps[0]) {
        Some(0)
    } else {
        match first_invalid(ps.drop_first()) {
            Some(i) => Some(i + 1),
            None => None,
        }
    }
}

/// The patterns given are valid, in the order they are checked.
pub open spec fn patterns_valid(f: FilterV) -> bool {
    &&& (f.enclosing_node.len() != 0 ==> pattern_valid(f.enclosing_node))
    &&& (f.outermost_enclosing_node.len() != 0 ==> pattern_valid(f.outermost_enclosing_node))
    &&& (f.not_enclosing_node.len() != 0 ==> pattern_valid(f.not_enclosing_node))
    &&& (f.contains.len() != 0 ==> pattern_valid(f.contains))
    &&& (f.not_contains.len() != 0 ==> first_invalid(f.not_contains) is None)
}

/// Why a filter is invalid, the checks taken in order; nothing when it is
/// valid.
pub open spec fn filter_error(f: FilterV) -> Option<Seq<char>> {
    if f.contains.len() != 0 && f.not_contains.len() != 0 {
        Some(
            "Invalid Filter Argument. `contains` and `not_contains` cannot be set at the same time !!! Please use two filters instead."@,
        )
    } else if f.at_least > f.at_most {
        Some("Invalid Filter Argument. `at_least` should be less than or equal to `at_most` !!!"@)
    } else if (f.at_least != default_contains_at_least() || f.at_most != default_count()) && f.contains.len() == 0 {
        Some("Invalid Filter Argument. `at_least` or `at_most` is set, but `contains` is empty !!!"@)
    } else if !patterns_valid(f) {
        Some("Cannot convert the pattern to a valid regex"@)
    } else if (f.child_count != default_count() || f.sibling_count != default_count()) && (f.enclosing_node.len() != 0
        || f.not_enclosing_node.len() != 0 || f.outermost_enclosing_node.len() != 0 || f.contains.len() != 0
        || f.not_contains.len() != 0) {
        Some("The child/sibling count operator is not compatible with (not) enclosing node and (not) contains operator"@)
    } else {
        None
    }
}

/// Whether every pattern of the list is valid.
fn all_patterns_valid(ps: &Vec<CGPattern>) -> (b: bool)
    ensures
        b == (first_invalid(patterns_view(ps@)) is None),
{
    let ghost pv = patterns_view(ps@);
    let mut i: usize = 0;
    assert(pv.skip(0) =~= pv);
    while i < ps.len()
        invariant
            i <= ps@.len(),
            pv == patterns_view(ps@),
            (first_invalid(pv) is None) == (first_invalid(pv.skip(i as int)) is None),
        decreases ps@.len() - i,
    {
        assert(pv.skip(i as int).drop_first() =~= pv.skip(i + 1));
        assert(pv.skip(i as int)[0] == ps@[i as int].0@);
        if ps[i].validate().is_err() {
            return false;
        }
        i = i + 1;
    }
    assert(pv.skip(i as int) =~= Seq::<Seq<char>>::empty());
    true
}

impl Filter {
    /// Checks the combination of the filter's arguments and its patterns.
    pub fn validate(&self) -> (res: Result<(), String>)
        ensures
            match res {
                Ok(()) => filter_error(self@) is None,
                Err(m) => filter_error(self@) == Some(m@),
            },
    {
        let f = self;
        if !f.contains.0.as_str().is_empty() && f.not_contains.len() != 0 {
            return Err(
                "Invalid Filter Argument. `contains` and `not_contains` cannot be set at the same time !!! Please use two filters instead.".to_owned(),
            );
        }
        if f.at_least > f.at_most {
            return Err("Invalid Filter Argument. `at_least` should be less than or equal to `at_most` !!!".to_owned());
        }
        if (f.at_least != 1 || f.at_most != u32::MAX) && f.contains.0.as_str().is_empty() {
            return Err("Invalid Filter Argument. `at_least` or `at_most` is set, but `contains` is empty !!!".to_owned());
        }
        let msg = "Cannot convert the pattern to a valid regex";
        if !f.enclosing_node.0.as_str().is_empty() && f.enclosing_node.validate().is_err() {
            return Err(msg.to_owned());
        }
        if !f.outermost_enclosing_node.0.as_str().is_empty() && f.outermost_enclosing_node.validate().is_err() {
            return Err(msg.to_owned());
        }
        if !f.not_enclosing_node.0.as_str().is_empty() && f.not_enclosing_node.validate().is_err() {
            return Err(msg.to_owned());
        }
        if !f.contains.0.as_str().is_empty() && f.contains.validate().is_err() {
            return Err(msg.to_owned());
        }
        if f.not_contains.len() != 0 && !all_patterns_valid(&f.not_contains) {
            return Err(msg.to_owned());
        }
        if (f.child_count != u32::MAX || f.sibling_count != u32::MAX) && (!f.enclosing_node.0.as_str().is_empty()
            || !f.not_enclosing_node.0.as_str().is_empty() || !f.outermost_enclosing_node.0.as_str().is_empty()
            || !f.contains.0.as_str().is_empty() || f.not_contains.len() != 0) {
            return Err(
                "The child/sibling count operator is not compatible with (not) enclosing node and (not) contains operator".to_owned(),
            );
        }
        Ok(())
    }

    /// The filter with each `@tag` of the table replaced by its value in
    /// each of its patterns.
    pub fn instantiate(&self, substitutions: &StrMap<String>) -> (f: Filter)
        ensures
            f@ == (FilterV {
                enclosing_node: substitute_pairs(self@.enclosing_node, entries_view(substitutions.entries@)),
                outermost_enclosing_node: substitute_pairs(self@.outermost_enclosing_node, entries_view(substitutions.entries@)),
                not_enclosing_node: substitute_pairs(self@.not_enclosing_node, entries_view(substitutions.entries@)),
                not_contains: self@.not_contains.map_values(|p: Seq<char>| substitute_pairs(p, entries_view(substitutions.entries@))),
                contains: substitute_pairs(self@.contains, entries_view(substitutions.entries@)),
                ..self@
            }),
    {
        let mut nc: Vec<CGPattern> = Vec::new();
        let mut i: usize = 0;
        while i < self.not_contains.len()
            invariant
                i <= self.not_contains@.len(),
                nc@.len() == i,
                forall|j: int| 0 <= j < i ==> (#[trigger] nc@[j]).0@ == substitute_pairs(
                    self.not_contains@[j].0@,
                    entries_view(substitutions.entries@),
                ),
            decreases self.not_contains@.len() - i,
        {
            nc.push(self.not_contains[i].instantiate(substitutions));
            i = i + 1;
        }
        let f = Filter {
            enclosing_node: self.enclosing_node.instantiate(substitutions),
            outermost_enclosing_node: self.outermost_enclosing_node.instantiate(substitutions),
            not_enclosing_node: self.not_enclosing_node.instantiate(substitutions),
            not_contains: nc,
            contains: self.contains.instantiate(substitutions),
            at_least: self.at_least,
            at_most: self.at_most,
            child_count: self.child_count,
            sibling_count: self.sibling_count,
            fact_filter: copy_table_entries(&self.fact_filter),
        };
        assert(patterns_view(f.not_contains@) =~= self@.not_contains.map_values(
            |p: Seq<char>| substitute_pairs(p, entries_view(substitutions.entries@)),
        ));
        f
    }
}

/// A filter under construction: each argument that is not given takes its
/// default.
#[derive(Debug, Clone)]
pub struct FilterBuilder {
    pub enclosing_node: Option<CGPattern>,
    pub outermost_enclosing_node: Option<CGPattern>,
    pub not_enclosing_node: Option<CGPattern>,
    pub not_contains: Option<Vec<CGPattern>>,
    pub contains: Option<CGPattern>,
    pub at_least: Option<u32>,
    pub at_most: Option<u32>,
    pub child_count: Option<u32>,
    pub sibling_count: Option<u32>,
    pub fact_filter: Option<Vec<(String, String)>>,
}

/// The text of a pattern that may not be given (empty if not).
pub open spec fn opt_pattern(p: Option<CGPattern>) -> Seq<char> {
    match p {
        Some(x) => x.0@,
        None => seq![],
    }
}

/// The value an optional count takes.
pub open spec fn opt_count(c: Option<u32>, default: u32) -> u32 {
    match c {
        Some(x) => x,
        None => default,
    }
}

impl FilterBuilder {
    /// The filter the builder describes, each missing argument taking its
    /// default.
    pub open spec fn spec_created(&self) -> FilterV {
        FilterV {
            enclosing_node: opt_pattern(self.enclosing_node),
            outermost_enclosing_node: opt_pattern(self.outermost_enclosing_node),
            not_enclosing_node: opt_pattern(self.not_enclosing_node),
            not_contains: match self.not_contains {
                Some(v) => patterns_view(v@),
                None => seq![],
            },
            contains: opt_pattern(self.contains),
            at_least: opt_count(self.at_least, default_contains_at_least()),
            at_most: opt_count(self.at_most, default_count()),
            child_count: opt_count(self.child_count, default_count()),
            sibling_count: opt_count(self.sibling_count, default_count()),
            fact_filter: match self.fact_filter {
                Some(v) => entries_view(v@),
                None => seq![],
            },
        }
    }

    /// A builder with no argument given.
    pub fn new() -> (b: FilterBuilder)
        ensures
            b.spec_created() == (FilterV {
                enclosing_node: seq![],
                outermost_enclosing_node: seq![],
                not_enclosing_node: seq![],
                not_contains: seq![],
                contains: seq![],
                at_least: 1,
                at_most: u32::MAX,
                child_count: u32::MAX,
                sibling_count: u32::MAX,
                fact_filter: seq![],
            }),
            b.enclosing_node is None && b.outermost_enclosing_node is None && b.not_enclosing_node is None,
            b.not_contains is None && b.contains is None,
            b.at_least is None && b.at_most is None && b.child_count is None && b.sibling_count is None,
            b.fact_filter is None,
    {
        FilterBuilder {
            enclosing_node: None,
            outermost_enclosing_node: None,
            not_enclosing_node: None,
            not_contains: None,
            contains: None,
            at_least: None,
            at_most: None,
            child_count: None,
            sibling_count: None,
            fact_filter: None,
        }
    }

    pub fn enclosing_node(self, p: CGPattern) -> (b: FilterBuilder)
        ensures
            b == (FilterBuilder { enclosing_node: Some(p), ..self }),
    {
        FilterBuilder { enclosing_node: Some(p), ..self }
    }

    pub fn outermost_enclosing_node(self, p: CGPattern) -> (b: FilterBuilder)
        ensures
            b == (FilterBuilder { outermost_enclosing_node: Some(p), ..self }),
    {
        FilterBuilder { outermost_enclosing_node: Some(p), ..self }
    }

    pub fn not_enclosing_node(self, p: CGPattern) -> (b: FilterBuilder)
        ensures
            b == (FilterBuilder { not_enclosing_node: Some(p), ..self }),
    {
        FilterBuilder { not_enclosing_node: Some(p), ..self }
    }

    pub fn not_contains(self, ps: Vec<CGPattern>) -> (b: FilterBuilder)
        ensures
            b == (FilterBuilder { not_contains: Some(ps), ..self }),
    {
        FilterBuilder { not_contains: Some(ps), ..self }
    }

    pub fn contains(self, p: CGPattern) -> (b: FilterBuilder)
        ensures
            b == (FilterBuilder { contains: Some(p), ..self }),
    {
        FilterBuilder { contains: Some(p), ..self }
    }

    pub fn at_least(self, n: u32) -> (b: FilterBuilder)
        ensures
            b == (FilterBuilder { at_least: Some(n), ..self }),
    {
        FilterBuilder { at_least: Some(n), ..self }
    }

    pub fn at_most(self, n: u32) -> (b: FilterBuilder)
        ensures
            b == (FilterBuilder { at_most: Some(n), ..self }),
    {
        FilterBuilder { at_most: Some(n), ..self }
    }

    pub fn child_count(self, n: u32) -> (b: FilterBuilder)
        ensures
            b == (FilterBuilder { child_count: Some(n), ..self }),
    {
        FilterBuilder { child_count: Some(n), ..self }
    }

    pub fn sibling_count(self, n: u32) -> (b: FilterBuilder)
        ensures
            b == (FilterBuilder { sibling_count: Some(n), ..self }),
    {
        FilterBuilder { sibling_count: Some(n), ..self }
    }

    pub fn fact_filter(self, pairs: Vec<(String, String)>) -> (b: FilterBuilder)
        ensures
            b == (FilterBuilder { fact_filter: Some(pairs), ..self }),
    {
        FilterBuilder { fact_filter: Some(pairs), ..self }
    }

    fn copy_pattern(p: &Option<CGPattern>) -> (c: CGPattern)
        ensures
            c.0@ == opt_pattern(*p),
    {
        match p {
            Some(x) => CGPattern(copy_string(&x.0)),
            None => CGPattern(String::new()),
        }
    }

    /// The filter with each missing argument at its default.
    fn create(&self) -> (f: Filter)
        ensures
            f@ == self.spec_created(),
    {
        let mut nc: Vec<CGPattern> = Vec::new();
        match &self.not_contains {
            Some(v) => {
                let mut i: usize = 0;
                while i < v.len()
                    invariant
                        i <= v@.len(),
                        nc@.len() == i,
                        forall|j: int| 0 <= j < i ==> (#[trigger] nc@[j]).0@ == v@[j].0@,
                    decreases v@.len() - i,
                {
                    nc.push(CGPattern(copy_string(&v[i].0)));
                    i = i + 1;
                }
                assert(patterns_view(nc@) =~= patterns_view(v@));
            },
            None => {
                assert(patterns_view(nc@) =~= Seq::<Seq<char>>::empty());
            },
        }
        Filter {
            enclosing_node: Self::copy_pattern(&self.enclosing_node),
            outermost_enclosing_node: Self::copy_pattern(&self.outermost_enclosing_node),
            not_enclosing_node: Self::copy_pattern(&self.not_enclosing_node),
            not_contains: nc,
            contains: Self::copy_pattern(&self.contains),
            at_least: match self.at_least {
                Some(n) => n,
                None => 1,
            },
            at_most: match self.at_most {
                Some(n) => n,
                None => u32::MAX,
            },
            child_count: match self.child_count {
                Some(n) => n,
                None => u32::MAX,
            },
            sibling_count: match self.sibling_count {
                Some(n) => n,
                None => u32::MAX,
            },
            fact_filter: match &self.fact_filter {
                Some(v) => copy_table_entries(v),
                None => {
                    let e: Vec<(String, String)> = Vec::new();
                    assert(entries_view(e@) =~= Seq::<(Seq<char>, Seq<char>)>::empty());
                    e
                },
            },
        }
    }

    /// The filter, if its arguments are valid; else why not.
    fn _validate(&self) -> (res: Result<Filter, String>)
        ensures
            match res {
                Ok(f) => f@ == self.spec_created() && filter_error(f@) is None,
                Err(m) => filter_error(self.spec_created()) == Some(m@),
            },
    {
        let f = self.create();
        match f.validate() {
            Ok(()) => Ok(f),
            Err(e) => Err(e),
        }
    }

    /// Builds the filter when its arguments are valid; else gives the
    /// reason, as the builder's validation states it.
    pub fn try_build(&self) -> (res: Result<Filter, String>)
        ensures
            match res {
                Ok(f) => f@ == self.spec_created() && filter_error(f@) is None,
                Err(m) => filter_error(self.spec_created()) == Some(m@),
            },
    {
        self._validate()
    }

    /// Builds the filter, whose arguments must be valid.
    pub fn build(&self) -> (f: Filter)
        requires
            filter_error(self.spec_created()) is None,
        ensures
            f@ == self.spec_created(),
    {
        match self._validate() {
            Ok(f) => f,
            Err(_) => self.create(),
        }
    }
}

} // verus!
