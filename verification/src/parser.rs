//! The concrete-syntax pattern language and its parser.
//!
//! A pattern is a sequence of literal code and holes, optionally followed by
//! `|>` and a comma-separated list of constraints:
//!
//! ```text
//! pattern     := element+ ( "|>" constraint ( "," constraint )* )?
//! element     := capture | literal
//! capture     := ":[" ident mode? "]"        ident := [A-Za-z0-9_]+, mode := "+" | "*" | "?"
//! literal     := text up to the next ":[" or "|>"; a backslash escapes the next character
//! constraint  := target ".node_type" "in" "[" items "]"
//!              | capture "not"? "in" "[" items? "]"
//!              | capture "not"? "matches" "/" regex "/"
//!              | target "not"? "contains" "/" element+ "/"
//! target      := capture | "root"
//! items       := "\"" ... "\"" ( "," "\"" ... "\"" )*
//! ```
//!
//! Whitespace may stand between the tokens of a constraint. Literal text is
//! unescaped and split on whitespace into one literal element per word.

use vstd::prelude::*;
use crate::text::{is_ws, char_is_ws, chars_to_string, str_to_chars};
pub use crate::text::strings_view;

verus! {

/// How many sibling nodes a hole may take.
#[derive(Debug, Clone, Copy, PartialEq, Eq, Structural)]
pub enum CaptureMode {
    /// `:[var]`: exactly one node.
    Single,
    /// `:[var+]`: one or more consecutive sibling nodes.
    OnePlus,
    /// `:[var*]`: zero or more consecutive sibling nodes.
    ZeroPlus,
    /// `:[var?]`: zero or one node.
    Optional,
}

/// An element of a pattern: a hole or one word of literal code.
#[derive(Debug)]
pub enum CsElement {
    Capture { name: String, mode: CaptureMode },
    Literal(String),
}

/// The mathematical value of a pattern element.
pub enum ElemV {
    Capture { name: Seq<char>, mode: CaptureMode },
    Literal(Seq<char>),
}

impl View for CsElement {
    type V = ElemV;

    open spec fn view(&self) -> ElemV {
        match self {
            CsElement::Capture { name, mode } => ElemV::Capture { name: name@, mode: *mode },
            CsElement::Literal(s) => ElemV::Literal(s@),
        }
    }
}

/// The views of a list of pattern elements.
pub open spec fn elems_view(v: Seq<CsElement>) -> Seq<ElemV> {
    v.map_values(|e: CsElement| e@)
}

/// A constraint on a hole (or on the node where the match starts, `root`).
#[derive(Debug)]
pub enum CsConstraint {
    /// The captured text is one of `items`.
    In { capture: String, items: Vec<String> },
    /// The captured text matches the regular expression `pattern`.
    Regex { capture: String, pattern: String },
    /// The node's kind is one of `types`.
    Type { target: String, types: Vec<String> },
    /// The syntax tree holds a match of the sub-pattern; `resolved_pattern` is
    /// filled in by resolution.
    Contains {
        target: String,
        pattern: Vec<CsElement>,
        resolved_pattern: Option<Box<crate::resolver::ResolvedConcreteSyntax>>,
    },
    /// The negation of a constraint.
    Not(Box<CsConstraint>),
}

/// The mathematical value of a constraint (without its resolved sub-pattern).
pub enum ConstraintV {
    In { capture: Seq<char>, items: Seq<Seq<char>> },
    Regex { capture: Seq<char>, pattern: Seq<char> },
    Type { target: Seq<char>, types: Seq<Seq<char>> },
    Contains { target: Seq<char>, pattern: Seq<ElemV> },
    Not(Box<ConstraintV>),
}

pub open spec fn constraint_view(c: CsConstraint) -> ConstraintV
    decreases c,
{
    match c {
        CsConstraint::In { capture, items } => ConstraintV::In {
            capture: capture@,
            items: strings_view(items@),
        },
        CsConstraint::Regex { capture, pattern } => ConstraintV::Regex {
            capture: capture@,
            pattern: pattern@,
        },
        CsConstraint::Type { target, types } => ConstraintV::Type {
            target: target@,
            types: strings_view(types@),
        },
        CsConstraint::Contains { target, pattern, resolved_pattern } => ConstraintV::Contains {
            target: target@,
            pattern: elems_view(pattern@),
        },
        CsConstraint::Not(inner) => ConstraintV::Not(Box::new(constraint_view(*inner))),
    }
}

pub open spec fn constraints_view(v: Seq<CsConstraint>) -> Seq<ConstraintV> {
    v.map_values(|c: CsConstraint| constraint_view(c))
}

/// The sequence of elements and the constraints of a pattern.
#[derive(Debug)]
pub struct CsPattern {
    pub sequence: Vec<CsElement>,
    pub constraints: Vec<CsConstraint>,
}

/// The mathematical value of a pattern.
pub struct PatternV {
    pub sequence: Seq<ElemV>,
    pub constraints: Seq<ConstraintV>,
}

/// A parsed concrete-syntax pattern.
#[derive(Debug)]
pub struct ConcreteSyntax {
    pub pattern: CsPattern,
}

impl View for ConcreteSyntax {
    type V = PatternV;

    open spec fn view(&self) -> PatternV {
        PatternV {
            sequence: elems_view(self.pattern.sequence@),
            constraints: constraints_view(self.pattern.constraints@),
        }
    }
}

/// The parser of the pattern language.
pub struct ConcreteSyntaxParser;

// ---------------------------------------------------------------------
// Unescaping and splitting of literal text
// ---------------------------------------------------------------------

/// What an escape sequence `\c` stands for.
pub open spec fn escaped(c: char) -> Seq<char> {
    if c == '"' {
        seq!['"']
    } else if c == '\\' {
        seq!['\\']
    } else if c == 'n' {
        seq!['\n']
    } else if c == 't' {
        seq!['\t']
    } else if c == '/' {
        seq!['/']
    } else if c == '@' {
        seq!['@']
    } else if c == ':' {
        seq![':']
    } else {
        seq!['\\', c]
    }
}

/// Decodes `\" \\ \n \t \/ \@ \:`; any other escaped character keeps its
/// backslash, and a trailing lone backslash is dropped.
pub open spec fn spec_unescape(s: Seq<char>) -> Seq<char>
    decreases s.len(),
{
    if s.len() == 0 {
        seq![]
    } else if s[0] == '\\' {
        if s.len() == 1 {
            seq![]
        } else {
            escaped(s[1]) + spec_unescape(s.subrange(2, s.len() as int))
        }
    } else {
        seq![s[0]] + spec_unescape(s.drop_first())
    }
}

fn push_escaped(out: &mut Vec<char>, c: char)
    ensures
        final(out)@ == old(out)@ + escaped(c),
{
    if c == '"' {
        out.push('"');
    } else if c == '\\' {
        out.push('\\');
    } else if c == 'n' {
        out.push('\n');
    } else if c == 't' {
        out.push('\t');
    } else if c == '/' {
        out.push('/');
    } else if c == '@' {
        out.push('@');
    } else if c == ':' {
        out.push(':');
    } else {
        out.push('\\');
        out.push(c);
    }
}

fn unescape_chars(s: &Vec<char>) -> (out: Vec<char>)
    ensures
        out@ == spec_unescape(s@),
{
    let mut out: Vec<char> = Vec::new();
    let mut i: usize = 0;
    assert(s@.skip(0) =~= s@);
    while i < s.len()
        invariant
            i <= s.len(),
            spec_unescape(s@) == out@ + spec_unescape(s@.skip(i as int)),
        decreases s.len() - i,
    {
        let ghost rest = s@.skip(i as int);
        if s[i] == '\\' {
            if i + 1 == s.len() {
                assert(rest.len() == 1);
                assert(spec_unescape(s@.skip(s.len() as int)) == Seq::<char>::empty());
                i = i + 1;
            } else {
                assert(rest.subrange(2, rest.len() as int) =~= s@.skip(i + 2));
                push_escaped(&mut out, s[i + 1]);
                assert(spec_unescape(s@) == out@ + spec_unescape(s@.skip(i + 2)));
                i = i + 2;
            }
        } else {
            assert(rest.drop_first() =~= s@.skip(i + 1));
            out.push(s[i]);
            assert(spec_unescape(s@) == out@ + spec_unescape(s@.skip(i + 1)));
            i = i + 1;
        }
    }
    assert(s@.skip(i as int) =~= Seq::<char>::empty());
    out
}

/// Decodes `\" \\ \n \t \/ \@ \:` inside a string literal.
pub fn unescape(src: &str) -> (res: String)
    ensures
        res@ == spec_unescape(src@),
{
    let s = str_to_chars(src);
    let out = unescape_chars(&s);
    chars_to_string(&out)
}

/// The words of `s` (maximal runs of non-whitespace), given the word `cur`
/// that is already under way.
pub open spec fn split_words_from(s: Seq<char>, cur: Seq<char>) -> Seq<Seq<char>>
    decreases s.len(),
{
    if s.len() == 0 {
        if cur.len() == 0 { seq![] } else { seq![cur] }
    } else if is_ws(s[0]) {
        (if cur.len() == 0 { Seq::<Seq<char>>::empty() } else { seq![cur] })
            + split_words_from(s.drop_first(), seq![])
    } else {
        split_words_from(s.drop_first(), cur.push(s[0]))
    }
}

/// The words of `s`, as `str::split_whitespace` yields them.
pub open spec fn split_words(s: Seq<char>) -> Seq<Seq<char>> {
    split_words_from(s, seq![])
}

fn split_words_exec(s: &Vec<char>) -> (words: Vec<Vec<char>>)
    ensures
        words@.map_values(|w: Vec<char>| w@) == split_words(s@),
{
    let mut words: Vec<Vec<char>> = Vec::new();
    let mut cur: Vec<char> = Vec::new();
    let mut i: usize = 0;
    assert(s@.skip(0) =~= s@);
    while i < s.len()
        invariant
            i <= s.len(),
            split_words(s@) == words@.map_values(|w: Vec<char>| w@) + split_words_from(
                s@.skip(i as int),
                cur@,
            ),
        decreases s.len() - i,
    {
        let ghost old_words = words@.map_values(|w: Vec<char>| w@);
        let ghost rest = s@.skip(i as int);
        assert(rest.drop_first() =~= s@.skip(i + 1));
        if char_is_ws(s[i]) {
            if cur.len() > 0 {
                let w = cur;
                words.push(w);
                cur = Vec::new();
                assert(words@.map_values(|w: Vec<char>| w@) =~= old_words + seq![w@]);
            } else {
                assert(words@.map_values(|w: Vec<char>| w@) =~= old_words
                    + Seq::<Seq<char>>::empty());
            }
            assert(cur@ =~= Seq::<char>::empty());
        } else {
            cur.push(s[i]);
        }
        i = i + 1;
    }
    assert(s@.skip(i as int) =~= Seq::<char>::empty());
    let ghost old_words = words@.map_values(|w: Vec<char>| w@);
    if cur.len() > 0 {
        words.push(cur);
        assert(words@.map_values(|w: Vec<char>| w@) =~= old_words + seq![cur@]);
    } else {
        assert(old_words + Seq::<Seq<char>>::empty() =~= old_words);
    }
    words
}

/// One literal element per word of `s`.
pub open spec fn literal_elems(s: Seq<char>) -> Seq<ElemV> {
    split_words(s).map_values(|w: Seq<char>| ElemV::Literal(w))
}

fn literal_elems_exec(s: &Vec<char>) -> (res: Vec<CsElement>)
    ensures
        elems_view(res@) == literal_elems(s@),
{
    let words = split_words_exec(s);
    let mut res: Vec<CsElement> = Vec::new();
    let mut i: usize = 0;
    while i < words.len()
        invariant
            i <= words.len(),
            res@.len() == i,
            forall|j: int| 0 <= j < i ==> #[trigger] res@[j]@ == ElemV::Literal(words@[j]@),
        decreases words.len() - i,
    {
        res.push(CsElement::Literal(chars_to_string(&words[i])));
        i = i + 1;
    }
    assert(elems_view(res@) =~= literal_elems(s@));
    res
}

impl ConcreteSyntax {
    /// Splits literal text on whitespace into one literal element per word.
    pub fn parse_literal_tokens(text: &str) -> (res: Vec<CsElement>)
        ensures
            elems_view(res@) == literal_elems(text@),
    {
        let s = str_to_chars(text);
        literal_elems_exec(&s)
    }
}


// ---------------------------------------------------------------------
// The grammar, as spec functions over the characters of the input
// ---------------------------------------------------------------------

/// The first position at or after `i` that is not whitespace.
pub open spec fn skip_ws(s: Seq<char>, i: int) -> int
    decreases s.len() - i,
{
    if 0 <= i < s.len() && is_ws(s[i]) {
        skip_ws(s, i + 1)
    } else {
        i
    }
}

pub open spec fn is_ident_char(c: char) -> bool {
    ('a' <= c && c <= 'z') || ('A' <= c && c <= 'Z') || ('0' <= c && c <= '9') || c == '_'
}

/// The end of the identifier that starts at `i`.
pub open spec fn ident_end(s: Seq<char>, i: int) -> int
    decreases s.len() - i,
{
    if 0 <= i < s.len() && is_ident_char(s[i]) {
        ident_end(s, i + 1)
    } else {
        i
    }
}

pub open spec fn starts_capture(s: Seq<char>, i: int) -> bool {
    0 <= i && i + 1 < s.len() && s[i] == ':' && s[i + 1] == '['
}

pub open spec fn starts_pipe(s: Seq<char>, i: int) -> bool {
    0 <= i && i + 1 < s.len() && s[i] == '|' && s[i + 1] == '>'
}

pub open spec fn mode_of(c: char) -> Option<CaptureMode> {
    if c == '+' {
        Some(CaptureMode::OnePlus)
    } else if c == '*' {
        Some(CaptureMode::ZeroPlus)
    } else if c == '?' {
        Some(CaptureMode::Optional)
    } else {
        None
    }
}

/// A hole `:[name]`, `:[name+]`, `:[name*]` or `:[name?]` at `i`: its name,
/// its mode and the position after it.
pub open spec fn sp_capture(s: Seq<char>, i: int) -> Option<(Seq<char>, CaptureMode, int)> {
    if starts_capture(s, i) {
        let e = ident_end(s, i + 2);
        if e == i + 2 {
            None
        } else if e < s.len() && s[e] == ']' {
            Some((s.subrange(i + 2, e), CaptureMode::Single, e + 1))
        } else if e + 1 < s.len() && mode_of(s[e]) is Some && s[e + 1] == ']' {
            Some((s.subrange(i + 2, e), mode_of(s[e]).unwrap(), e + 2))
        } else {
            None
        }
    } else {
        None
    }
}

/// Where a run of elements stops: at the end, at `|>` at top level, or at
/// `/` inside a delimited sub-pattern.
pub open spec fn stop_at(s: Seq<char>, i: int, delimited: bool) -> bool {
    i >= s.len() || (delimited && s[i] == '/') || (!delimited && starts_pipe(s, i))
}

/// The elements from `i` to the next stop, given the raw literal text `raw`
/// read just before `i`; with the position of the stop.
pub open spec fn sp_elements(s: Seq<char>, i: int, delimited: bool, raw: Seq<char>) -> Option<
    (Seq<ElemV>, int),
>
    decreases s.len() - i,
{
    if i < 0 {
        None
    } else if stop_at(s, i, delimited) {
        Some((literal_elems(spec_unescape(raw)), i))
    } else if starts_capture(s, i) {
        match sp_capture(s, i) {
            None => None,
            Some((n, m, j)) => if j > i {
                match sp_elements(s, j, delimited, seq![]) {
                    None => None,
                    Some((rest, k)) => Some(
                        (literal_elems(spec_unescape(raw)) + seq![ElemV::Capture { name: n, mode: m }]
                            + rest, k),
                    ),
                }
            } else {
                None
            },
        }
    } else if s[i] == '\\' && i + 1 < s.len() {
        sp_elements(s, i + 2, delimited, raw + seq![s[i], s[i + 1]])
    } else {
        sp_elements(s, i + 1, delimited, raw.push(s[i]))
    }
}

/// The text up to the closing `term`, with escapes decoded, and the position
/// after `term`.
pub open spec fn sp_body(s: Seq<char>, i: int, term: char, raw: Seq<char>) -> Option<(Seq<char>, int)>
    decreases s.len() - i,
{
    if i < 0 || i >= s.len() {
        None
    } else if s[i] == term {
        Some((spec_unescape(raw), i + 1))
    } else if s[i] == '\\' && i + 1 < s.len() {
        sp_body(s, i + 2, term, raw + seq![s[i], s[i + 1]])
    } else {
        sp_body(s, i + 1, term, raw.push(s[i]))
    }
}

/// Text delimited by `open` at `i` and by `close`.
pub open spec fn sp_delimited(s: Seq<char>, i: int, open: char, close: char) -> Option<
    (Seq<char>, int),
> {
    if 0 <= i < s.len() && s[i] == open {
        sp_body(s, i + 1, close, seq![])
    } else {
        None
    }
}

/// The rest of a list of quoted strings, after the items `acc`.
pub open spec fn sp_list_rest(s: Seq<char>, i: int, acc: Seq<Seq<char>>) -> Option<
    (Seq<Seq<char>>, int),
>
    decreases s.len() - i,
{
    let k = skip_ws(s, i);
    if 0 <= k < s.len() && s[k] == ']' {
        Some((acc, k + 1))
    } else if 0 <= k < s.len() && s[k] == ',' {
        match sp_delimited(s, skip_ws(s, k + 1), '"', '"') {
            None => None,
            Some((q, j)) => if i < j <= s.len() {
                sp_list_rest(s, j, acc.push(q))
            } else {
                None
            },
        }
    } else {
        None
    }
}

/// A list of quoted strings, from just after its `[` up to and past its `]`.
pub open spec fn sp_list(s: Seq<char>, i: int) -> Option<(Seq<Seq<char>>, int)> {
    let k = skip_ws(s, i);
    if 0 <= k < s.len() && s[k] == ']' {
        Some((seq![], k + 1))
    } else {
        match sp_delimited(s, k, '"', '"') {
            None => None,
            Some((q, j)) => sp_list_rest(s, j, seq![q]),
        }
    }
}

pub open spec fn kw_at(s: Seq<char>, i: int, kw: Seq<char>) -> bool {
    0 <= i && i + kw.len() <= s.len() && s.subrange(i, i + kw.len()) == kw
}

pub open spec fn kw_root() -> Seq<char> {
    seq!['r', 'o', 'o', 't']
}

pub open spec fn kw_node_type() -> Seq<char> {
    seq!['.', 'n', 'o', 'd', 'e', '_', 't', 'y', 'p', 'e']
}

pub open spec fn kw_in() -> Seq<char> {
    seq!['i', 'n']
}

pub open spec fn kw_not() -> Seq<char> {
    seq!['n', 'o', 't']
}

pub open spec fn kw_matches() -> Seq<char> {
    seq!['m', 'a', 't', 'c', 'h', 'e', 's']
}

pub open spec fn kw_contains() -> Seq<char> {
    seq!['c', 'o', 'n', 't', 'a', 'i', 'n', 's']
}

/// The target of a constraint: a hole or the keyword `root`.
pub open spec fn sp_target(s: Seq<char>, i: int) -> Option<(Seq<char>, bool, int)> {
    match sp_capture(s, i) {
        Some((n, _m, j)) => Some((n, false, j)),
        None => if kw_at(s, i, kw_root()) {
            Some((kw_root(), true, i + 4))
        } else {
            None
        },
    }
}

/// A `.node_type in [...]` constraint on `t`, from just after the target.
pub open spec fn sp_type_rest(s: Seq<char>, j: int, t: Seq<char>) -> Option<(ConstraintV, int)> {
    let k = skip_ws(s, j + 10);
    if kw_at(s, k, kw_in()) {
        let k2 = skip_ws(s, k + 2);
        if 0 <= k2 < s.len() && s[k2] == '[' {
            match sp_list(s, k2 + 1) {
                Some((items, e)) => Some((ConstraintV::Type { target: t, types: items }, e)),
                None => None,
            }
        } else {
            None
        }
    } else {
        None
    }
}

/// An `in`, `matches` or `contains` constraint on `t` from its keyword at `k`.
pub open spec fn sp_keyword_constraint(s: Seq<char>, k: int, t: Seq<char>, is_root: bool) -> Option<
    (ConstraintV, int),
> {
    if !is_root && kw_at(s, k, kw_in()) {
        let k2 = skip_ws(s, k + 2);
        if 0 <= k2 < s.len() && s[k2] == '[' {
            match sp_list(s, k2 + 1) {
                Some((items, e)) => Some((ConstraintV::In { capture: t, items }, e)),
                None => None,
            }
        } else {
            None
        }
    } else if !is_root && kw_at(s, k, kw_matches()) {
        match sp_delimited(s, skip_ws(s, k + 7), '/', '/') {
            Some((p, e)) => Some((ConstraintV::Regex { capture: t, pattern: p }, e)),
            None => None,
        }
    } else if kw_at(s, k, kw_contains()) {
        let k2 = skip_ws(s, k + 8);
        if 0 <= k2 < s.len() && s[k2] == '/' {
            match sp_elements(s, k2 + 1, true, seq![]) {
                Some((els, e)) => if els.len() > 0 && 0 <= e < s.len() && s[e] == '/' {
                    Some((ConstraintV::Contains { target: t, pattern: els }, e + 1))
                } else {
                    None
                },
                None => None,
            }
        } else {
            None
        }
    } else {
        None
    }
}

/// Whether the keyword `not` followed by whitespace stands at `k`.
pub open spec fn negated_at(s: Seq<char>, k: int) -> bool {
    kw_at(s, k, kw_not()) && k + 3 < s.len() && is_ws(s[k + 3])
}

/// One constraint, after optional whitespace at `i`.
pub open spec fn sp_constraint(s: Seq<char>, i: int) -> Option<(ConstraintV, int)> {
    match sp_target(s, skip_ws(s, i)) {
        None => None,
        Some((t, is_root, j)) => if kw_at(s, j, kw_node_type()) {
            sp_type_rest(s, j, t)
        } else {
            let k = skip_ws(s, j);
            let neg = negated_at(s, k);
            let k1 = if neg { skip_ws(s, k + 3) } else { k };
            match sp_keyword_constraint(s, k1, t, is_root) {
                Some((c, e)) => if neg {
                    Some((ConstraintV::Not(Box::new(c)), e))
                } else {
                    Some((c, e))
                },
                None => None,
            }
        },
    }
}

/// A comma-separated list of constraints from `i`, after the constraints `acc`.
pub open spec fn sp_constraints(s: Seq<char>, i: int, acc: Seq<ConstraintV>) -> Option<
    (Seq<ConstraintV>, int),
>
    decreases s.len() - i,
{
    match sp_constraint(s, i) {
        None => None,
        Some((c, j)) => {
            let k = skip_ws(s, j);
            if 0 <= k < s.len() && s[k] == ',' && k + 1 > i {
                sp_constraints(s, k + 1, acc.push(c))
            } else {
                Some((acc.push(c), k))
            }
        },
    }
}

/// The pattern that the characters `s` denote, if they are one.
pub open spec fn spec_parse(s: Seq<char>) -> Option<PatternV> {
    match sp_elements(s, 0, false, seq![]) {
        None => None,
        Some((els, k)) => if els.len() == 0 {
            None
        } else if k >= s.len() {
            Some(PatternV { sequence: els, constraints: seq![] })
        } else {
            match sp_constraints(s, k + 2, seq![]) {
                Some((cs, e)) => if skip_ws(s, e) == s.len() {
                    Some(PatternV { sequence: els, constraints: cs })
                } else {
                    None
                },
                None => None,
            }
        },
    }
}


// ---------------------------------------------------------------------
// The parser
// ---------------------------------------------------------------------

fn skip_ws_exec(s: &Vec<char>, i: usize) -> (r: usize)
    requires
        i <= s.len(),
    ensures
        r == skip_ws(s@, i as int),
        i <= r <= s.len(),
    decreases s.len() - i,
{
    if i < s.len() && char_is_ws(s[i]) {
        skip_ws_exec(s, i + 1)
    } else {
        i
    }
}

fn char_is_ident(c: char) -> (b: bool)
    ensures
        b == is_ident_char(c),
{
    ('a' <= c && c <= 'z') || ('A' <= c && c <= 'Z') || ('0' <= c && c <= '9') || c == '_'
}

fn ident_end_exec(s: &Vec<char>, i: usize) -> (r: usize)
    requires
        i <= s.len(),
    ensures
        r == ident_end(s@, i as int),
        i <= r <= s.len(),
    decreases s.len() - i,
{
    if i < s.len() && char_is_ident(s[i]) {
        ident_end_exec(s, i + 1)
    } else {
        i
    }
}

fn mode_of_exec(c: char) -> (m: Option<CaptureMode>)
    ensures
        m == mode_of(c),
{
    if c == '+' {
        Some(CaptureMode::OnePlus)
    } else if c == '*' {
        Some(CaptureMode::ZeroPlus)
    } else if c == '?' {
        Some(CaptureMode::Optional)
    } else {
        None
    }
}

fn subrange_chars(s: &Vec<char>, from: usize, to: usize) -> (r: Vec<char>)
    requires
        from <= to <= s.len(),
    ensures
        r@ == s@.subrange(from as int, to as int),
{
    let mut r: Vec<char> = Vec::new();
    let mut i = from;
    while i < to
        invariant
            from <= i <= to <= s.len(),
            r@ == s@.subrange(from as int, i as int),
        decreases to - i,
    {
        r.push(s[i]);
        i = i + 1;
        assert(r@ =~= s@.subrange(from as int, i as int));
    }
    r
}

impl ConcreteSyntax {
    /// Reads a hole at `i`: its name, its mode and the position after it.
    fn parse_capture_single(s: &Vec<char>, i: usize) -> (res: Option<(String, CaptureMode, usize)>)
        requires
            i <= s.len(),
        ensures
            match res {
                Some((n, m, j)) => sp_capture(s@, i as int) == Some((n@, m, j as int)) && j <= s.len(),
                None => sp_capture(s@, i as int) is None,
            },
    {
        if !(s.len() > 1 && i < s.len() - 1 && s[i] == ':' && s[i + 1] == '[') {
            return None;
        }
        let e = ident_end_exec(s, i + 2);
        if e == i + 2 {
            return None;
        }
        let name = chars_to_string(&subrange_chars(s, i + 2, e));
        if e < s.len() && s[e] == ']' {
            Some((name, CaptureMode::Single, e + 1))
        } else if s.len() > 1 && e < s.len() - 1 && s[e + 1] == ']' {
            match mode_of_exec(s[e]) {
                Some(m) => Some((name, m, e + 2)),
                None => None,
            }
        } else {
            None
        }
    }

    /// The literal elements for the raw literal text `raw`.
    fn parse_element(raw: &Vec<char>) -> (res: Vec<CsElement>)
        ensures
            elems_view(res@) == literal_elems(spec_unescape(raw@)),
    {
        let text = unescape_chars(raw);
        literal_elems_exec(&text)
    }

    /// The elements from `i` to the next stop.
    fn parse_elements(s: &Vec<char>, i: usize, delimited: bool, raw: Vec<char>) -> (res: Option<
        (Vec<CsElement>, usize),
    >)
        requires
            i <= s.len(),
        ensures
            match res {
                Some((els, k)) => sp_elements(s@, i as int, delimited, raw@) == Some(
                    (elems_view(els@), k as int),
                ) && k <= s.len() && stop_at(s@, k as int, delimited),
                None => sp_elements(s@, i as int, delimited, raw@) is None,
            },
        decreases s.len() - i,
    {
        let stop = i >= s.len() || (delimited && s[i] == '/') || (!delimited && s.len() > 1 && i
            < s.len() - 1 && s[i] == '|' && s[i + 1] == '>');
        if stop {
            return Some((Self::parse_element(&raw), i));
        }
        if s.len() > 1 && i < s.len() - 1 && s[i] == ':' && s[i + 1] == '[' {
            match Self::parse_capture_single(s, i) {
                None => None,
                Some((n, m, j)) => {
                    if j > i {
                        match Self::parse_elements(s, j, delimited, Vec::new()) {
                            None => None,
                            Some((rest, k)) => {
                                let mut els = Self::parse_element(&raw);
                                let ghost lit = elems_view(els@);
                                let ghost name = n@;
                                els.push(CsElement::Capture { name: n, mode: m });
                                let ghost mid = els@;
                                let mut rest = rest;
                                let ghost restv = elems_view(rest@);
                                els.append(&mut rest);
                                assert(elems_view(els@) =~= lit + seq![
                                    ElemV::Capture { name: name, mode: m },
                                ] + restv);
                                Some((els, k))
                            },
                        }
                    } else {
                        None
                    }
                },
            }
        } else if s[i] == '\\' && i + 1 < s.len() {
            let mut raw = raw;
            let ghost old_raw = raw@;
            raw.push(s[i]);
            raw.push(s[i + 1]);
            assert(raw@ =~= old_raw + seq![s@[i as int], s@[i + 1]]);
            Self::parse_elements(s, i + 2, delimited, raw)
        } else {
            let mut raw = raw;
            raw.push(s[i]);
            Self::parse_elements(s, i + 1, delimited, raw)
        }
    }

    /// The text up to the closing `term`, decoded, and the position after it.
    fn parse_body(s: &Vec<char>, i: usize, term: char, raw: Vec<char>) -> (res: Option<(String, usize)>)
        requires
            i <= s.len(),
        ensures
            match res {
                Some((t, j)) => sp_body(s@, i as int, term, raw@) == Some((t@, j as int))
                    && i < j <= s.len(),
                None => sp_body(s@, i as int, term, raw@) is None,
            },
        decreases s.len() - i,
    {
        if i >= s.len() {
            None
        } else if s[i] == term {
            let t = unescape_chars(&raw);
            Some((chars_to_string(&t), i + 1))
        } else if s[i] == '\\' && i + 1 < s.len() {
            let mut raw = raw;
            let ghost old_raw = raw@;
            raw.push(s[i]);
            raw.push(s[i + 1]);
            assert(raw@ =~= old_raw + seq![s@[i as int], s@[i + 1]]);
            Self::parse_body(s, i + 2, term, raw)
        } else {
            let mut raw = raw;
            raw.push(s[i]);
            Self::parse_body(s, i + 1, term, raw)
        }
    }

    fn parse_delimited(s: &Vec<char>, i: usize, open: char, close: char) -> (res: Option<(String, usize)>)
        requires
            i <= s.len(),
        ensures
            match res {
                Some((t, j)) => sp_delimited(s@, i as int, open, close) == Some((t@, j as int))
                    && i < j <= s.len(),
                None => sp_delimited(s@, i as int, open, close) is None,
            },
    {
        if i < s.len() && s[i] == open {
            Self::parse_body(s, i + 1, close, Vec::new())
        } else {
            None
        }
    }

    /// The regular expression delimited by slashes at `i`.
    fn parse_regex_pattern(s: &Vec<char>, i: usize) -> (res: Option<(String, usize)>)
        requires
            i <= s.len(),
        ensures
            match res {
                Some((t, j)) => sp_delimited(s@, i as int, '/', '/') == Some((t@, j as int))
                    && i < j <= s.len(),
                None => sp_delimited(s@, i as int, '/', '/') is None,
            },
    {
        Self::parse_delimited(s, i, '/', '/')
    }

    fn parse_list_rest(s: &Vec<char>, i: usize, acc: Vec<String>) -> (res: Option<(Vec<String>, usize)>)
        requires
            i <= s.len(),
        ensures
            match res {
                Some((items, e)) => sp_list_rest(s@, i as int, strings_view(acc@)) == Some(
                    (strings_view(items@), e as int),
                ) && e <= s.len(),
                None => sp_list_rest(s@, i as int, strings_view(acc@)) is None,
            },
        decreases s.len() - i,
    {
        let k = skip_ws_exec(s, i);
        if k < s.len() && s[k] == ']' {
            Some((acc, k + 1))
        } else if k < s.len() && s[k] == ',' {
            let k2 = skip_ws_exec(s, k + 1);
            match Self::parse_delimited(s, k2, '"', '"') {
                None => None,
                Some((q, j)) => {
                    if i < j {
                        let mut acc = acc;
                        let ghost old_acc = strings_view(acc@);
                        let ghost qv = q@;
                        acc.push(q);
                        assert(strings_view(acc@) =~= old_acc.push(qv));
                        Self::parse_list_rest(s, j, acc)
                    } else {
                        None
                    }
                },
            }
        } else {
            None
        }
    }

    /// The quoted strings of a list, from just after its `[`.
    fn parse_list_items(s: &Vec<char>, i: usize) -> (res: Option<(Vec<String>, usize)>)
        requires
            i <= s.len(),
        ensures
            match res {
                Some((items, e)) => sp_list(s@, i as int) == Some((strings_view(items@), e as int))
                    && e <= s.len(),
                None => sp_list(s@, i as int) is None,
            },
    {
        let k = skip_ws_exec(s, i);
        if k < s.len() && s[k] == ']' {
            let v: Vec<String> = Vec::new();
            assert(strings_view(v@) =~= Seq::<Seq<char>>::empty());
            Some((v, k + 1))
        } else {
            match Self::parse_delimited(s, k, '"', '"') {
                None => None,
                Some((q, j)) => {
                    let mut acc: Vec<String> = Vec::new();
                    let ghost qv = q@;
                    acc.push(q);
                    assert(strings_view(acc@) =~= seq![qv]);
                    Self::parse_list_rest(s, j, acc)
                },
            }
        }
    }

    fn kw_at_exec(s: &Vec<char>, i: usize, kw: &Vec<char>) -> (b: bool)
        requires
            i <= s.len(),
        ensures
            b == kw_at(s@, i as int, kw@),
    {
        if kw.len() > s.len() - i {
            return false;
        }
        let mut j: usize = 0;
        while j < kw.len()
            invariant
                i + kw.len() <= s.len(),
                j <= kw.len(),
                forall|t: int| 0 <= t < j ==> s@[i + t] == kw@[t],
            decreases kw.len() - j,
        {
            if s[i + j] != kw[j] {
                assert(s@.subrange(i as int, i + kw.len())[j as int] != kw@[j as int]);
                return false;
            }
            j = j + 1;
        }
        assert(s@.subrange(i as int, i + kw.len()) =~= kw@);
        true
    }

    /// The target of a constraint at `i`: a hole name, or `root`.
    fn extract_target_name(s: &Vec<char>, i: usize) -> (res: Option<(String, bool, usize)>)
        requires
            i <= s.len(),
        ensures
            match res {
                Some((t, r, j)) => sp_target(s@, i as int) == Some((t@, r, j as int)) && j <= s.len(),
                None => sp_target(s@, i as int) is None,
            },
    {
        match Self::parse_capture_single(s, i) {
            Some((n, _m, j)) => Some((n, false, j)),
            None => {
                let kw = vec!['r', 'o', 'o', 't'];
                assert(kw@ == kw_root());
                if Self::kw_at_exec(s, i, &kw) {
                    Some((chars_to_string(&kw), true, i + 4))
                } else {
                    None
                }
            },
        }
    }

    fn parse_type_constraint(s: &Vec<char>, j: usize, t: String) -> (res: Option<(CsConstraint, usize)>)
        requires
            j + 10 <= s.len(),
        ensures
            match res {
                Some((c, e)) => sp_type_rest(s@, j as int, t@) == Some((constraint_view(c), e as int))
                    && e <= s.len(),
                None => sp_type_rest(s@, j as int, t@) is None,
            },
    {
        let k = skip_ws_exec(s, j + 10);
        let kw = vec!['i', 'n'];
        assert(kw@ == kw_in());
        if !Self::kw_at_exec(s, k, &kw) {
            return None;
        }
        let k2 = skip_ws_exec(s, k + 2);
        if k2 < s.len() && s[k2] == '[' {
            match Self::parse_list_items(s, k2 + 1) {
                Some((items, e)) => Some((CsConstraint::Type { target: t, types: items }, e)),
                None => None,
            }
        } else {
            None
        }
    }

    fn parse_in_constraint(s: &Vec<char>, k: usize, t: String) -> (res: Option<(CsConstraint, usize)>)
        requires
            kw_at(s@, k as int, kw_in()),
        ensures
            match res {
                Some((c, e)) => sp_keyword_constraint(s@, k as int, t@, false) == Some(
                    (constraint_view(c), e as int),
                ) && e <= s.len(),
                None => sp_keyword_constraint(s@, k as int, t@, false) is None,
            },
    {
        assert(kw_in().len() == 2);
        assert(k + 2 <= s.len());
        let k2 = skip_ws_exec(s, k + 2);
        if k2 < s.len() && s[k2] == '[' {
            match Self::parse_list_items(s, k2 + 1) {
                Some((items, e)) => Some((CsConstraint::In { capture: t, items }, e)),
                None => None,
            }
        } else {
            None
        }
    }

    fn parse_regex_constraint(s: &Vec<char>, k: usize, t: String) -> (res: Option<(CsConstraint, usize)>)
        requires
            kw_at(s@, k as int, kw_matches()),
            !kw_at(s@, k as int, kw_in()),
        ensures
            match res {
                Some((c, e)) => sp_keyword_constraint(s@, k as int, t@, false) == Some(
                    (constraint_view(c), e as int),
                ) && e <= s.len(),
                None => sp_keyword_constraint(s@, k as int, t@, false) is None,
            },
    {
        assert(kw_matches().len() == 7);
        assert(k + 7 <= s.len());
        let k2 = skip_ws_exec(s, k + 7);
        match Self::parse_regex_pattern(s, k2) {
            Some((p, e)) => Some((CsConstraint::Regex { capture: t, pattern: p }, e)),
            None => None,
        }
    }

    /// The sub-pattern between slashes of a `contains` constraint, at `k2`.
    fn parse_delimited_pattern(s: &Vec<char>, k2: usize) -> (res: Option<(Vec<CsElement>, usize)>)
        requires
            k2 <= s.len(),
        ensures
            match res {
                Some((els, e)) => 0 <= k2 < s.len() && s@[k2 as int] == '/' && (match sp_elements(
                    s@,
                    k2 + 1,
                    true,
                    seq![],
                ) {
                    Some((ev, e1)) => ev.len() > 0 && 0 <= e1 < s.len() && s@[e1] == '/' && ev
                        == elems_view(els@) && e == e1 + 1,
                    None => false,
                }) && e <= s.len(),
                None => !(0 <= k2 < s.len() && s@[k2 as int] == '/' && (match sp_elements(
                    s@,
                    k2 + 1,
                    true,
                    seq![],
                ) {
                    Some((ev, e1)) => ev.len() > 0 && 0 <= e1 < s.len() && s@[e1] == '/',
                    None => false,
                })),
            },
    {
        if k2 < s.len() && s[k2] == '/' {
            match Self::parse_elements(s, k2 + 1, true, Vec::new()) {
                Some((els, e)) => {
                    if els.len() > 0 && e < s.len() && s[e] == '/' {
                        Some((els, e + 1))
                    } else {
                        None
                    }
                },
                None => None,
            }
        } else {
            None
        }
    }

    fn parse_contains_constraint(s: &Vec<char>, k: usize, t: String) -> (res: Option<(CsConstraint, usize)>)
        requires
            k <= s.len(),
        ensures
            match res {
                Some((c, e)) => (match sp_keyword_constraint(s@, k as int, t@, true) {
                    Some((cv, e2)) => constraint_view(c) == cv && e2 == e,
                    None => false,
                }) && e <= s.len(),
                None => !(sp_keyword_constraint(s@, k as int, t@, true) is Some),
            },
    {
        let kw = vec!['c', 'o', 'n', 't', 'a', 'i', 'n', 's'];
        assert(kw@ == kw_contains());
        if !Self::kw_at_exec(s, k, &kw) {
            return None;
        }
        let k2 = skip_ws_exec(s, k + 8);
        match Self::parse_delimited_pattern(s, k2) {
            Some((els, e)) => Some((CsConstraint::Contains { target: t, pattern: els, resolved_pattern: None }, e)),
            None => None,
        }
    }

    fn parse_keyword_constraint(s: &Vec<char>, k: usize, t: String, is_root: bool) -> (res: Option<
        (CsConstraint, usize),
    >)
        requires
            k <= s.len(),
        ensures
            match res {
                Some((c, e)) => sp_keyword_constraint(s@, k as int, t@, is_root) == Some(
                    (constraint_view(c), e as int),
                ) && e <= s.len(),
                None => sp_keyword_constraint(s@, k as int, t@, is_root) is None,
            },
    {
        let kw_i = vec!['i', 'n'];
        assert(kw_i@ == kw_in());
        let kw_m = vec!['m', 'a', 't', 'c', 'h', 'e', 's'];
        assert(kw_m@ == kw_matches());
        let kw_c = vec!['c', 'o', 'n', 't', 'a', 'i', 'n', 's'];
        assert(kw_c@ == kw_contains());
        if !is_root && Self::kw_at_exec(s, k, &kw_i) {
            Self::parse_in_constraint(s, k, t)
        } else if !is_root && Self::kw_at_exec(s, k, &kw_m) {
            Self::parse_regex_constraint(s, k, t)
        } else if Self::kw_at_exec(s, k, &kw_c) {
            Self::parse_contains_constraint(s, k, t)
        } else {
            None
        }
    }

    /// One constraint, after optional whitespace at `i`.
    fn parse_constraint(s: &Vec<char>, i: usize) -> (res: Option<(CsConstraint, usize)>)
        requires
            i <= s.len(),
        ensures
            match res {
                Some((c, e)) => sp_constraint(s@, i as int) == Some((constraint_view(c), e as int))
                    && e <= s.len(),
                None => sp_constraint(s@, i as int) is None,
            },
    {
        let i0 = skip_ws_exec(s, i);
        match Self::extract_target_name(s, i0) {
            None => None,
            Some((t, is_root, j)) => {
                let kw_nt = vec!['.', 'n', 'o', 'd', 'e', '_', 't', 'y', 'p', 'e'];
                assert(kw_nt@ == kw_node_type());
                if Self::kw_at_exec(s, j, &kw_nt) {
                    Self::parse_type_constraint(s, j, t)
                } else {
                    let k = skip_ws_exec(s, j);
                    let kw_n = vec!['n', 'o', 't'];
                    assert(kw_n@ == kw_not());
                    let neg = Self::kw_at_exec(s, k, &kw_n) && k + 3 < s.len() && char_is_ws(s[k + 3]);
                    let k1 = if neg {
                        skip_ws_exec(s, k + 3)
                    } else {
                        k
                    };
                    match Self::parse_keyword_constraint(s, k1, t, is_root) {
                        Some((c, e)) => {
                            if neg {
                                let ghost cv = constraint_view(c);
                                let r = CsConstraint::Not(Box::new(c));
                                assert(constraint_view(r) == ConstraintV::Not(Box::new(cv)));
                                Some((r, e))
                            } else {
                                Some((c, e))
                            }
                        },
                        None => None,
                    }
                }
            },
        }
    }

    /// The comma-separated constraints from `i`, after the constraints `acc`.
    fn parse_constraints(s: &Vec<char>, i: usize, acc: Vec<CsConstraint>) -> (res: Option<
        (Vec<CsConstraint>, usize),
    >)
        requires
            i <= s.len(),
        ensures
            match res {
                Some((cs, e)) => sp_constraints(s@, i as int, constraints_view(acc@)) == Some(
                    (constraints_view(cs@), e as int),
                ) && e <= s.len(),
                None => sp_constraints(s@, i as int, constraints_view(acc@)) is None,
            },
        decreases s.len() - i,
    {
        match Self::parse_constraint(s, i) {
            None => None,
            Some((c, j)) => {
                let k = skip_ws_exec(s, j);
                let mut acc = acc;
                let ghost old_acc = constraints_view(acc@);
                let ghost cv = constraint_view(c);
                acc.push(c);
                assert(constraints_view(acc@) =~= old_acc.push(cv));
                if k < s.len() && s[k] == ',' && k + 1 > i {
                    Self::parse_constraints(s, k + 1, acc)
                } else {
                    Some((acc, k))
                }
            },
        }
    }

    /// Parses a concrete-syntax pattern. Fails exactly on the inputs that are
    /// not patterns of the language described at the top of this module.
    pub fn parse(input: &str) -> (res: Result<ConcreteSyntax, String>)
        ensures
            match res {
                Ok(cs) => spec_parse(input@) == Some(cs@)
                    && cs.pattern.constraints@.len() == constraints_view(cs.pattern.constraints@).len(),
                Err(_) => spec_parse(input@) is None,
            },
    {
        let s = str_to_chars(input);
        match Self::parse_elements(&s, 0, false, Vec::new()) {
            None => Err("Parse error: malformed pattern".to_owned()),
            Some((els, k)) => {
                if els.len() == 0 {
                    Err("No pattern found".to_owned())
                } else if k >= s.len() {
                    let cs: Vec<CsConstraint> = Vec::new();
                    assert(constraints_view(cs@) =~= Seq::<ConstraintV>::empty());
                    Ok(ConcreteSyntax { pattern: CsPattern { sequence: els, constraints: cs } })
                } else {
                    let acc: Vec<CsConstraint> = Vec::new();
                    assert(constraints_view(acc@) =~= Seq::<ConstraintV>::empty());
                    match Self::parse_constraints(&s, k + 2, acc) {
                        Some((cs, e)) => {
                            if skip_ws_exec(&s, e) == s.len() {
                                Ok(ConcreteSyntax { pattern: CsPattern { sequence: els, constraints: cs } })
                            } else {
                                Err("Parse error: unexpected text after the constraints".to_owned())
                            }
                        },
                        None => Err("Parse error: malformed constraint".to_owned()),
                    }
                }
            },
        }
    }
}

} // verus!
