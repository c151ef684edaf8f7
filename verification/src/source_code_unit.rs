//! A file under rewrite: its code, its syntax tree, the substitutions found
//! so far and the facts recorded about it; and the text edits applied to it.

use vstd::prelude::*;
use vstd::utf8::{encode_utf8, valid_utf8, is_char_boundary};
use crate::fact::{Fact, range_shift_fits, shifted_range};
use crate::matches::{Point, Range};
use crate::rules::Rule;
use crate::str_map::StrMap;
use crate::text::{bytes_to_string_lossy, copy_string, utf8_lossy};

verus! {

#[verifier::external_type_specification]
#[verifier::external_body]
pub struct ExTsTree(tree_sitter::Tree);

#[verifier::external_type_specification]
#[verifier::external_body]
pub struct ExTsParser(tree_sitter::Parser);

/// The row and column after the bytes `bytes`: a newline byte starts the
/// next row, any other byte moves one column on.
pub open spec fn position_of(bytes: Seq<u8>) -> (int, int)
    decreases bytes.len(),
{
    if bytes.len() == 0 {
        (0, 0)
    } else {
        let p = position_of(bytes.drop_last());
        if bytes.last() == 10u8 {
            (p.0 + 1, 0)
        } else {
            (p.0, p.1 + 1)
        }
    }
}

proof fn lemma_position_bound(bytes: Seq<u8>)
    ensures
        0 <= position_of(bytes).0,
        0 <= position_of(bytes).1,
        position_of(bytes).0 + position_of(bytes).1 <= bytes.len(),
    decreases bytes.len(),
{
    if bytes.len() > 0 {
        lemma_position_bound(bytes.drop_last());
    }
}

/// The point of a row and column.
pub open spec fn point_at(rc: (int, int)) -> Point {
    Point { row: rc.0 as usize, column: rc.1 as usize }
}

/// The position of byte `offset` of `input`.
pub fn position_for_offset(input: &[u8], offset: usize) -> (p: Point)
    requires
        offset <= input@.len(),
    ensures
        p == point_at(position_of(input@.take(offset as int))),
{
    let mut row: usize = 0;
    let mut column: usize = 0;
    let mut i: usize = 0;
    while i < offset
        invariant
            i <= offset <= input@.len(),
            (row as int, column as int) == position_of(input@.take(i as int)),
            row + column <= i,
        decreases offset - i,
    {
        assert(input@.take(i + 1).drop_last() =~= input@.take(i as int));
        assert(input@.take(i + 1).last() == input@[i as int]);
        if input[i] == 10u8 {
            row = row + 1;
            column = 0;
        } else {
            column = column + 1;
        }
        i = i + 1;
    }
    Point { row, column }
}

/// A text edit as tree-sitter takes it: the start, the old and the new end,
/// as byte offsets and as positions.
#[derive(Debug, Clone, Copy, PartialEq, Eq, Structural)]
pub struct TextEdit {
    pub start_byte: usize,
    pub old_end_byte: usize,
    pub new_end_byte: usize,
    pub start_position: Point,
    pub old_end_position: Point,
    pub new_end_position: Point,
}

/// The edit that replaces `range` of `old` by the bytes `rep`. The start
/// and the old end are positions in `old`; the new end is the position in
/// the new text, after the replacement.
pub open spec fn spec_text_edit(old: Seq<u8>, range: Range, rep: Seq<u8>) -> TextEdit {
    TextEdit {
        start_byte: range.start_byte,
        old_end_byte: range.end_byte,
        new_end_byte: (range.start_byte + rep.len()) as usize,
        start_position: point_at(position_of(old.take(range.start_byte as int))),
        old_end_position: point_at(position_of(old.take(range.end_byte as int))),
        new_end_position: point_at(position_of(old.take(range.start_byte as int) + rep)),
    }
}

/// `old` with `range` replaced by `rep`.
pub open spec fn replaced_bytes(old: Seq<u8>, range: Range, rep: Seq<u8>) -> Seq<u8> {
    old.subrange(0, range.start_byte as int) + rep + old.subrange(range.end_byte as int, old.len() as int)
}

/// Replacing a range and then replacing the replacement by what the range
/// held gives the code back.
pub proof fn lemma_edit_undone(old: Seq<u8>, r: Range, rep: Seq<u8>, back: Range)
    requires
        r.start_byte <= r.end_byte <= old.len(),
        back.start_byte == r.start_byte,
        back.end_byte == r.start_byte + rep.len(),
    ensures
        replaced_bytes(
            replaced_bytes(old, r, rep),
            back,
            old.subrange(r.start_byte as int, r.end_byte as int),
        ) == old,
{
    let s = r.start_byte as int;
    let e = r.end_byte as int;
    let mid = replaced_bytes(old, r, rep);
    assert(mid.subrange(0, s) =~= old.subrange(0, s));
    assert(mid.subrange(s + rep.len(), mid.len() as int) =~= old.subrange(e, old.len() as int));
    assert(old.subrange(0, s) + old.subrange(s, e) + old.subrange(e, old.len() as int) =~= old);
}

/// The range lies in the code, starts and ends on character boundaries, and
/// its start plus the replacement's length stays within the code.
pub open spec fn edit_in_code(code: Seq<char>, range: Range, rep: Seq<char>) -> bool {
    let bytes = encode_utf8(code);
    &&& range.start_byte <= range.end_byte <= bytes.len()
    &&& is_char_boundary(bytes, range.start_byte as int)
    &&& is_char_boundary(bytes, range.end_byte as int)
    &&& range.start_byte + encode_utf8(rep).len() <= usize::MAX
}

/// A rewrite: the range to replace, its replacement, the rule that matched
/// and the captures of the match.
#[derive(Debug)]
pub struct Edit {
    pub replacement_range: Range,
    pub replacement_string: String,
    pub matched_rule: Rule,
    pub matches: StrMap<String>,
}

impl Edit {
    pub fn new(replacement_range: Range, replacement_string: String, matched_rule: Rule, matches: StrMap<String>) -> (e: Edit)
        ensures
            e.replacement_range == replacement_range,
            e.replacement_string == replacement_string,
            e.matched_rule == matched_rule,
            e.matches == matches,
    {
        Edit { replacement_range, replacement_string, matched_rule, matches }
    }

    /// The edit that deletes `range` of `code`.
    pub fn delete_range(code: &str, range: Range) -> (e: Edit)
        ensures
            e.replacement_range == range,
            e.replacement_string@ == Seq::<char>::empty(),
    {
        Edit::new(range, String::new(), Rule::dummy(), StrMap::new())
    }
}

/// The edit overlaps the range: they share a byte.
pub open spec fn edit_overlaps(e: TextEdit, r: Range) -> bool {
    e.start_byte < r.end_byte && r.start_byte < e.old_end_byte
}

/// The edit comes before the range.
pub open spec fn edit_precedes(e: TextEdit, r: Range) -> bool {
    !edit_overlaps(e, r) && e.old_end_byte <= r.start_byte
}

/// The shift a preceding edit gives a range fits the machine's sizes.
pub open spec fn shift_fits(e: TextEdit, r: Range) -> bool {
    &&& e.new_end_byte <= isize::MAX
    &&& e.old_end_byte <= isize::MAX
    &&& range_shift_fits(
        r,
        e.new_end_byte - e.old_end_byte,
        e.old_end_position.row as int,
        e.old_end_position.column as int,
        e.new_end_position.row as int,
        e.new_end_position.column as int,
    )
}

/// What an edit does to a fact's range and mark: a fact the edit overlaps is
/// voided; one the edit precedes moves with the edit; others stay.
pub open spec fn fact_follows_edit(before: Fact, after: Fact, e: TextEdit) -> bool {
    &&& after.data == before.data
    &&& if edit_overlaps(e, before.range) {
        after.range == before.range && after.voided
    } else if edit_precedes(e, before.range) {
        after.voided == before.voided && after.range == shifted_range(
            before.range,
            e.new_end_byte - e.old_end_byte,
            e.old_end_position.row as int,
            e.old_end_position.column as int,
            e.new_end_position.row as int,
            e.new_end_position.column as int,
        )
    } else {
        after.range == before.range && after.voided == before.voided
    }
}

/// Every fact an edit precedes can be shifted.
pub open spec fn facts_shift_fit(facts: Seq<Fact>, e: TextEdit) -> bool {
    forall|i: int| 0 <= i < facts.len() && edit_precedes(e, (#[trigger] facts[i]).range) ==> shift_fits(e, facts[i].range)
}

/// `Parser::parse`: the tree of `code`, reusing `old_tree`; nothing when the
/// parser has no language or is cancelled. Nothing is claimed of the tree.
#[verifier::external_body]
fn ts_parse(parser: &mut tree_sitter::Parser, code: &str, old_tree: Option<&tree_sitter::Tree>) -> (t: Option<tree_sitter::Tree>) {
    parser.parse(code, old_tree)
}

/// `Tree::edit`, with the edit converted field by field.
#[verifier::external_body]
fn ts_tree_edit(tree: &mut tree_sitter::Tree, e: &TextEdit) {
    tree.edit(
        &tree_sitter::InputEdit {
            start_byte: e.start_byte,
            old_end_byte: e.old_end_byte,
            new_end_byte: e.new_end_byte,
            start_position: tree_sitter::Point { row: e.start_position.row, column: e.start_position.column },
            old_end_position: tree_sitter::Point { row: e.old_end_position.row, column: e.old_end_position.column },
            new_end_position: tree_sitter::Point { row: e.new_end_position.row, column: e.new_end_position.column },
        },
    )
}

/// `Parser::new`: a parser without a language.
#[verifier::external_body]
pub(crate) fn ts_parser_new() -> (p: tree_sitter::Parser) {
    tree_sitter::Parser::new()
}

/// `Parser::set_language`: whether the parser took the language (it fails
/// when the language's version is not one the library supports).
#[verifier::external_body]
pub(crate) fn ts_parser_set_language(parser: &mut tree_sitter::Parser, language: tree_sitter::Language) -> (ok: bool) {
    parser.set_language(language).is_ok()
}

/// `Tree::clone`: a copy of the tree.
#[verifier::external_body]
fn ts_tree_clone(tree: &tree_sitter::Tree) -> (t: tree_sitter::Tree) {
    tree.clone()
}

/// `Tree::root_node`: the root of the tree.
#[verifier::external_body]
fn ts_tree_root_node<'a>(tree: &'a tree_sitter::Tree) -> (n: tree_sitter::Node<'a>) {
    tree.root_node()
}

/// A file under rewrite: its syntax tree, its code, the substitutions found
/// so far (looked up to instantiate new rules), its path and the facts
/// recorded about it.
pub struct SourceCodeUnit {
    pub ast: tree_sitter::Tree,
    pub code: String,
    pub substitutions: StrMap<String>,
    pub path: String,
    pub facts: Vec<Fact>,
    /// The rewrites made so far, in order: each replaced range and its
    /// replacement.
    pub rewrites: Vec<(Range, String)>,
}

/// A copy of a list of rewrites.
fn copy_rewrites(v: &Vec<(Range, String)>) -> (c: Vec<(Range, String)>)
    ensures
        c@.len() == v@.len(),
        forall|i: int| 0 <= i < v@.len() ==> (#[trigger] c@[i]).0 == v@[i].0 && c@[i].1@ == v@[i].1@,
{
    let mut c: Vec<(Range, String)> = Vec::new();
    let mut i: usize = 0;
    while i < v.len()
        invariant
            i <= v@.len(),
            c@.len() == i,
            forall|j: int| 0 <= j < i ==> (#[trigger] c@[j]).0 == v@[j].0 && c@[j].1@ == v@[j].1@,
        decreases v@.len() - i,
    {
        c.push((v[i].0, copy_string(&v[i].1)));
        i = i + 1;
    }
    c
}

impl SourceCodeUnit {
    /// The unit for `code`, parsed by `parser`; nothing when the parser gives
    /// no tree.
    pub fn new(parser: &mut tree_sitter::Parser, code: String, substitutions: &StrMap<String>, path: &str) -> (u: Option<SourceCodeUnit>)
        ensures
            u matches Some(x) ==> x.code@ == code@ && x.path@ == path@ && x.facts@.len() == 0
                && x.substitutions.entries@.len() == substitutions.entries@.len()
                && forall|i: int| 0 <= i < substitutions.entries@.len() ==> (#[trigger] x.substitutions.entries@[i]).0@
                    == substitutions.entries@[i].0@ && x.substitutions.entries@[i].1@ == substitutions.entries@[i].1@,
    {
        match ts_parse(parser, code.as_str(), None) {
            Some(ast) => {
                let mut entries: Vec<(String, String)> = Vec::new();
                let mut i: usize = 0;
                while i < substitutions.entries.len()
                    invariant
                        i <= substitutions.entries@.len(),
                        entries@.len() == i,
                        forall|j: int| 0 <= j < i ==> (#[trigger] entries@[j]).0@ == substitutions.entries@[j].0@
                            && entries@[j].1@ == substitutions.entries@[j].1@,
                    decreases substitutions.entries@.len() - i,
                {
                    entries.push((copy_string(&substitutions.entries[i].0), copy_string(&substitutions.entries[i].1)));
                    i = i + 1;
                }
                Some(
                    SourceCodeUnit {
                        ast,
                        code,
                        substitutions: StrMap { entries },
                        path: path.to_owned(),
                        facts: Vec::new(),
                        rewrites: Vec::new(),
                    },
                )
            },
            None => None,
        }
    }

    /// The root of the syntax tree.
    pub fn root_node(&self) -> tree_sitter::Node<'_> {
        ts_tree_root_node(&self.ast)
    }

    /// The rewrites made so far: each replaced range and its replacement.
    pub fn rewrites(&self) -> (r: &Vec<(Range, String)>)
        ensures
            r == &self.rewrites,
    {
        &self.rewrites
    }

    /// The code of the unit.
    pub fn code(&self) -> (c: String)
        ensures
            c@ == self.code@,
    {
        copy_string(&self.code)
    }

    /// The path of the unit.
    pub fn path(&self) -> (p: &String)
        ensures
            p == &self.path,
    {
        &self.path
    }

    /// A copy of the unit: a copy of its tree, and the same code, path,
    /// substitutions and facts.
    pub fn copy(&self) -> (u: SourceCodeUnit)
        ensures
            u.code@ == self.code@,
            u.path@ == self.path@,
            u.substitutions.entries@.len() == self.substitutions.entries@.len(),
            forall|i: int|
                0 <= i < self.substitutions.entries@.len() ==> (#[trigger] u.substitutions.entries@[i]).0@
                    == self.substitutions.entries@[i].0@ && u.substitutions.entries@[i].1@
                    == self.substitutions.entries@[i].1@,
            self.substitutions.wf() ==> u.substitutions.wf(),
            u.facts@.len() == self.facts@.len(),
            forall|i: int|
                0 <= i < self.facts@.len() ==> (#[trigger] u.facts@[i]).range == self.facts@[i].range
                    && u.facts@[i].voided == self.facts@[i].voided,
    {
        let mut facts: Vec<Fact> = Vec::new();
        let mut i: usize = 0;
        while i < self.facts.len()
            invariant
                i <= self.facts@.len(),
                facts@.len() == i,
                forall|j: int|
                    0 <= j < i ==> (#[trigger] facts@[j]).range == self.facts@[j].range && facts@[j].voided
                        == self.facts@[j].voided,
            decreases self.facts@.len() - i,
        {
            facts.push(self.facts[i].copy());
            i = i + 1;
        }
        SourceCodeUnit {
            ast: ts_tree_clone(&self.ast),
            code: copy_string(&self.code),
            substitutions: crate::fact::copy_table(&self.substitutions),
            path: copy_string(&self.path),
            facts,
            rewrites: copy_rewrites(&self.rewrites),
        }
    }

    /// The code with `replace_range` replaced by `replacement`, and the edit
    /// as tree-sitter takes it. The unit does not change.
    pub fn get_edit(&self, replace_range: Range, replacement: &str) -> (res: (String, TextEdit))
        requires
            edit_in_code(self.code@, replace_range, replacement@),
        ensures
            encode_utf8(res.0@) == replaced_bytes(encode_utf8(self.code@), replace_range, encode_utf8(replacement@)),
            res.1 == spec_text_edit(encode_utf8(self.code@), replace_range, encode_utf8(replacement@)),
    {
        let old = self.code.as_str().as_bytes();
        let rep = replacement.as_bytes();
        let ghost ob = old@;
        let ghost rb = rep@;
        let s = replace_range.start_byte;
        let e = replace_range.end_byte;
        let mut out: Vec<u8> = Vec::new();
        let mut i: usize = 0;
        while i < s
            invariant
                s <= old@.len(),
                i <= s,
                out@ == old@.subrange(0, i as int),
            decreases s - i,
        {
            out.push(old[i]);
            i = i + 1;
            assert(out@ =~= old@.subrange(0, i as int));
        }
        let mut j: usize = 0;
        while j < rep.len()
            invariant
                j <= rep@.len(),
                out@ == old@.subrange(0, s as int) + rep@.subrange(0, j as int),
            decreases rep@.len() - j,
        {
            out.push(rep[j]);
            j = j + 1;
            assert(out@ =~= old@.subrange(0, s as int) + rep@.subrange(0, j as int));
        }
        let mut k: usize = e;
        while k < old.len()
            invariant
                e <= k <= old@.len(),
                out@ == old@.subrange(0, s as int) + rep@ + old@.subrange(e as int, k as int),
            decreases old@.len() - k,
        {
            out.push(old[k]);
            k = k + 1;
            assert(out@ =~= old@.subrange(0, s as int) + rep@ + old@.subrange(e as int, k as int));
        }
        assert(rep@.subrange(0, rep@.len() as int) =~= rep@);
        proof {
            vstd::utf8::encode_utf8_valid_utf8(self.code@);
            vstd::utf8::encode_utf8_valid_utf8(replacement@);
            vstd::utf8::valid_utf8_split(ob, s as int);
            vstd::utf8::valid_utf8_split(ob, e as int);
            vstd::utf8::valid_utf8_concat(ob.subrange(0, s as int), rb);
            vstd::utf8::valid_utf8_concat(ob.subrange(0, s as int) + rb, ob.subrange(e as int, ob.len() as int));
            assert(out@ == replaced_bytes(ob, replace_range, rb));
            vstd::utf8::decode_utf8_encode_utf8(out@);
            assert(out@.take(s + rb.len()) =~= ob.take(s as int) + rb);
        }
        let new_code = bytes_to_string_lossy(out.as_slice());
        let edit = TextEdit {
            start_byte: s,
            old_end_byte: e,
            new_end_byte: s + rep.len(),
            start_position: position_for_offset(old, s),
            old_end_position: position_for_offset(old, e),
            new_end_position: position_for_offset(out.as_slice(), s + rep.len()),
        };
        (new_code, edit)
    }

    /// Applies the edit to the code and the tree (and parses the code
    /// again), and brings the facts along: a fact the edit overlaps is
    /// voided, one it precedes moves with it. Gives the edit as tree-sitter
    /// takes it; nothing, with the old tree kept (edited), when the parser
    /// gives no new tree.
    pub fn apply_edit(&mut self, edit: &Edit, parser: &mut tree_sitter::Parser) -> (res: Option<TextEdit>)
        requires
            edit_in_code(old(self).code@, edit.replacement_range, edit.replacement_string@),
            facts_shift_fit(
                old(self).facts@,
                spec_text_edit(
                    encode_utf8(old(self).code@),
                    edit.replacement_range,
                    encode_utf8(edit.replacement_string@),
                ),
            ),
        ensures
            encode_utf8(final(self).code@) == replaced_bytes(
                encode_utf8(old(self).code@),
                edit.replacement_range,
                encode_utf8(edit.replacement_string@),
            ),
            res matches Some(te) ==> te == spec_text_edit(
                encode_utf8(old(self).code@),
                edit.replacement_range,
                encode_utf8(edit.replacement_string@),
            ),
            final(self).facts@.len() == old(self).facts@.len(),
            forall|i: int|
                0 <= i < old(self).facts@.len() ==> fact_follows_edit(
                    #[trigger] old(self).facts@[i],
                    final(self).facts@[i],
                    spec_text_edit(
                        encode_utf8(old(self).code@),
                        edit.replacement_range,
                        encode_utf8(edit.replacement_string@),
                    ),
                ),
            final(self).substitutions == old(self).substitutions,
            final(self).path == old(self).path,
            final(self).rewrites@.len() == old(self).rewrites@.len() + 1,
            forall|i: int| 0 <= i < old(self).rewrites@.len() ==> final(self).rewrites@[i] == old(self).rewrites@[i],
            final(self).rewrites@.last().0 == edit.replacement_range,
            final(self).rewrites@.last().1@ == edit.replacement_string@,
    {
        let (new_code, te) = self.get_edit(edit.replacement_range, edit.replacement_string.as_str());
        self.rewrites.push((edit.replacement_range, copy_string(&edit.replacement_string)));
        ts_tree_edit(&mut self.ast, &te);
        self.update_facts(&te);
        let parsed = ts_parse(parser, new_code.as_str(), Some(&self.ast));
        self.code = new_code;
        match parsed {
            Some(t) => {
                self.ast = t;
                Some(te)
            },
            None => None,
        }
    }

    /// Voids the facts the edit overlaps and shifts those it precedes.
    fn update_facts(&mut self, te: &TextEdit)
        requires
            facts_shift_fit(old(self).facts@, *te),
        ensures
            final(self).facts@.len() == old(self).facts@.len(),
            forall|i: int| 0 <= i < old(self).facts@.len() ==> fact_follows_edit(#[trigger] old(self).facts@[i], final(self).facts@[i], *te),
            final(self).code == old(self).code,
            final(self).substitutions == old(self).substitutions,
            final(self).path == old(self).path,
            final(self).rewrites == old(self).rewrites,
    {
        let ghost before = self.facts@;
        let mut i: usize = 0;
        while i < self.facts.len()
            invariant
                i <= self.facts@.len(),
                self.facts@.len() == before.len(),
                facts_shift_fit(before, *te),
                forall|j: int| 0 <= j < i ==> fact_follows_edit(#[trigger] before[j], self.facts@[j], *te),
                forall|j: int| i <= j < before.len() ==> #[trigger] self.facts@[j] == before[j],
                self.code == old(self).code,
                self.substitutions == old(self).substitutions,
                self.path == old(self).path,
                self.rewrites == old(self).rewrites,
            decreases self.facts@.len() - i,
        {
            let r = self.facts[i].range;
            if te.start_byte < r.end_byte && r.start_byte < te.old_end_byte {
                self.facts[i].voided = true;
            } else if te.old_end_byte <= r.start_byte {
                assert(edit_precedes(*te, before[i as int].range));
                let delta = te.new_end_byte as isize - te.old_end_byte as isize;
                self.facts[i].shift_range(
                    delta,
                    te.old_end_position.row,
                    te.old_end_position.column,
                    te.new_end_position.row,
                    te.new_end_position.column,
                );
            }
            i = i + 1;
        }
    }
}

} // verus!
