//! Facts that rules record about ranges of source code, and how they follow
//! the edits made before them.

use vstd::prelude::*;
use crate::matches::{Point, Range};
use crate::str_map::StrMap;
use crate::text::copy_string;

verus! {

/// A fact recorded by a fact rule: a table of strings associated with a
/// range of source code. A rewrite that overlaps the range voids the fact; a
/// rewrite that precedes it shifts its offsets and positions.
#[derive(Debug)]
pub struct Fact {
    /// The range of source code the fact is about.
    pub range: Range,
    /// The fact's data.
    pub data: StrMap<String>,
    /// Whether a later rewrite overlapped the range.
    pub voided: bool,
}

/// Where a point goes after an edit whose old end was on row `old_end_row`:
/// a point on a later row moves by `row_delta` rows and keeps its column; a
/// point on that row (or, which does not happen for facts after an edit, an
/// earlier one) also moves by `col_delta` columns.
pub open spec fn shifted_point(p: Point, row_delta: int, col_delta: int, old_end_row: int) -> (int, int) {
    if p.row > old_end_row {
        (p.row + row_delta, p.column as int)
    } else {
        (p.row + row_delta, p.column + col_delta)
    }
}

/// The shifted point fits the machine's signed and unsigned sizes.
pub open spec fn point_shift_fits(p: Point, row_delta: int, col_delta: int, old_end_row: int) -> bool {
    &&& p.row <= isize::MAX
    &&& p.column <= isize::MAX
    &&& 0 <= shifted_point(p, row_delta, col_delta, old_end_row).0 <= isize::MAX
    &&& 0 <= shifted_point(p, row_delta, col_delta, old_end_row).1 <= isize::MAX
}

/// The edit's values and the shifted range fit the machine's sizes.
pub open spec fn range_shift_fits(r: Range, byte_delta: int, old_end_row: int, old_end_col: int, new_end_row: int, new_end_col: int) -> bool {
    &&& old_end_row <= isize::MAX
    &&& old_end_col <= isize::MAX
    &&& new_end_row <= isize::MAX
    &&& new_end_col <= isize::MAX
    &&& r.start_byte <= isize::MAX
    &&& r.end_byte <= isize::MAX
    &&& 0 <= r.start_byte + byte_delta <= isize::MAX
    &&& 0 <= r.end_byte + byte_delta <= isize::MAX
    &&& point_shift_fits(r.start_point, new_end_row - old_end_row, new_end_col - old_end_col, old_end_row)
    &&& point_shift_fits(r.end_point, new_end_row - old_end_row, new_end_col - old_end_col, old_end_row)
}

/// The point with the given row and column.
pub open spec fn point_of(rc: (int, int)) -> Point {
    Point { row: rc.0 as usize, column: rc.1 as usize }
}

/// Where a range goes after an edit: its offsets move by `byte_delta` and
/// its points as `shifted_point` says.
pub open spec fn shifted_range(r: Range, byte_delta: int, old_end_row: int, old_end_col: int, new_end_row: int, new_end_col: int) -> Range {
    Range {
        start_byte: (r.start_byte + byte_delta) as usize,
        end_byte: (r.end_byte + byte_delta) as usize,
        start_point: point_of(shifted_point(r.start_point, new_end_row - old_end_row, new_end_col - old_end_col, old_end_row)),
        end_point: point_of(shifted_point(r.end_point, new_end_row - old_end_row, new_end_col - old_end_col, old_end_row)),
    }
}

/// Shifts a point after an edit whose old end was on row `old_end_row`.
fn shift_point(p: Point, row_delta: isize, col_delta: isize, old_end_row: usize) -> (q: Point)
    requires
        point_shift_fits(p, row_delta as int, col_delta as int, old_end_row as int),
    ensures
        q == point_of(shifted_point(p, row_delta as int, col_delta as int, old_end_row as int)),
{
    if p.row > old_end_row {
        Point { row: (p.row as isize + row_delta) as usize, column: p.column }
    } else {
        Point { row: (p.row as isize + row_delta) as usize, column: (p.column as isize + col_delta) as usize }
    }
}

impl Fact {
    /// A fact that is not voided.
    pub fn new(range: Range, data: StrMap<String>) -> (f: Fact)
        ensures
            f.range == range,
            f.data == data,
            !f.voided,
    {
        Fact { range, data, voided: false }
    }

    /// Shifts the fact's offsets and positions after an edit before it:
    /// `byte_delta` is the edit's new end offset less its old end offset,
    /// and the rows and columns are those of the edit's old and new ends.
    pub fn shift_range(
        &mut self,
        byte_delta: isize,
        old_end_row: usize,
        old_end_col: usize,
        new_end_row: usize,
        new_end_col: usize,
    )
        requires
            range_shift_fits(
                old(self).range,
                byte_delta as int,
                old_end_row as int,
                old_end_col as int,
                new_end_row as int,
                new_end_col as int,
            ),
        ensures
            final(self).range == shifted_range(
                old(self).range,
                byte_delta as int,
                old_end_row as int,
                old_end_col as int,
                new_end_row as int,
                new_end_col as int,
            ),
            final(self).data == old(self).data,
            final(self).voided == old(self).voided,
    {
        self.range.start_byte = (self.range.start_byte as isize + byte_delta) as usize;
        self.range.end_byte = (self.range.end_byte as isize + byte_delta) as usize;
        let row_delta = new_end_row as isize - old_end_row as isize;
        let col_delta = new_end_col as isize - old_end_col as isize;
        self.range.start_point = shift_point(self.range.start_point, row_delta, col_delta, old_end_row);
        self.range.end_point = shift_point(self.range.end_point, row_delta, col_delta, old_end_row);
    }
}

/// An edit that changes nothing leaves a range where it was.
pub proof fn lemma_shift_by_nothing(r: Range, row: int, col: int)
    requires
        0 <= row,
        0 <= col,
    ensures
        shifted_range(r, 0, row, col, row, col) == r,
{
}

/// Shifting a range after an edit and then after the edit that undoes it
/// (the opposite byte delta, the old and new ends swapped) gives the range
/// back.
pub proof fn lemma_shift_undone(
    r: Range,
    byte_delta: int,
    old_end_row: int,
    old_end_col: int,
    new_end_row: int,
    new_end_col: int,
)
    requires
        range_shift_fits(r, byte_delta, old_end_row, old_end_col, new_end_row, new_end_col),
    ensures
        shifted_range(
            shifted_range(r, byte_delta, old_end_row, old_end_col, new_end_row, new_end_col),
            -byte_delta,
            new_end_row,
            new_end_col,
            old_end_row,
            old_end_col,
        ) == r,
{
}

/// A copy of a table of strings: the same keys and values, in order.
pub fn copy_table(m: &StrMap<String>) -> (r: StrMap<String>)
    ensures
        r.entries@.len() == m.entries@.len(),
        forall|i: int|
            0 <= i < m.entries@.len() ==> (#[trigger] r.entries@[i]).0@ == m.entries@[i].0@ && r.entries@[i].1@
                == m.entries@[i].1@,
        m.wf() ==> r.wf(),
{
    let mut entries: Vec<(String, String)> = Vec::new();
    let mut i: usize = 0;
    while i < m.entries.len()
        invariant
            i <= m.entries@.len(),
            entries@.len() == i,
            forall|j: int|
                0 <= j < i ==> (#[trigger] entries@[j]).0@ == m.entries@[j].0@ && entries@[j].1@ == m.entries@[j].1@,
        decreases m.entries@.len() - i,
    {
        entries.push((copy_string(&m.entries[i].0), copy_string(&m.entries[i].1)));
        i = i + 1;
    }
    let r = StrMap { entries };
    proof {
        if m.wf() {
            assert forall|a: int, b: int| 0 <= a < b < r.entries@.len() implies (#[trigger] r.entries@[a]).0@
                != (#[trigger] r.entries@[b]).0@ by {
                assert(m.entries@[a].0@ != m.entries@[b].0@);
            }
        }
    }
    r
}

impl Fact {
    /// A copy of the fact.
    pub fn copy(&self) -> (f: Fact)
        ensures
            f.range == self.range,
            f.voided == self.voided,
            f.data.entries@.len() == self.data.entries@.len(),
    {
        Fact { range: self.range, data: copy_table(&self.data), voided: self.voided }
    }
}

/// The fact is not voided and its data holds each of the (key, value) pairs.
pub open spec fn fact_meets(f: Fact, pairs: Seq<(Seq<char>, Seq<char>)>) -> bool {
    &&& !f.voided
    &&& forall|j: int|
        0 <= j < pairs.len() ==> f.data@.contains_key((#[trigger] pairs[j]).0) && f.data@[pairs[j].0]@ == pairs[j].1
}

/// A fact filter holds: it is empty, or some fact meets it.
pub open spec fn facts_meet(facts: Seq<Fact>, pairs: Seq<(Seq<char>, Seq<char>)>) -> bool {
    pairs.len() == 0 || exists|i: int| 0 <= i < facts.len() && fact_meets(#[trigger] facts[i], pairs)
}

/// Whether the fact meets the pairs.
pub fn fact_meets_pairs(f: &Fact, pairs: &Vec<(String, String)>) -> (b: bool)
    ensures
        b == fact_meets(*f, crate::rules::entries_view(pairs@)),
{
    if f.voided {
        return false;
    }
    let ghost pv = crate::rules::entries_view(pairs@);
    let mut j: usize = 0;
    while j < pairs.len()
        invariant
            j <= pairs@.len(),
            pv == crate::rules::entries_view(pairs@),
            !f.voided,
            forall|k: int| 0 <= k < j ==> f.data@.contains_key((#[trigger] pv[k]).0) && f.data@[pv[k].0]@ == pv[k].1,
        decreases pairs@.len() - j,
    {
        assert(pv[j as int] == (pairs@[j as int].0@, pairs@[j as int].1@));
        match f.data.get(pairs[j].0.as_str()) {
            Some(v) => {
                if !crate::text::str_eq(v.as_str(), pairs[j].1.as_str()) {
                    assert(!(f.data@.contains_key(pv[j as int].0) && f.data@[pv[j as int].0]@ == pv[j as int].1));
                    return false;
                }
            },
            None => {
                assert(!f.data@.contains_key(pv[j as int].0));
                return false;
            },
        }
        j = j + 1;
    }
    true
}

/// Whether the fact filter `pairs` holds of the facts.
pub fn facts_meet_pairs(facts: &Vec<Fact>, pairs: &Vec<(String, String)>) -> (b: bool)
    ensures
        b == facts_meet(facts@, crate::rules::entries_view(pairs@)),
{
    if pairs.len() == 0 {
        return true;
    }
    let mut i: usize = 0;
    while i < facts.len()
        invariant
            i <= facts@.len(),
            pairs@.len() > 0,
            forall|k: int| 0 <= k < i ==> !fact_meets(#[trigger] facts@[k], crate::rules::entries_view(pairs@)),
        decreases facts@.len() - i,
    {
        if fact_meets_pairs(&facts[i], pairs) {
            return true;
        }
        i = i + 1;
    }
    false
}

} // verus!
