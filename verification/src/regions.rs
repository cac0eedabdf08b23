//! Coloured backgrounds: rectangles of cells, joined so that few have to be drawn.

use vstd::prelude::*;
use crate::color::Hsla;

verus! {

/// A rectangle of cells with one background colour.
#[derive(Debug, Clone, Copy, PartialEq, Eq, Structural)]
pub struct BackgroundRegion {
    pub start_line: i32,
    pub start_col: i32,
    pub end_line: i32,
    pub end_col: i32,
    pub color: Hsla,
}

impl BackgroundRegion {
    /// It has at least one cell.
    pub open spec fn well_formed(self) -> bool {
        self.start_line <= self.end_line && self.start_col <= self.end_col
    }

    pub open spec fn covers(self, line: int, col: int) -> bool {
        self.start_line <= line <= self.end_line && self.start_col <= col <= self.end_col
    }

    /// The two have one colour and lie side by side along a whole edge.
    pub open spec fn mergeable(self, other: BackgroundRegion) -> bool {
        &&& self.color == other.color
        &&& if self.start_line == other.start_line && self.end_line == other.end_line {
            self.end_col + 1 == other.start_col || other.end_col + 1 == self.start_col
        } else {
            self.start_col == other.start_col && self.end_col == other.end_col && (self.end_line + 1
                == other.start_line || other.end_line + 1 == self.start_line)
        }
    }

    /// The smallest rectangle around both.
    pub open spec fn joined_with(self, other: BackgroundRegion) -> BackgroundRegion {
        BackgroundRegion {
            start_line: if self.start_line <= other.start_line {
                self.start_line
            } else {
                other.start_line
            },
            start_col: if self.start_col <= other.start_col {
                self.start_col
            } else {
                other.start_col
            },
            end_line: if self.end_line >= other.end_line {
                self.end_line
            } else {
                other.end_line
            },
            end_col: if self.end_col >= other.end_col {
                self.end_col
            } else {
                other.end_col
            },
            color: self.color,
        }
    }

    /// The region of one cell.
    pub fn new(line: i32, col: i32, color: Hsla) -> (r: BackgroundRegion)
        ensures
            r == (BackgroundRegion { start_line: line, start_col: col, end_line: line, end_col: col, color }),
    {
        BackgroundRegion { start_line: line, start_col: col, end_line: line, end_col: col, color }
    }

    /// Whether the two can be drawn as one.
    pub fn can_merge_with(&self, other: &BackgroundRegion) -> (r: bool)
        ensures
            r == self.mergeable(*other),
    {
        if self.color != other.color {
            return false;
        }
        if self.start_line == other.start_line && self.end_line == other.end_line {
            return self.end_col as i64 + 1 == other.start_col as i64 || other.end_col as i64 + 1
                == self.start_col as i64;
        }
        if self.start_col == other.start_col && self.end_col == other.end_col {
            return self.end_line as i64 + 1 == other.start_line as i64 || other.end_line as i64 + 1
                == self.start_line as i64;
        }
        false
    }

    /// Grows to the smallest rectangle around both.
    pub fn merge_with(&mut self, other: &BackgroundRegion)
        ensures
            *final(self) == old(self).joined_with(*other),
    {
        if other.start_line < self.start_line {
            self.start_line = other.start_line;
        }
        if other.start_col < self.start_col {
            self.start_col = other.start_col;
        }
        if other.end_line > self.end_line {
            self.end_line = other.end_line;
        }
        if other.end_col > self.end_col {
            self.end_col = other.end_col;
        }
    }
}

pub open spec fn all_well_formed(s: Seq<BackgroundRegion>) -> bool {
    forall|k: int| 0 <= k < s.len() ==> (#[trigger] s[k]).well_formed()
}

/// Whether some region gives the cell this background.
pub open spec fn painted(s: Seq<BackgroundRegion>, line: int, col: int, color: Hsla) -> bool {
    exists|k: int| 0 <= k < s.len() && (#[trigger] s[k]).color == color && s[k].covers(line, col)
}

/// Region `i` takes in, from position `j` on, every region that it can be merged with, growing as
/// it goes.
pub open spec fn absorbed(s: Seq<BackgroundRegion>, i: int, j: int) -> Seq<BackgroundRegion>
    decreases s.len() - j,
{
    if !(0 <= i < j) || j >= s.len() {
        s
    } else if s[i].mergeable(s[j]) {
        absorbed(s.remove(j).update(i, s[i].joined_with(s[j])), i, j)
    } else {
        absorbed(s, i, j + 1)
    }
}

/// Every region from `i` on takes in what follows it.
pub open spec fn swept(s: Seq<BackgroundRegion>, i: int) -> Seq<BackgroundRegion>
    decreases s.len() - i,
    when 0 <= i
    via swept_decreases
{
    if i >= s.len() {
        s
    } else {
        swept(absorbed(s, i, i + 1), i + 1)
    }
}

#[via_fn]
proof fn swept_decreases(s: Seq<BackgroundRegion>, i: int) {
    if i < s.len() {
        lemma_absorbed_len(s, i, i + 1);
    }
}

proof fn lemma_absorbed_len(s: Seq<BackgroundRegion>, i: int, j: int)
    requires
        0 <= i < j,
    ensures
        absorbed(s, i, j).len() <= s.len(),
        j <= s.len() ==> j <= absorbed(s, i, j).len(),
    decreases s.len() - j,
{
    if j < s.len() {
        if s[i].mergeable(s[j]) {
            lemma_absorbed_len(s.remove(j).update(i, s[i].joined_with(s[j])), i, j);
        } else {
            lemma_absorbed_len(s, i, j + 1);
        }
    }
}

proof fn lemma_swept_len(s: Seq<BackgroundRegion>, i: int)
    requires
        0 <= i,
    ensures
        swept(s, i).len() <= s.len(),
    decreases s.len() - i,
{
    if i < s.len() {
        lemma_absorbed_len(s, i, i + 1);
        lemma_swept_len(absorbed(s, i, i + 1), i + 1);
    }
}

/// Sweeping until nothing can be merged any more.
pub open spec fn merged(s: Seq<BackgroundRegion>) -> Seq<BackgroundRegion>
    decreases s.len(),
{
    if swept(s, 0).len() < s.len() {
        merged(swept(s, 0))
    } else {
        s
    }
}

/// Two regions that can be merged cover together what the merged one covers.
proof fn lemma_join_covers(a: BackgroundRegion, b: BackgroundRegion, line: int, col: int)
    requires
        a.well_formed(),
        b.well_formed(),
        a.mergeable(b),
    ensures
        a.joined_with(b).well_formed(),
        a.joined_with(b).covers(line, col) <==> a.covers(line, col) || b.covers(line, col),
{
}

proof fn lemma_absorbed(s: Seq<BackgroundRegion>, i: int, j: int, line: int, col: int, color: Hsla)
    requires
        0 <= i < j,
        all_well_formed(s),
    ensures
        all_well_formed(absorbed(s, i, j)),
        painted(absorbed(s, i, j), line, col, color) == painted(s, line, col, color),
        absorbed(s, i, j).len() == s.len() ==> absorbed(s, i, j) == s && forall|k: int|
            j <= k < s.len() ==> !s[i].mergeable(#[trigger] s[k]),
    decreases s.len() - j,
{
    if j < s.len() {
        assert(s[i].well_formed() && s[j].well_formed());
        if s[i].mergeable(s[j]) {
            let joined = s[i].joined_with(s[j]);
            let t = s.remove(j).update(i, joined);
            lemma_join_covers(s[i], s[j], line, col);
            assert(joined.well_formed());
            assert forall|k: int| 0 <= k < t.len() implies (#[trigger] t[k]).well_formed() by {
                if k != i {
                    if k < j {
                        assert(t[k] == s[k]);
                    } else {
                        assert(t[k] == s[k + 1]);
                    }
                }
            }
            if painted(s, line, col, color) {
                let k = choose|k: int| 0 <= k < s.len() && (#[trigger] s[k]).color == color && s[k].covers(
                    line,
                    col,
                );
                if k == i || k == j {
                    assert(t[i] == joined);
                } else if k < j {
                    assert(t[k] == s[k]);
                } else {
                    assert(t[k - 1] == s[k]);
                }
                assert(painted(t, line, col, color));
            }
            if painted(t, line, col, color) {
                let k = choose|k: int| 0 <= k < t.len() && (#[trigger] t[k]).color == color && t[k].covers(
                    line,
                    col,
                );
                if k == i {
                    assert(s[i].covers(line, col) || s[j].covers(line, col));
                } else if k < j {
                    assert(t[k] == s[k]);
                } else {
                    assert(t[k] == s[k + 1]);
                }
                assert(painted(s, line, col, color));
            }
            lemma_absorbed(t, i, j, line, col, color);
            lemma_absorbed_len(t, i, j);
        } else {
            lemma_absorbed(s, i, j + 1, line, col, color);
        }
    }
}

proof fn lemma_swept(s: Seq<BackgroundRegion>, i: int, line: int, col: int, color: Hsla)
    requires
        0 <= i,
        all_well_formed(s),
    ensures
        all_well_formed(swept(s, i)),
        painted(swept(s, i), line, col, color) == painted(s, line, col, color),
        swept(s, i).len() == s.len() ==> swept(s, i) == s && forall|a: int, b: int|
            i <= a < b < s.len() ==> !(#[trigger] s[a]).mergeable(#[trigger] s[b]),
    decreases s.len() - i,
{
    if i < s.len() {
        let t = absorbed(s, i, i + 1);
        lemma_absorbed(s, i, i + 1, line, col, color);
        lemma_absorbed_len(s, i, i + 1);
        lemma_swept(t, i + 1, line, col, color);
        lemma_swept_len(t, i + 1);
    }
}

/// Merging changes no cell's background, and leaves no two regions that could be merged.
pub proof fn lemma_merged(s: Seq<BackgroundRegion>, line: int, col: int, color: Hsla)
    requires
        all_well_formed(s),
    ensures
        all_well_formed(merged(s)),
        painted(merged(s), line, col, color) == painted(s, line, col, color),
        merged(s).len() <= s.len(),
        forall|a: int, b: int|
            0 <= a < b < merged(s).len() ==> !(#[trigger] merged(s)[a]).mergeable(#[trigger] merged(s)[b]),
    decreases s.len(),
{
    lemma_swept(s, 0, line, col, color);
    lemma_swept_len(s, 0);
    if swept(s, 0).len() < s.len() {
        lemma_merged(swept(s, 0), line, col, color);
    }
}

/// How many of the regions cover a place.
pub open spec fn times_covered(s: Seq<BackgroundRegion>, line: int, col: int) -> nat
    decreases s.len(),
{
    if s.len() == 0 {
        0
    } else {
        times_covered(s.drop_last(), line, col) + covering(s.last(), line, col)
    }
}

/// 1 for a region that covers a place, 0 for any other.
pub open spec fn covering(r: BackgroundRegion, line: int, col: int) -> nat {
    if r.covers(line, col) {
        1
    } else {
        0
    }
}

proof fn lemma_times_update(s: Seq<BackgroundRegion>, i: int, r: BackgroundRegion, line: int, col: int)
    requires
        0 <= i < s.len(),
    ensures
        times_covered(s.update(i, r), line, col) + covering(s[i], line, col) == times_covered(s, line, col)
            + covering(r, line, col),
    decreases s.len(),
{
    if i == s.len() - 1 {
        assert(s.update(i, r).drop_last() =~= s.drop_last());
    } else {
        assert(s.update(i, r).drop_last() =~= s.drop_last().update(i, r));
        lemma_times_update(s.drop_last(), i, r, line, col);
    }
}

proof fn lemma_times_remove(s: Seq<BackgroundRegion>, j: int, line: int, col: int)
    requires
        0 <= j < s.len(),
    ensures
        times_covered(s.remove(j), line, col) + covering(s[j], line, col) == times_covered(s, line, col),
    decreases s.len(),
{
    if j == s.len() - 1 {
        assert(s.remove(j) =~= s.drop_last());
    } else {
        assert(s.remove(j).drop_last() =~= s.drop_last().remove(j));
        assert(s.remove(j).last() == s.last());
        lemma_times_remove(s.drop_last(), j, line, col);
    }
}

proof fn lemma_times_absorbed(s: Seq<BackgroundRegion>, i: int, j: int, line: int, col: int)
    requires
        0 <= i < j,
        all_well_formed(s),
    ensures
        all_well_formed(absorbed(s, i, j)),
        times_covered(absorbed(s, i, j), line, col) == times_covered(s, line, col),
    decreases s.len() - j,
{
    lemma_absorbed(s, i, j, line, col, s[0].color);
    if j < s.len() {
        assert(s[i].well_formed() && s[j].well_formed());
        if s[i].mergeable(s[j]) {
            let joined = s[i].joined_with(s[j]);
            let rest = s.remove(j);
            let t = rest.update(i, joined);
            lemma_join_covers(s[i], s[j], line, col);
            assert(covering(joined, line, col) == covering(s[i], line, col) + covering(s[j], line, col));
            lemma_times_remove(s, j, line, col);
            assert(rest[i] == s[i]);
            lemma_times_update(rest, i, joined, line, col);
            assert forall|k: int| 0 <= k < t.len() implies (#[trigger] t[k]).well_formed() by {
                if k != i {
                    if k < j {
                        assert(t[k] == s[k]);
                    } else {
                        assert(t[k] == s[k + 1]);
                    }
                }
            }
            lemma_times_absorbed(t, i, j, line, col);
        } else {
            lemma_times_absorbed(s, i, j + 1, line, col);
        }
    }
}

proof fn lemma_times_swept(s: Seq<BackgroundRegion>, i: int, line: int, col: int)
    requires
        0 <= i,
        all_well_formed(s),
    ensures
        all_well_formed(swept(s, i)),
        times_covered(swept(s, i), line, col) == times_covered(s, line, col),
    decreases s.len() - i,
{
    if i < s.len() {
        lemma_times_absorbed(s, i, i + 1, line, col);
        lemma_absorbed_len(s, i, i + 1);
        lemma_times_swept(absorbed(s, i, i + 1), i + 1, line, col);
    }
}

/// Merging covers each place as often as before: regions that do not overlap do not overlap
/// afterwards.
pub proof fn lemma_merged_times(s: Seq<BackgroundRegion>, line: int, col: int)
    requires
        all_well_formed(s),
    ensures
        times_covered(merged(s), line, col) == times_covered(s, line, col),
    decreases s.len(),
{
    lemma_times_swept(s, 0, line, col);
    if swept(s, 0).len() < s.len() {
        lemma_merged_times(swept(s, 0), line, col);
    }
}

/// Merging what has been merged changes nothing.
pub proof fn lemma_merged_twice(s: Seq<BackgroundRegion>)
    ensures
        merged(merged(s)) == merged(s),
    decreases s.len(),
{
    if swept(s, 0).len() < s.len() {
        lemma_merged_twice(swept(s, 0));
    }
}

fn absorb(regions: &mut Vec<BackgroundRegion>, i: usize)
    requires
        i < old(regions)@.len(),
    ensures
        final(regions)@ == absorbed(old(regions)@, i as int, i + 1),
        i < final(regions)@.len() <= old(regions)@.len(),
{
    let total: usize = regions.len();
    assert(i < total);
    let mut j: usize = i + 1;
    while j < regions.len()
        invariant
            i < j <= regions@.len() <= old(regions)@.len(),
            absorbed(old(regions)@, i as int, i + 1) == absorbed(regions@, i as int, j as int),
        decreases regions@.len() - j,
    {
        let ghost before = regions@;
        if regions[i].can_merge_with(&regions[j]) {
            let other = regions.remove(j);
            let mut grown: BackgroundRegion = regions[i];
            grown.merge_with(&other);
            regions.set(i, grown);
            assert(regions@ =~= before.remove(j as int).update(
                i as int,
                before[i as int].joined_with(before[j as int]),
            ));
        } else {
            j += 1;
        }
    }
}

/// Joins regions until no two of them can be drawn as one.
pub fn merge_background_regions(regions: Vec<BackgroundRegion>) -> (r: Vec<BackgroundRegion>)
    ensures
        r@ == merged(regions@),
{
    let mut out = regions;
    let mut changed: bool = true;
    while changed
        invariant
            changed ==> merged(out@) == merged(regions@),
            !changed ==> out@ == merged(regions@),
        decreases out@.len(), changed as int,
    {
        let ghost start = out@;
        let before: usize = out.len();
        let mut i: usize = 0;
        while i < out.len()
            invariant
                swept(start, 0) == swept(out@, i as int),
                out@.len() <= before == start.len(),
            decreases out@.len() - i,
        {
            absorb(&mut out, i);
            i += 1;
        }
        assert(out@ == swept(start, 0));
        changed = out.len() < before;
        proof {
            if !changed {
                lemma_swept_unchanged(start, 0);
            }
        }
    }
    out
}

proof fn lemma_absorbed_unchanged(s: Seq<BackgroundRegion>, i: int, j: int)
    requires
        0 <= i < j,
        absorbed(s, i, j).len() == s.len(),
    ensures
        absorbed(s, i, j) == s,
    decreases s.len() - j,
{
    if j < s.len() {
        if s[i].mergeable(s[j]) {
            lemma_absorbed_len(s.remove(j).update(i, s[i].joined_with(s[j])), i, j);
        } else {
            lemma_absorbed_unchanged(s, i, j + 1);
        }
    }
}

proof fn lemma_swept_unchanged(s: Seq<BackgroundRegion>, i: int)
    requires
        0 <= i,
        swept(s, i).len() == s.len(),
    ensures
        swept(s, i) == s,
    decreases s.len() - i,
{
    if i < s.len() {
        lemma_absorbed_len(s, i, i + 1);
        lemma_swept_len(absorbed(s, i, i + 1), i + 1);
        lemma_absorbed_unchanged(s, i, i + 1);
        lemma_swept_unchanged(s, i + 1);
    }
}

proof fn lemma_none_absorbed(s: Seq<BackgroundRegion>, i: int, j: int, k: int)
    requires
        0 <= i < j <= k < s.len(),
        absorbed(s, i, j).len() == s.len(),
    ensures
        !s[i].mergeable(s[k]),
    decreases s.len() - j,
{
    if s[i].mergeable(s[j]) {
        lemma_absorbed_len(s.remove(j).update(i, s[i].joined_with(s[j])), i, j);
    } else if j < k {
        lemma_none_absorbed(s, i, j + 1, k);
    }
}

proof fn lemma_none_swept(s: Seq<BackgroundRegion>, from: int, i: int, k: int)
    requires
        0 <= from <= i < k < s.len(),
        swept(s, from).len() == s.len(),
    ensures
        !s[i].mergeable(s[k]),
    decreases i - from,
{
    lemma_absorbed_len(s, from, from + 1);
    lemma_swept_len(absorbed(s, from, from + 1), from + 1);
    lemma_absorbed_unchanged(s, from, from + 1);
    if from < i {
        lemma_none_swept(s, from + 1, i, k);
    } else {
        lemma_none_absorbed(s, i, i + 1, k);
    }
}

/// What has been merged cannot be merged any further: no two of the rectangles have one colour and lie
/// side by side along a whole edge.
pub proof fn lemma_nothing_left_to_merge(s: Seq<BackgroundRegion>, i: int, j: int)
    requires
        0 <= i < j < merged(s).len(),
        merged(s)[i].color == merged(s)[j].color,
    ensures
        ({
            let a = merged(s)[i];
            let b = merged(s)[j];
            &&& a.start_line == b.start_line && a.end_line == b.end_line ==> a.end_col + 1 != b.start_col && b.end_col
                + 1 != a.start_col
            &&& a.start_col == b.start_col && a.end_col == b.end_col && !(a.start_line == b.start_line && a.end_line
                == b.end_line) ==> a.end_line + 1 != b.start_line && b.end_line + 1 != a.start_line
        }),
    decreases s.len(),
{
    if swept(s, 0).len() < s.len() {
        lemma_nothing_left_to_merge(swept(s, 0), i, j);
    } else {
        lemma_swept_len(s, 0);
        lemma_none_swept(s, 0, i, j);
    }
}

} // verus!
