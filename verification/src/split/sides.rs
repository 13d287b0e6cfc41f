//! What stands on which side of a split diff.

use vstd::prelude::*;

use crate::intraline::marking::changed_lines_pair_by_their_places;
use crate::intraline::{
    lemma_run_end, lemma_run_start_bound, lemma_run_start_in, partner, run_end,
};
use crate::model::{DiffLine, DiffLineKind};
use crate::split::{opposite, paired, SplitRow};

verus! {

/// Whether a row shows lines of a diff from `i` on where they belong: what was
/// removed on the old side alone, what was added on the new side alone, and
/// everything else on both sides. Two lines face each other only where one takes
/// the other's place.
pub open spec fn in_its_place(row: SplitRow, lines: Seq<DiffLine>, i: int) -> bool {
    &&& row.old is Some || row.new is Some
    &&& row.old matches Some(a) ==> i <= a < lines.len() && lines[a as int].kind
        != DiffLineKind::Added && (lines[a as int].kind != DiffLineKind::Removed ==> row.new
        == Some(a))
    &&& row.new matches Some(b) ==> i <= b < lines.len() && lines[b as int].kind
        != DiffLineKind::Removed && (lines[b as int].kind != DiffLineKind::Added ==> row.old
        == Some(b))
    &&& row.old is Some && row.new is Some && row.old != row.new ==> partner(
        lines,
        row.old->0 as int,
    ) == Some(row.new->0 as int)
    &&& row.old is Some && row.new is None ==> partner(lines, row.old->0 as int) is None
    &&& row.new is Some && row.old is None ==> partner(lines, row.new->0 as int) is None
}

/// Whether one row comes before another on both sides.
pub open spec fn above(a: SplitRow, b: SplitRow) -> bool {
    &&& a.old is Some && b.old is Some ==> a.old->0 < b.old->0
    &&& a.new is Some && b.new is Some ==> a.new->0 < b.new->0
}

/// Whether rows are where lines of a diff from `i` on belong, and each side reads
/// downwards.
pub open spec fn on_their_sides(rows: Seq<SplitRow>, lines: Seq<DiffLine>, i: int) -> bool {
    &&& forall|k: int| 0 <= k < rows.len() ==> in_its_place(#[trigger] rows[k], lines, i)
    &&& forall|j: int, k: int|
        0 <= j < k < rows.len() ==> above(#[trigger] rows[j], #[trigger] rows[k])
}

/// Whether no run of changes goes on at `i` that started before.
spec fn starts_anew(lines: Seq<DiffLine>, i: int) -> bool {
    0 < i < lines.len() ==> !(lines[i - 1].kind == DiffLineKind::Removed && (lines[i].kind
        == DiffLineKind::Removed || lines[i].kind == DiffLineKind::Added)) && !(lines[i - 1].kind
        == DiffLineKind::Added && lines[i].kind == DiffLineKind::Added)
}

/// Whether a row shows nothing from `n` on.
spec fn ends_before(row: SplitRow, n: int) -> bool {
    (row.old matches Some(a) ==> a < n) && (row.new matches Some(b) ==> b < n)
}

proof fn lemma_block(lines: Seq<DiffLine>, i: int, m: int, n: int)
    requires
        0 <= i < n <= lines.len(),
        lines.len() <= usize::MAX,
        starts_anew(lines, i),
        m == run_end(lines, i, DiffLineKind::Removed),
        n == run_end(lines, m, DiffLineKind::Added),
    ensures
        on_their_sides(opposite(i, m, n), lines, i),
        forall|k: int| 0 <= k < opposite(i, m, n).len() ==> ends_before(#[trigger] opposite(i, m, n)[k], n),
{
    lemma_run_end(lines, i, DiffLineKind::Removed);
    lemma_run_end(lines, m, DiffLineKind::Added);
    let block = opposite(i, m, n);
    assert forall|k: int| 0 <= k < block.len() implies in_its_place(#[trigger] block[k], lines, i) by {
        if i < m && m < n {
            if i + k < m {
                changed_lines_pair_by_their_places(lines, i, m, n, i + k);
            }
            if m + k < n {
                changed_lines_pair_by_their_places(lines, i, m, n, m + k);
            }
        } else if i < m {
            lemma_alone_removed(lines, i, m, i + k);
        } else {
            lemma_alone_added(lines, i, n, i + k);
        }
    }
}

proof fn lemma_appended(block: Seq<SplitRow>, rest: Seq<SplitRow>, lines: Seq<DiffLine>, i: int, n: int)
    requires
        i <= n,
        on_their_sides(block, lines, i),
        on_their_sides(rest, lines, n),
        forall|k: int| 0 <= k < block.len() ==> ends_before(#[trigger] block[k], n),
    ensures
        on_their_sides(block + rest, lines, i),
{
    let rows = block + rest;
    assert forall|k: int| 0 <= k < rows.len() implies in_its_place(#[trigger] rows[k], lines, i) by {
        if k < block.len() {
            assert(in_its_place(block[k], lines, i));
        } else {
            assert(in_its_place(rest[k - block.len()], lines, n));
        }
    }
    assert forall|j: int, k: int| 0 <= j < k < rows.len() implies above(
        #[trigger] rows[j],
        #[trigger] rows[k],
    ) by {
        if k < block.len() {
            assert(above(block[j], block[k]));
        } else if j < block.len() {
            assert(ends_before(block[j], n));
            assert(in_its_place(rest[k - block.len()], lines, n));
        } else {
            assert(above(rest[j - block.len()], rest[k - block.len()]));
        }
    }
}

proof fn lemma_sides(lines: Seq<DiffLine>, i: int)
    requires
        0 <= i <= lines.len(),
        lines.len() <= usize::MAX,
        starts_anew(lines, i),
    ensures
        on_their_sides(paired(lines, i), lines, i),
    decreases lines.len() - i,
{
    if i < lines.len() {
        let m = run_end(lines, i, DiffLineKind::Removed);
        lemma_run_end(lines, i, DiffLineKind::Removed);
        let n = run_end(lines, m, DiffLineKind::Added);
        lemma_run_end(lines, m, DiffLineKind::Added);
        if i < n {
            lemma_block(lines, i, m, n);
            lemma_sides(lines, n);
            lemma_appended(opposite(i, m, n), paired(lines, n), lines, i, n);
        } else {
            let one = seq![SplitRow { old: Some(i as usize), new: Some(i as usize) }];
            assert(in_its_place(one[0], lines, i));
            lemma_sides(lines, i + 1);
            lemma_appended(one, paired(lines, i + 1), lines, i, i + 1);
        }
    }
}

proof fn lemma_alone_removed(lines: Seq<DiffLine>, start: int, end: int, i: int)
    requires
        0 <= start <= i < end <= lines.len(),
        lines[i].kind == DiffLineKind::Removed,
        run_end(lines, start, DiffLineKind::Removed) == end,
        run_end(lines, end, DiffLineKind::Added) == end,
    ensures
        partner(lines, i) is None,
{
    lemma_run_end(lines, start, DiffLineKind::Removed);
    assert(run_end(lines, i, DiffLineKind::Removed) == end);
    lemma_run_start_bound(lines, i, DiffLineKind::Removed);
}

proof fn lemma_alone_added(lines: Seq<DiffLine>, start: int, end: int, i: int)
    requires
        0 <= start <= i < end <= lines.len(),
        starts_anew(lines, start),
        run_end(lines, start, DiffLineKind::Added) == end,
    ensures
        partner(lines, i) is None,
{
    lemma_run_end(lines, start, DiffLineKind::Added);
    assert(lines[start].kind == DiffLineKind::Added);
    lemma_run_start_in(lines, start, i, DiffLineKind::Added);
    lemma_run_start_in(lines, start, start, DiffLineKind::Removed);
}

/// Every row of a split diff shows its lines on their sides, and opposite what
/// they take the place of.
pub proof fn lines_stand_on_their_sides(lines: Seq<DiffLine>)
    requires
        lines.len() <= usize::MAX,
    ensures
        on_their_sides(paired(lines, 0), lines, 0),
{
    lemma_sides(lines, 0);
}

} // verus!
