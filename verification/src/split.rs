//! Laying a diff out as old text beside new.
//!
//! A run of removals is paired with the additions that replace it, line by
//! line, so what changed stands opposite what it became. Everything else is on
//! both sides.

use vstd::prelude::*;

use crate::intraline::{lemma_run_end, run_end, run_of};
use crate::model::{DiffLine, DiffLineKind};

pub mod sides;

verus! {

/// One row of the split: which line of the diff stands on each side.
#[derive(Debug, Clone, Copy, PartialEq, Eq, Structural)]
pub struct SplitRow {
    pub old: Option<usize>,
    pub new: Option<usize>,
}

/// The removals from `i` to `m` opposite the additions from `m` to `n`.
pub open spec fn opposite(i: int, m: int, n: int) -> Seq<SplitRow> {
    Seq::new(
        (if m - i < n - m {
            n - m
        } else {
            m - i
        }) as nat,
        |k: int|
            SplitRow {
                old: if i + k < m {
                    Some((i + k) as usize)
                } else {
                    None
                },
                new: if m + k < n {
                    Some((m + k) as usize)
                } else {
                    None
                },
            },
    )
}

/// The rows of a diff from its `i`-th line on.
pub open spec fn paired(lines: Seq<DiffLine>, i: int) -> Seq<SplitRow>
    decreases lines.len() - i,
{
    if i < 0 || i >= lines.len() {
        Seq::empty()
    } else {
        let m = run_end(lines, i, DiffLineKind::Removed);
        let n = run_end(lines, m, DiffLineKind::Added);
        if i < n <= lines.len() {
            opposite(i, m, n) + paired(lines, n)
        } else {
            seq![SplitRow { old: Some(i as usize), new: Some(i as usize) }] + paired(lines, i + 1)
        }
    }
}

/// The rows a diff is drawn as when it is split.
pub fn pair(lines: &Vec<DiffLine>) -> (r: Vec<SplitRow>)
    ensures
        r@ == paired(lines@, 0),
{
    let mut rows: Vec<SplitRow> = Vec::new();
    let mut i: usize = 0;
    assert(rows@ + paired(lines@, 0) =~= paired(lines@, 0));
    while i < lines.len()
        invariant
            i <= lines@.len(),
            rows@ + paired(lines@, i as int) == paired(lines@, 0),
        decreases lines@.len() - i,
    {
        let m = run_of(lines, i, DiffLineKind::Removed);
        let n = run_of(lines, m, DiffLineKind::Added);
        let ghost before = rows@;
        if n > i {
            let mut k: usize = 0;
            let ghost block = opposite(i as int, m as int, n as int);
            while k < m - i || k < n - m
                invariant
                    i <= m <= n <= lines@.len(),
                    k <= block.len(),
                    lines@.len() <= usize::MAX,
                    block == opposite(i as int, m as int, n as int),
                    rows@ =~= before + block.take(k as int),
                decreases block.len() - k,
            {
                rows.push(
                    SplitRow {
                        old: if k < m - i {
                            Some(i + k)
                        } else {
                            None
                        },
                        new: if k < n - m {
                            Some(m + k)
                        } else {
                            None
                        },
                    },
                );
                k += 1;
            }
            assert(block.take(k as int) =~= block);
            assert(rows@ + paired(lines@, n as int) =~= before + paired(lines@, i as int));
            i = n;
        } else {
            rows.push(SplitRow { old: Some(i), new: Some(i) });
            assert(rows@ + paired(lines@, i + 1) =~= before + paired(lines@, i as int));
            i += 1;
        }
    }
    assert(rows@ =~= rows@ + paired(lines@, i as int));
    rows
}

/// Whether a line of the diff stands on a row.
pub open spec fn holds(row: SplitRow, line: usize) -> bool {
    row.old == Some(line) || row.new == Some(line)
}

/// Splitting a diff never takes more rows than it has lines.
pub proof fn pairing_never_adds_rows(lines: Seq<DiffLine>, i: int)
    requires
        0 <= i <= lines.len(),
    ensures
        paired(lines, i).len() <= lines.len() - i,
    decreases lines.len() - i,
{
    if i < lines.len() {
        let m = run_end(lines, i, DiffLineKind::Removed);
        lemma_run_end(lines, i, DiffLineKind::Removed);
        let n = run_end(lines, m, DiffLineKind::Added);
        lemma_run_end(lines, m, DiffLineKind::Added);
        if i < n {
            pairing_never_adds_rows(lines, n);
        } else {
            pairing_never_adds_rows(lines, i + 1);
        }
    }
}

/// No line of a diff is lost when it is split.
pub proof fn every_line_has_a_row(lines: Seq<DiffLine>, i: int, line: usize)
    requires
        0 <= i <= line < lines.len(),
    ensures
        exists|k: int| 0 <= k < paired(lines, i).len() && holds(#[trigger] paired(lines, i)[k], line),
    decreases lines.len() - i,
{
    let m = run_end(lines, i, DiffLineKind::Removed);
    lemma_run_end(lines, i, DiffLineKind::Removed);
    let n = run_end(lines, m, DiffLineKind::Added);
    lemma_run_end(lines, m, DiffLineKind::Added);
    let rows = paired(lines, i);
    if i < n {
        let block = opposite(i, m, n);
        if line < n {
            let k = if line < m {
                line - i
            } else {
                line - m
            };
            assert(rows[k] == block[k]);
            assert(holds(rows[k], line));
        } else {
            every_line_has_a_row(lines, n, line);
            let rest = paired(lines, n);
            let k = choose|k: int| 0 <= k < rest.len() && holds(#[trigger] rest[k], line);
            assert(rows[block.len() + k] == rest[k]);
        }
    } else if line == i {
        assert(holds(rows[0], line));
    } else {
        every_line_has_a_row(lines, i + 1, line);
        let rest = paired(lines, i + 1);
        let k = choose|k: int| 0 <= k < rest.len() && holds(#[trigger] rest[k], line);
        assert(rows[1 + k] == rest[k]);
    }
}

} // verus!
