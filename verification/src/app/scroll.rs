//! Scrolling the diff pane.
//!
//! Every offset here is clamped against the rendered height the UI reports, so
//! the pane cannot be scrolled past its own content into blank space. The
//! height comes from the draw pass rather than being recomputed, so the two
//! never disagree about how far the diff may scroll.

use vstd::prelude::*;
use vstd::view::View as _;

use crate::app::{App, View};
use crate::config::keys::ACTION_COUNT;
use crate::model::Diff;
use crate::split::{every_line_has_a_row, holds, pair, paired, SplitRow};
use crate::ui::help_line_count;

verus! {

/// A number, or the largest that a `u16` holds.
pub open spec fn capped(n: int) -> u16 {
    if n <= u16::MAX {
        n as u16
    } else {
        u16::MAX
    }
}

pub(crate) fn cap(n: usize) -> (r: u16)
    ensures
        r == capped(n as int),
{
    if n <= u16::MAX as usize {
        n as u16
    } else {
        u16::MAX
    }
}

/// How many lines the diff pane has to show. The placeholder states are two
/// lines of prose.
pub open spec fn line_count(diff: Diff) -> int {
    match diff {
        Diff::Text(lines) => lines@.len() as int,
        _ => 2,
    }
}

/// How many rows the diff pane draws.
pub open spec fn row_count(app: App) -> int {
    match app.data.diff {
        Diff::Text(lines) if app.view.split_diff => paired(lines@, 0).len() as int,
        _ => line_count(app.data.diff),
    }
}

/// The first row from the `i`-th on that a line of the diff stands on.
pub open spec fn row_holding(rows: Seq<SplitRow>, line: usize, i: int) -> Option<int>
    decreases rows.len() - i,
{
    if i < 0 || i >= rows.len() {
        None
    } else if holds(rows[i], line) {
        Some(i)
    } else {
        row_holding(rows, line, i + 1)
    }
}

/// Which row the cursor in the diff is drawn on.
pub open spec fn row_of_cursor(app: App) -> int {
    let at = app.view.diff_cursor;
    match app.data.diff {
        Diff::Text(lines) if app.view.split_diff => match row_holding(paired(lines@, 0), at, 0) {
            Some(i) => i,
            None => at as int,
        },
        _ => at as int,
    }
}

/// How far something of so many rows scrolls while keeping content on screen.
pub open spec fn furthest(rows: u16, viewport: u16) -> u16 {
    let height = if viewport < 1 {
        1
    } else {
        viewport
    };
    if rows > height {
        (rows - height) as u16
    } else {
        0
    }
}

fn furthest_scroll(rows: u16, viewport: u16) -> (r: u16)
    ensures
        r == furthest(rows, viewport),
{
    let height = if viewport < 1 {
        1
    } else {
        viewport
    };
    rows.saturating_sub(height)
}

/// How far a page scrolls: almost a screen.
pub open spec fn page(viewport: u16) -> int {
    if viewport > 3 {
        viewport - 2
    } else {
        1
    }
}

fn page_step(viewport: u16) -> (r: u16)
    ensures
        r == page(viewport),
{
    if viewport > 3 {
        viewport - 2
    } else {
        1
    }
}

/// A place moved by so many rows, and kept between the first and the last.
pub open spec fn wound(at: u16, by: int, max: u16) -> u16 {
    if at + by < 0 {
        0
    } else if at + by > max {
        max
    } else {
        (at + by) as u16
    }
}

impl App {
    /// Total lines the diff pane could render for the current selection.
    ///
    /// The scroll offset is clamped against this so the pane cannot be scrolled
    /// past its own content into blank space.
    pub fn diff_line_count(&self) -> (r: u16)
        ensures
            r == capped(line_count(self.data.diff)),
    {
        match &self.data.diff {
            Diff::Text(lines) => cap(lines.len()),
            _ => 2,
        }
    }

    /// How many rows the diff pane will actually draw for the current view.
    ///
    /// The split view pairs a run of removals with the additions that replace
    /// them, so three lines becoming one is three rows rather than four.
    /// Scrolling counts what is drawn: clamping the split against the unified
    /// line count would let the pane run off the end of its own rows into blank
    /// space.
    pub fn scroll_rows(&self) -> (r: u16)
        ensures
            r == capped(row_count(*self)),
    {
        match &self.data.diff {
            Diff::Text(lines) => if self.view.split_diff {
                cap(pair(lines).len())
            } else {
                cap(lines.len())
            },
            _ => 2,
        }
    }

    /// Where a diff line sits once the split has paired it away.
    ///
    /// The cursor names a line of the unified diff even while the split is up,
    /// because that is what a note is pinned to. Everything that positions the
    /// cursor against the scroll offset has to ask for its row first, or the
    /// two are comparing different units.
    pub fn cursor_row(&self) -> (r: usize)
        ensures
            r == row_of_cursor(*self),
    {
        let at = self.view.diff_cursor;
        match &self.data.diff {
            Diff::Text(lines) => if self.view.split_diff {
                row_at(&pair(lines), at)
            } else {
                at
            },
            _ => at,
        }
    }

    /// The furthest the diff can scroll while keeping content on screen.
    ///
    /// `viewport` is the rendered height; leaving the last screenful visible is
    /// what stops the pane from going blank.
    fn max_diff_scroll(&self, viewport: u16) -> (r: u16)
        ensures
            r == furthest(capped(row_count(*self)), viewport),
    {
        furthest_scroll(self.scroll_rows(), viewport)
    }

    pub fn scroll_diff_down(self, viewport: u16) -> (r: Self)
        ensures
            r == (App {
                view: View {
                    diff_scroll: wound(
                        self.view.diff_scroll,
                        1,
                        furthest(capped(row_count(self)), viewport),
                    ),
                    ..self.view
                },
                ..self
            }),
    {
        self.scrolled_down(1, viewport)
    }

    fn scrolled_down(self, step: u16, viewport: u16) -> (r: Self)
        ensures
            r == (App {
                view: View {
                    diff_scroll: wound(
                        self.view.diff_scroll,
                        step as int,
                        furthest(capped(row_count(self)), viewport),
                    ),
                    ..self.view
                },
                ..self
            }),
    {
        let max = self.max_diff_scroll(viewport);
        let to = self.view.diff_scroll.saturating_add(step);
        let diff_scroll = if to < max {
            to
        } else {
            max
        };
        App { view: View { diff_scroll, ..self.view }, ..self }
    }

    pub fn scroll_diff_up(self) -> (r: Self)
        ensures
            r == (App {
                view: View {
                    diff_scroll: wound(self.view.diff_scroll, -1, u16::MAX),
                    ..self.view
                },
                ..self
            }),
    {
        App {
            view: View { diff_scroll: self.view.diff_scroll.saturating_sub(1), ..self.view },
            ..self
        }
    }

    /// Scroll a whole screen at a time.
    pub fn page_diff_down(self, viewport: u16) -> (r: Self)
        ensures
            r == (App {
                view: View {
                    diff_scroll: wound(
                        self.view.diff_scroll,
                        page(viewport),
                        furthest(capped(row_count(self)), viewport),
                    ),
                    ..self.view
                },
                ..self
            }),
    {
        self.scrolled_down(page_step(viewport), viewport)
    }

    pub fn page_diff_up(self, viewport: u16) -> (r: Self)
        ensures
            r == (App {
                view: View {
                    diff_scroll: wound(self.view.diff_scroll, -page(viewport), u16::MAX),
                    ..self.view
                },
                ..self
            }),
    {
        let step = page_step(viewport);
        App {
            view: View { diff_scroll: self.view.diff_scroll.saturating_sub(step), ..self.view },
            ..self
        }
    }

    /// Jump to the top of the diff. Nothing but the view is touched: the notes
    /// and whatever is being typed stay as they are.
    pub fn scroll_diff_home(self) -> (r: Self)
        ensures
            r == (App { view: View { diff_scroll: 0, diff_cursor: 0, ..self.view }, ..self }),
    {
        App { view: View { diff_scroll: 0, diff_cursor: 0, ..self.view }, ..self }
    }

    /// Jump to the end of the diff.
    pub fn scroll_diff_end(self, viewport: u16) -> (r: Self)
        ensures
            r == (App {
                view: View {
                    diff_scroll: furthest(capped(row_count(self)), viewport),
                    ..self.view
                },
                ..self
            }),
    {
        let diff_scroll = self.max_diff_scroll(viewport);
        App { view: View { diff_scroll, ..self.view }, ..self }
    }

    /// The furthest the key reference can scroll while keeping rows on screen.
    ///
    /// Clamped against the reference's own length rather than the diff's: the
    /// two share the pane but not their content, and a reference clamped
    /// against a one-line diff could not scroll at all.
    fn max_help_scroll(&self, viewport: u16) -> (r: u16)
        ensures
            r == furthest(ACTION_COUNT, viewport),
    {
        furthest_scroll(help_line_count(&self.data.bindings), viewport)
    }

    /// Wind the key reference by `delta` rows, positive for down.
    ///
    /// One entry point for both directions and both step sizes, because every
    /// caller wants the same clamping and only the distance differs.
    pub fn scroll_help(self, delta: i32, viewport: u16) -> (r: Self)
        ensures
            r == (App {
                view: View {
                    help_scroll: wound(
                        self.view.help_scroll,
                        delta as int,
                        furthest(ACTION_COUNT, viewport),
                    ),
                    ..self.view
                },
                ..self
            }),
    {
        let max = self.max_help_scroll(viewport);
        let at: i64 = self.view.help_scroll as i64 + delta as i64;
        let help_scroll = if at < 0 {
            0
        } else if at > max as i64 {
            max
        } else {
            at as u16
        };
        App { view: View { help_scroll, ..self.view }, ..self }
    }

    /// Jump to the top or the bottom of the key reference.
    pub fn scroll_help_to(self, end: bool, viewport: u16) -> (r: Self)
        ensures
            r == (App {
                view: View {
                    help_scroll: if end {
                        furthest(ACTION_COUNT, viewport)
                    } else {
                        0
                    },
                    ..self.view
                },
                ..self
            }),
    {
        let help_scroll = if end {
            self.max_help_scroll(viewport)
        } else {
            0
        };
        App { view: View { help_scroll, ..self.view }, ..self }
    }
}

/// The row that a line of the diff stands on, or the line's own number where it
/// stands on none.
fn row_at(rows: &Vec<SplitRow>, line: usize) -> (r: usize)
    ensures
        r == (match row_holding(rows@, line, 0) {
            Some(i) => i,
            None => line as int,
        }),
{
    for i in 0..rows.len()
        invariant
            row_holding(rows@, line, 0) == row_holding(rows@, line, i as int),
    {
        if rows[i].old == Some(line) || rows[i].new == Some(line) {
            return i;
        }
    }
    line
}

proof fn lemma_row_holding(rows: Seq<SplitRow>, line: usize, i: int, k: int)
    requires
        0 <= i <= k < rows.len(),
        holds(rows[k], line),
    ensures
        row_holding(rows, line, i) matches Some(r) && r < rows.len() && holds(rows[r], line),
    decreases k - i,
{
    if !holds(rows[i], line) {
        lemma_row_holding(rows, line, i + 1, k);
    }
}

/// While the cursor is on a line of the diff, the row it is drawn on is one of
/// the rows that the pane draws.
pub proof fn the_cursor_is_on_a_drawn_row(app: App)
    requires
        app.data.diff is Text,
        app.view.diff_cursor < app.data.diff.lines().len(),
    ensures
        0 <= row_of_cursor(app) < row_count(app),
{
    if app.view.split_diff {
        let lines = app.data.diff.lines();
        let at = app.view.diff_cursor;
        every_line_has_a_row(lines, 0, at);
        let rows = paired(lines, 0);
        let k = choose|k: int| 0 <= k < rows.len() && holds(#[trigger] rows[k], at);
        lemma_row_holding(rows, at, 0, k);
        lemma_row_holding_bound(rows, at, 0);
    }
}

proof fn lemma_row_holding_bound(rows: Seq<SplitRow>, line: usize, i: int)
    requires
        0 <= i,
    ensures
        row_holding(rows, line, i) matches Some(r) ==> i <= r < rows.len(),
    decreases rows.len() - i,
{
    if i < rows.len() && !holds(rows[i], line) {
        lemma_row_holding_bound(rows, line, i + 1);
    }
}

/// Nothing scrolls past the last screenful: wherever scrolling down ends, the
/// pane is not blank below what it shows.
pub proof fn scrolling_stops_at_the_last_screenful(at: u16, by: int, rows: u16, viewport: u16)
    requires
        rows > 0,
    ensures
        wound(at, by, furthest(rows, viewport)) < rows,
        rows >= viewport ==> wound(at, by, furthest(rows, viewport)) + viewport <= rows,
        rows <= viewport ==> wound(at, by, furthest(rows, viewport)) == 0,
{
}

} // verus!
