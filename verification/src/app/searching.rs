//! Searching inside the diff pane.
//!
//! Distinct from the filter line, which decides which files to show: this
//! decides where to look inside one of them. A two-thousand-line diff has no
//! other way of answering "where is that function".
//!
//! The search moves the same mark the annotation cursor uses, so finding a line
//! leaves it ready to be annotated.

use vstd::prelude::*;
use vstd::string::*;
use vstd::view::View as _;

use crate::app::annotating::in_view;
use crate::app::{noticed, says, App, Input, Notice, Search, View};
use crate::filter::is_sensitive;
use crate::model::{Diff, DiffLine};
use crate::text::{
    chars_of, has_text, lower_text, lowercase_text, push_char, without_last,
};

pub mod order;

verus! {

/// Which way a search goes.
#[derive(Clone, Copy, PartialEq, Eq, Structural)]
pub enum Direction {
    Forward,
    Backward,
}

/// Whether a line holds a query: whatever the case, until the query has a
/// capital in it — the same smart-case rule the file filter uses.
pub open spec fn found_in(line: Seq<char>, query: Seq<char>) -> bool {
    if is_sensitive(query) {
        has_text(line, query)
    } else {
        has_text(lowercase_text(line), lowercase_text(query))
    }
}

/// Whether `line` contains `query`, case-insensitively until the query has a
/// capital in it.
fn contains(line: &str, query: &str) -> (r: bool)
    ensures
        r == found_in(line@, query@),
{
    if crate::filter::sensitive_to_case(&chars_of(query)) {
        crate::text::contains(line, query)
    } else {
        crate::text::contains(lower_text(line).as_str(), lower_text(query).as_str())
    }
}

/// The line that is so many steps from another, going round at the ends.
pub open spec fn stepped(start: int, step: int, count: int, direction: Direction) -> int {
    match direction {
        Direction::Forward => if start + step < count {
            start + step
        } else {
            start + step - count
        },
        Direction::Backward => if step <= start {
            start - step
        } else {
            start + count - step
        },
    }
}

/// The first line that holds a query, from `step` steps after `start` on, going
/// round once.
pub open spec fn hit(
    lines: Seq<DiffLine>,
    query: Seq<char>,
    start: int,
    direction: Direction,
    step: int,
) -> Option<int>
    decreases lines.len() - step,
{
    let at = stepped(start, step, lines.len() as int, direction);
    if step < 0 || step >= lines.len() {
        None
    } else if found_in(lines[at].text@, query) {
        Some(at)
    } else {
        hit(lines, query, start, direction, step + 1)
    }
}

/// Where a repeated search starts: one line on from the mark, going round at the
/// ends.
pub open spec fn next_start(cursor: usize, count: int, direction: Direction) -> int {
    match direction {
        Direction::Forward => if cursor as int % count + 1 == count {
            0
        } else {
            cursor as int % count + 1
        },
        Direction::Backward => if cursor == 0 {
            count - 1
        } else {
            (cursor - 1) % count
        },
    }
}

/// The line that a repeated search goes to.
pub open spec fn next_hit(app: App, direction: Direction) -> Option<int> {
    let lines = app.data.diff.lines();
    if lines.len() == 0 {
        None
    } else {
        hit(
            lines,
            app.input.search.query@,
            next_start(app.view.diff_cursor, lines.len() as int, direction),
            direction,
            0,
        )
    }
}

/// Whether an app is another one with its mark on the next match, which says so
/// when the search came back round, so that landing above where the user was
/// reading is explained rather than surprising.
pub open spec fn jumped(before: App, direction: Direction, viewport: u16, after: App) -> bool {
    if before.input.search.query@.len() == 0 {
        noticed(before, after, "no search to repeat"@, true)
    } else {
        match next_hit(before, direction) {
            None => noticed(before, after, before.input.search.query@ + " not found"@, true),
            Some(at) => {
                let wrapped = match direction {
                    Direction::Forward => at < before.view.diff_cursor,
                    Direction::Backward => at > before.view.diff_cursor,
                };
                &&& if wrapped {
                    says(after.view.notice, "wrapped"@, false)
                } else {
                    after.view.notice is None
                }
                &&& in_view(
                    App {
                        view: View {
                            diff_cursor: at as usize,
                            notice: after.view.notice,
                            ..before.view
                        },
                        ..before
                    },
                    viewport,
                    after,
                )
            },
        }
    }
}

/// Whether an app is another one that searches for what is being typed: the mark
/// goes to the first match at or below it.
pub open spec fn searching(before: App, search: Search, viewport: u16, after: App) -> bool {
    let lines = before.data.diff.lines();
    let typed = App { input: Input { search, ..before.input }, ..before };
    let found = if search.query@.len() == 0 || lines.len() == 0 {
        None
    } else {
        hit(
            lines,
            search.query@,
            before.view.diff_cursor as int % lines.len() as int,
            Direction::Forward,
            0,
        )
    };
    match found {
        None => after == typed,
        Some(at) => in_view(
            App { view: View { diff_cursor: at as usize, ..typed.view }, ..typed },
            viewport,
            after,
        ),
    }
}

/// How many of the first `n` lines hold a query.
pub open spec fn hits(lines: Seq<DiffLine>, query: Seq<char>, n: int) -> int
    decreases n,
{
    if n <= 0 || n > lines.len() {
        0
    } else {
        hits(lines, query, n - 1) + (if found_in(lines[n - 1].text@, query) {
            1int
        } else {
            0
        })
    }
}

/// The first line that holds a query, from `start` on, going round once.
fn find(lines: &Vec<DiffLine>, query: &str, start: usize, direction: Direction) -> (r: Option<usize>)
    requires
        start < lines@.len(),
    ensures
        match (r, hit(lines@, query@, start as int, direction, 0)) {
            (Some(i), Some(at)) => i == at && i < lines@.len(),
            (None, None) => true,
            _ => false,
        },
{
    let count: usize = lines.len();
    for step in 0..count
        invariant
            count == lines@.len(),
            start < count,
            hit(lines@, query@, start as int, direction, 0) == hit(
                lines@,
                query@,
                start as int,
                direction,
                step as int,
            ),
    {
        let at: usize = match direction {
            Direction::Forward => if step < count - start {
                start + step
            } else {
                step - (count - start)
            },
            Direction::Backward => if step <= start {
                start - step
            } else {
                count - (step - start)
            },
        };
        if contains(lines[at].text.as_str(), query) {
            return Some(at);
        }
    }
    None
}

impl App {
    /// Open the search line, keeping whatever query was last used.
    ///
    /// Reopening with the previous text makes repeating a search cheap.
    pub fn begin_search(self) -> (r: Self)
        ensures
            r == (App {
                input: Input {
                    search: Search { editing: true, ..self.input.search },
                    ..self.input
                },
                ..self
            }),
    {
        let search = Search { editing: true, ..self.input.search };
        App { input: Input { search, ..self.input }, ..self }
    }

    /// Add a character to the query and jump to the first match below the mark.
    ///
    /// Searching as the query grows means the pane shows what is being looked
    /// for before the user commits to it.
    pub fn search_push(self, c: char, viewport: u16) -> (r: Self)
        ensures
            !self.input.search.editing ==> r == self,
            self.input.search.editing ==> {
                &&& r.input.search.query@ == self.input.search.query@.push(c)
                &&& r.input.search.editing
                &&& searching(self, r.input.search, viewport, r)
            },
    {
        if !self.input.search.editing {
            return self;
        }
        let query = push_char(self.input.search.query.as_str(), c);
        self.with_search_query(query, viewport)
    }

    pub fn search_backspace(self, viewport: u16) -> (r: Self)
        ensures
            !self.input.search.editing ==> r == self,
            self.input.search.editing ==> {
                &&& r.input.search.query@ == (if self.input.search.query@.len() > 0 {
                    self.input.search.query@.drop_last()
                } else {
                    self.input.search.query@
                })
                &&& r.input.search.editing
                &&& searching(self, r.input.search, viewport, r)
            },
    {
        if !self.input.search.editing {
            return self;
        }
        let query = without_last(self.input.search.query.as_str());
        self.with_search_query(query, viewport)
    }

    /// Close the search line, keeping the query so `n` can repeat it.
    pub fn accept_search(self) -> (r: Self)
        ensures
            r == (App {
                input: Input {
                    search: Search { editing: false, ..self.input.search },
                    ..self.input
                },
                ..self
            }),
    {
        let search = Search { editing: false, ..self.input.search };
        App { input: Input { search, ..self.input }, ..self }
    }

    /// Abandon the search and forget the query.
    pub fn cancel_search(self) -> (r: Self)
        ensures
            r.input.search.at_rest(),
            r == (App { input: Input { search: r.input.search, ..self.input }, ..self }),
    {
        App { input: Input { search: Search::default(), ..self.input }, ..self }
    }

    /// Move the mark to the next match below it, wrapping at the end.
    ///
    /// Wrapping rather than stopping: a search that silently did nothing at the
    /// last match would read as a broken key rather than as the end of the
    /// diff, and the notice says which happened.
    pub fn search_next(self, viewport: u16) -> (r: Self)
        ensures
            jumped(self, Direction::Forward, viewport, r),
    {
        self.jump(Direction::Forward, viewport)
    }

    /// Move the mark to the previous match above it, wrapping at the start.
    pub fn search_previous(self, viewport: u16) -> (r: Self)
        ensures
            jumped(self, Direction::Backward, viewport, r),
    {
        self.jump(Direction::Backward, viewport)
    }

    /// How many lines of the current diff contain the query.
    pub fn search_hits(&self) -> (r: usize)
        ensures
            r == (if self.input.search.query@.len() == 0 {
                0
            } else {
                hits(
                    self.data.diff.lines(),
                    self.input.search.query@,
                    self.data.diff.lines().len() as int,
                )
            }),
    {
        if !self.input.search.is_active() {
            return 0;
        }
        match &self.data.diff {
            Diff::Text(lines) => count_hits(lines, self.input.search.query.as_str()),
            _ => 0,
        }
    }

    /// Set the query and move to the first match at or below the mark.
    ///
    /// From the mark itself, not past it: a query that already matches the
    /// current line should not skip it while the user is still typing.
    fn with_search_query(self, query: String, viewport: u16) -> (r: Self)
        ensures
            r.input.search == (Search { query, ..self.input.search }),
            searching(self, r.input.search, viewport, r),
    {
        let search = Search { query, ..self.input.search };
        let app = App { input: Input { search, ..self.input }, ..self };
        if !app.input.search.is_active() {
            return app;
        }
        let found = match &app.data.diff {
            Diff::Text(lines) => if lines.len() == 0 {
                None
            } else {
                find(
                    lines,
                    app.input.search.query.as_str(),
                    app.view.diff_cursor % lines.len(),
                    Direction::Forward,
                )
            },
            _ => None,
        };
        match found {
            Some(at) => App {
                view: View { diff_cursor: at, ..app.view },
                ..app
            }.cursor_into_view(viewport),
            None => app,
        }
    }

    fn jump(self, direction: Direction, viewport: u16) -> (r: Self)
        ensures
            jumped(self, direction, viewport, r),
    {
        if !self.input.search.is_active() {
            return self.refused("no search to repeat");
        }
        let found = match &self.data.diff {
            Diff::Text(lines) => if lines.len() == 0 {
                None
            } else {
                let start = start_of(self.view.diff_cursor, lines.len(), direction);
                find(lines, self.input.search.query.as_str(), start, direction)
            },
            _ => None,
        };
        let at = match found {
            Some(at) => at,
            None => {
                let said = self.input.search.query.clone().concat(" not found");
                return self.with_notice(Notice::error(said));
            },
        };
        let wrapped = match direction {
            Direction::Forward => at < self.view.diff_cursor,
            Direction::Backward => at > self.view.diff_cursor,
        };
        let notice = if wrapped {
            Some(Notice::info("wrapped".to_owned()))
        } else {
            None
        };
        App {
            view: View { diff_cursor: at, notice, ..self.view },
            ..self
        }.cursor_into_view(viewport)
    }
}

fn start_of(cursor: usize, count: usize, direction: Direction) -> (r: usize)
    requires
        count > 0,
    ensures
        r == next_start(cursor, count as int, direction),
        r < count,
{
    match direction {
        Direction::Forward => {
            let at = cursor % count;
            if at == count - 1 {
                0
            } else {
                at + 1
            }
        },
        Direction::Backward => if cursor == 0 {
            count - 1
        } else {
            (cursor - 1) % count
        },
    }
}

fn count_hits(lines: &Vec<DiffLine>, query: &str) -> (r: usize)
    ensures
        r == hits(lines@, query@, lines@.len() as int),
{
    let mut count: usize = 0;
    for i in 0..lines.len()
        invariant
            count == hits(lines@, query@, i as int),
            count <= i,
    {
        if contains(lines[i].text.as_str(), query) {
            count += 1;
        }
    }
    count
}

/// A search goes round: where any line holds the query, it finds one that does,
/// wherever it starts and whichever way it goes.
pub proof fn a_search_finds_what_is_there(
    lines: Seq<DiffLine>,
    query: Seq<char>,
    start: int,
    direction: Direction,
    i: int,
)
    requires
        0 <= start < lines.len(),
        0 <= i < lines.len(),
        found_in(lines[i].text@, query),
    ensures
        hit(lines, query, start, direction, 0) matches Some(at) && 0 <= at < lines.len()
            && found_in(lines[at].text@, query),
{
    let count = lines.len() as int;
    let step = match direction {
        Direction::Forward => if i >= start {
            i - start
        } else {
            i + count - start
        },
        Direction::Backward => if i <= start {
            start - i
        } else {
            start + count - i
        },
    };
    assert(stepped(start, step, count, direction) == i);
    lemma_hit(lines, query, start, direction, 0, step);
}

proof fn lemma_hit(
    lines: Seq<DiffLine>,
    query: Seq<char>,
    start: int,
    direction: Direction,
    from: int,
    step: int,
)
    requires
        0 <= start < lines.len(),
        0 <= from <= step < lines.len(),
        found_in(lines[stepped(start, step, lines.len() as int, direction)].text@, query),
    ensures
        hit(lines, query, start, direction, from) matches Some(at) && 0 <= at < lines.len()
            && found_in(lines[at].text@, query),
    decreases step - from,
{
    if !found_in(lines[stepped(start, from, lines.len() as int, direction)].text@, query) {
        lemma_hit(lines, query, start, direction, from + 1, step);
    }
}

} // verus!
