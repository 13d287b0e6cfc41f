//! The filter line: narrowing the list to the files a query names.
//!
//! While the line is open it owns the keyboard, as the prompt and annotation
//! lines do. Unlike those two, the query outlives its input line — pressing
//! Enter closes the line and keeps the list narrowed, so the results can be
//! moved through with the ordinary keys.

use vstd::prelude::*;
use vstd::string::*;
use vstd::view::View as _;

use crate::app::{clamp, diff_asked, says, App, Filter, Input, Notice, Search, View};
use crate::text::{decimal, decimal_of, push_char, without_last};
use crate::tree::{rows_of, Row};

verus! {

/// Whether an app is another one with its list narrowed to what a filter names.
/// Narrowing shortens the list, so the cursor comes back inside it.
pub open spec fn narrowed(before: App, filter: Filter, after: App) -> bool {
    &&& after.view.rows@ == rows_of(
        before.data.projects@,
        before.view.collapsed@,
        filter.query@,
    )
    &&& diff_asked(
        App {
            view: View {
                rows: after.view.rows,
                selected: clamp(before.view.selected, after.view.rows@.len()),
                ..before.view
            },
            input: Input { filter, ..before.input },
            ..before
        },
        after,
    )
}

/// How many of some rows are files.
pub open spec fn file_count(rows: Seq<Row>) -> nat
    decreases rows.len(),
{
    if rows.len() == 0 {
        0
    } else {
        file_count(rows.drop_last()) + (if rows.last() is File {
            1nat
        } else {
            0
        })
    }
}

fn count_files(rows: &Vec<Row>) -> (r: usize)
    ensures
        r == file_count(rows@),
{
    let mut count: usize = 0;
    for i in 0..rows.len()
        invariant
            count == file_count(rows@.take(i as int)),
            count <= i,
    {
        assert(rows@.take(i + 1).drop_last() =~= rows@.take(i as int));
        if rows[i].is_file() {
            count += 1;
        }
    }
    assert(rows@.take(rows@.len() as int) =~= rows@);
    count
}

impl App {
    /// Open the filter line, keeping whatever query is already in force.
    ///
    /// Reopening with the previous text is what makes a query easy to widen:
    /// `/` then backspace shows more, rather than starting over.
    pub fn begin_filter(self) -> (r: Self)
        ensures
            r == (App {
                input: Input {
                    filter: Filter { editing: true, ..self.input.filter },
                    ..self.input
                },
                ..self
            }),
    {
        let filter = Filter { editing: true, ..self.input.filter };
        App { input: Input { filter, ..self.input }, ..self }
    }

    /// Add a character to the query and re-narrow the list.
    ///
    /// The list follows every keystroke rather than waiting for Enter: seeing
    /// the results shrink is how the user knows when to stop typing.
    pub fn filter_push(self, c: char) -> (r: Self)
        ensures
            !self.input.filter.editing ==> r == self,
            self.input.filter.editing ==> {
                &&& r.input.filter.query@ == self.input.filter.query@.push(c)
                &&& r.input.filter.editing
                &&& narrowed(self, r.input.filter, r)
            },
    {
        if !self.input.filter.editing {
            return self;
        }
        let query = push_char(self.input.filter.query.as_str(), c);
        self.with_query(query)
    }

    pub fn filter_backspace(self) -> (r: Self)
        ensures
            !self.input.filter.editing ==> r == self,
            self.input.filter.editing ==> {
                &&& r.input.filter.query@ == (if self.input.filter.query@.len() > 0 {
                    self.input.filter.query@.drop_last()
                } else {
                    self.input.filter.query@
                })
                &&& r.input.filter.editing
                &&& narrowed(self, r.input.filter, r)
            },
    {
        if !self.input.filter.editing {
            return self;
        }
        let query = without_last(self.input.filter.query.as_str());
        self.with_query(query)
    }

    /// Close the filter line, keeping the query in force, and say how much it
    /// left.
    pub fn accept_filter(self) -> (r: Self)
        ensures
            self.input.filter.query@.len() > 0 ==> says(
                r.view.notice,
                decimal_of(file_count(self.view.rows@)) + " matching — Esc clears"@,
                false,
            ),
            self.input.filter.query@.len() == 0 ==> r.view.notice is None,
            r == (App {
                view: View { notice: r.view.notice, ..self.view },
                input: Input {
                    filter: Filter { editing: false, ..self.input.filter },
                    ..self.input
                },
                ..self
            }),
    {
        let notice = if self.input.filter.is_active() {
            let count = count_files(&self.view.rows);
            Some(Notice::info(decimal(count as u64).concat(" matching — Esc clears")))
        } else {
            None
        };
        let filter = Filter { editing: false, ..self.input.filter };
        App { view: View { notice, ..self.view }, input: Input { filter, ..self.input }, ..self }
    }

    /// Drop the query entirely and show the whole tree again. The search over
    /// the diff goes with it.
    pub fn clear_filter(self) -> (r: Self)
        ensures
            self.input.filter.at_rest() ==> r == self,
            !self.input.filter.at_rest() ==> {
                &&& r.input.filter.at_rest()
                &&& r.input.search.at_rest()
                &&& narrowed(
                    App { input: Input { search: r.input.search, ..self.input }, ..self },
                    r.input.filter,
                    r,
                )
            },
    {
        if !self.input.filter.is_active() && !self.input.filter.editing {
            return self;
        }
        App {
            input: Input { filter: Filter::default(), search: Search::default(), ..self.input },
            ..self
        }.rebuilt().clamped().ask_diff()
    }

    /// Replace the query, rebuild the rows, and keep the cursor somewhere real.
    fn with_query(self, query: String) -> (r: Self)
        ensures
            r.input.filter == (Filter { query, ..self.input.filter }),
            narrowed(self, r.input.filter, r),
    {
        let filter = Filter { query, ..self.input.filter };
        App { input: Input { filter, ..self.input }, ..self }.rebuilt().clamped().ask_diff()
    }
}

} // verus!
