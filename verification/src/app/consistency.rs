//! What holds of the viewer at every moment.
//!
//! The rows are those of the projects, the folds and the query that are held;
//! the cursor is on one of them; and at most one line that takes text is open.
//! The state starts that way, and nothing that happens to it changes that.

use vstd::prelude::*;
use vstd::view::View as _;

use crate::app::annotating::recorded;
use crate::app::delegating::begun;
use crate::app::drilling::{entered, left};
use crate::app::pressing::{line_open, responds, step_of, Press};
use crate::app::prompt::prompt_opened;
use crate::app::revisions::revision_shown;
use crate::app::scanning::{folded_in, rebased, refreshed};
use crate::app::{diff_shown, rescoped, row_showing, starts, App, Input};
use crate::config::Config;
use crate::discover::{Project, Scope};
use crate::git::base::Base;
use crate::git::run::GitError;
use crate::model::Diff;
use crate::tree::{rows_of, ProjectStrays, Row};

verus! {

/// How many lines that take text are open.
pub open spec fn open_lines(input: Input) -> int {
    (if input.search.editing {
        1int
    } else {
        0
    }) + (if input.filter.editing {
        1int
    } else {
        0
    }) + (if input.annotating is Some {
        1int
    } else {
        0
    }) + (if input.prompt is Some {
        1int
    } else {
        0
    }) + (if input.delegating is Some {
        1int
    } else {
        0
    })
}

/// What holds of the viewer at every moment.
pub open spec fn consistent(app: App) -> bool {
    &&& app.view.rows@ == rows_of(
        app.data.projects@,
        app.view.collapsed@,
        app.input.filter.query@,
    )
    &&& app.view.rows@.len() == 0 || app.view.selected < app.view.rows@.len()
    &&& open_lines(app.input) <= 1
}

/// The viewer starts consistent.
pub proof fn the_start_is_consistent(
    herdr_bin: Seq<char>,
    projects: Seq<Project>,
    scope: Scope,
    config: Config,
    app: App,
)
    requires
        starts(herdr_bin, projects, scope, config, app),
    ensures
        consistent(app),
{
    assert(app.input.filter.query@ =~= Seq::<char>::empty());
}

/// No keypress makes the viewer inconsistent.
pub proof fn pressing_keeps_it_consistent(before: App, press: Press, viewport: u16, after: App)
    requires
        consistent(before),
        responds(before, step_of(before, press, viewport), viewport, after),
    ensures
        consistent(after),
{
}

proof fn lemma_shown_row(
    projects: Seq<ProjectStrays>,
    rows: Seq<Row>,
    root: Seq<char>,
    path: Seq<char>,
    from: int,
)
    requires
        0 <= from,
        rows.len() <= usize::MAX,
    ensures
        row_showing(projects, rows, root, path, from) matches Some(i) ==> i < rows.len(),
    decreases rows.len() - from,
{
    if from < rows.len() {
        lemma_shown_row(projects, rows, root, path, from + 1);
    }
}

/// No answer about a project makes the viewer inconsistent.
pub proof fn scanning_keeps_it_consistent(before: App, scanned: ProjectStrays, after: App)
    requires
        consistent(before),
        folded_in(before, scanned, after),
    ensures
        consistent(after),
{
    let rows = after.view.rows;
    assert(rows@.len() == rows.len());
    if before.spot() is Some {
        lemma_shown_row(
            after.data.projects@,
            rows@,
            before.root_here(),
            before.stray_here().path@,
            0,
        );
    }
}

/// Changing the scope leaves the viewer consistent.
pub proof fn rescoping_keeps_it_consistent(
    before: App,
    current: Option<Seq<char>>,
    discovered: Seq<Project>,
    after: App,
)
    requires
        consistent(before),
        rescoped(before, current, discovered, after),
    ensures
        consistent(after),
{
    assert(after.input.filter.query@ =~= Seq::<char>::empty());
}

/// Stepping into a submodule leaves the viewer consistent.
pub proof fn entering_keeps_it_consistent(before: App, after: App)
    requires
        consistent(before),
        entered(before, after),
    ensures
        consistent(after),
{
}

/// Stepping out of a submodule leaves the viewer consistent.
pub proof fn leaving_keeps_it_consistent(before: App, after: App)
    requires
        consistent(before),
        before.view.drilled@.len() > 0,
        left(before, after),
    ensures
        consistent(after),
{
}

/// No answer about a diff, no refresh, and no other base makes the viewer
/// inconsistent.
pub proof fn reading_keeps_it_consistent(
    before: App,
    diff: Result<Diff, GitError>,
    base: Result<Base, GitError>,
    summary: Seq<char>,
    after: App,
)
    requires
        consistent(before),
        diff_shown(before, diff, after) || refreshed(before, after) || (base matches Ok(b) && rebased(
            before,
            b,
            after,
        )) || revision_shown(before, base, summary, after) || recorded(before, after),
    ensures
        consistent(after),
{
}

/// Opening the message line or the prompt leaves the viewer consistent: a key
/// opens them, and no key opens anything while a line is open.
pub proof fn opening_keeps_it_consistent(before: App, after: App)
    requires
        consistent(before),
        !line_open(before.input),
        begun(before, after) || prompt_opened(before, after),
    ensures
        consistent(after),
{
}

} // verus!
