//! Which line a search goes to.

use vstd::prelude::*;

use crate::app::searching::{found_in, hit, hits, next_hit, next_start, stepped, Direction};
use crate::app::App;
use crate::filter::is_sensitive;
use crate::model::DiffLine;
use crate::text::{has_text, lowercase_text};

verus! {

/// Whether the line that a search comes to after some steps holds the query.
spec fn holds_after(
    lines: Seq<DiffLine>,
    query: Seq<char>,
    start: int,
    direction: Direction,
    step: int,
) -> bool {
    found_in(lines[stepped(start, step, lines.len() as int, direction)].text@, query)
}

/// How many steps a search takes; as many as there are lines where it finds
/// nothing.
proof fn lemma_first_step(
    lines: Seq<DiffLine>,
    query: Seq<char>,
    start: int,
    direction: Direction,
    from: int,
) -> (step: int)
    requires
        0 <= start < lines.len(),
        0 <= from <= lines.len(),
    ensures
        from <= step <= lines.len(),
        forall|k: int| from <= k < step ==> !#[trigger] holds_after(lines, query, start, direction, k),
        step < lines.len() ==> holds_after(lines, query, start, direction, step) && hit(
            lines,
            query,
            start,
            direction,
            from,
        ) == Some(stepped(start, step, lines.len() as int, direction)),
        step == lines.len() ==> hit(lines, query, start, direction, from) is None,
    decreases lines.len() - from,
{
    if from == lines.len() || holds_after(lines, query, start, direction, from) {
        from
    } else {
        lemma_first_step(lines, query, start, direction, from + 1)
    }
}

/// A search forwards goes to the first line below the cursor that holds the query,
/// or round to the first of all where none below does; and it finds nothing only
/// where no line does.
pub proof fn searching_forwards_goes_down(app: App, i: int)
    requires
        app.view.diff_cursor < app.data.diff.lines().len(),
        0 <= i < app.data.diff.lines().len(),
        found_in(app.data.diff.lines()[i].text@, app.input.search.query@),
    ensures
        next_hit(app, Direction::Forward) matches Some(at) && 0 <= at < app.data.diff.lines().len()
            && found_in(app.data.diff.lines()[at].text@, app.input.search.query@) && (i
            > app.view.diff_cursor ==> app.view.diff_cursor < at <= i) && (i
            <= app.view.diff_cursor ==> at <= i || at > app.view.diff_cursor),
{
    let lines = app.data.diff.lines();
    let n = lines.len() as int;
    let query = app.input.search.query@;
    let c = app.view.diff_cursor as int;
    assert(c % n == c) by (nonlinear_arith)
        requires
            0 <= c < n,
    ;
    let start = next_start(app.view.diff_cursor, n, Direction::Forward);
    let step = lemma_first_step(lines, query, start, Direction::Forward, 0);
    let step_i = if i >= start {
        i - start
    } else {
        i + n - start
    };
    assert(stepped(start, step_i, n, Direction::Forward) == i);
    assert(holds_after(lines, query, start, Direction::Forward, step_i));
}

/// A search backwards goes to the last line above the cursor that holds the query,
/// or round to the last of all where none above does; and it finds nothing only
/// where no line does.
pub proof fn searching_backwards_goes_up(app: App, i: int)
    requires
        app.view.diff_cursor < app.data.diff.lines().len(),
        0 <= i < app.data.diff.lines().len(),
        found_in(app.data.diff.lines()[i].text@, app.input.search.query@),
    ensures
        next_hit(app, Direction::Backward) matches Some(at) && 0 <= at < app.data.diff.lines().len()
            && found_in(app.data.diff.lines()[at].text@, app.input.search.query@) && (i
            < app.view.diff_cursor ==> i <= at < app.view.diff_cursor) && (i
            >= app.view.diff_cursor ==> at >= i || at < app.view.diff_cursor),
{
    let lines = app.data.diff.lines();
    let n = lines.len() as int;
    let query = app.input.search.query@;
    let c = app.view.diff_cursor as int;
    if c > 0 {
        let d = c - 1;
        assert(d % n == d) by (nonlinear_arith)
            requires
                0 <= d < n,
        ;
    }
    let start = next_start(app.view.diff_cursor, n, Direction::Backward);
    let step = lemma_first_step(lines, query, start, Direction::Backward, 0);
    let step_i = if i <= start {
        start - i
    } else {
        start + n - i
    };
    assert(stepped(start, step_i, n, Direction::Backward) == i);
    assert(holds_after(lines, query, start, Direction::Backward, step_i));
}

/// Where no line holds the query there is nothing to go to.
pub proof fn nothing_is_found_where_nothing_is(app: App, direction: Direction)
    requires
        app.view.diff_cursor < app.data.diff.lines().len(),
        forall|i: int|
            0 <= i < app.data.diff.lines().len() ==> !found_in(
                (#[trigger] app.data.diff.lines()[i]).text@,
                app.input.search.query@,
            ),
    ensures
        next_hit(app, direction) is None,
{
    let lines = app.data.diff.lines();
    let n = lines.len() as int;
    let start = next_start(app.view.diff_cursor, n, direction);
    let c = app.view.diff_cursor as int;
    assert(c % n == c) by (nonlinear_arith)
        requires
            0 <= c < n,
    ;
    if c > 0 {
        let d = c - 1;
        assert(d % n == d) by (nonlinear_arith)
            requires
                0 <= d < n,
        ;
    }
    let query = app.input.search.query@;
    let step = lemma_first_step(lines, query, start, direction, 0);
    if step < n {
        let at = stepped(start, step, n, direction);
        assert(!found_in(lines[at].text@, query));
    }
}

/// A line holds a query where the query stands in it, and in capitals or not
/// unless the query has capitals itself.
pub proof fn a_line_holds_what_stands_in_it(line: Seq<char>, query: Seq<char>)
    ensures
        is_sensitive(query) ==> (found_in(line, query) <==> has_text(line, query)),
        !is_sensitive(query) ==> (found_in(line, query) <==> has_text(
            lowercase_text(line),
            lowercase_text(query),
        )),
{
}

/// The lines that hold a query are counted one by one.
pub proof fn every_hit_is_counted(lines: Seq<DiffLine>, query: Seq<char>, n: int)
    requires
        0 <= n <= lines.len(),
    ensures
        hits(lines, query, 0) == 0,
        n < lines.len() ==> hits(lines, query, n + 1) == hits(lines, query, n) + (if found_in(
            lines[n].text@,
            query,
        ) {
            1int
        } else {
            0
        }),
        0 <= hits(lines, query, n) <= n,
        hits(lines, query, n) == n <==> forall|i: int|
            0 <= i < n ==> found_in((#[trigger] lines[i]).text@, query),
    decreases n,
{
    if n > 0 {
        every_hit_is_counted(lines, query, n - 1);
        if hits(lines, query, n) == n {
            assert forall|i: int| 0 <= i < n implies found_in((#[trigger] lines[i]).text@, query) by {}
        }
        if forall|i: int| 0 <= i < n ==> found_in((#[trigger] lines[i]).text@, query) {
            assert(found_in(lines[n - 1].text@, query));
        }
    }
}

} // verus!
