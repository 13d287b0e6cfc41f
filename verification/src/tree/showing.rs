//! What the rows of the list show.

use vstd::prelude::*;

use crate::filter::is_match;
use crate::model::Stray;
use crate::paths::{parts, Part};
use crate::tree::{
    addressable, dir_rows, dirs, file_rows, held, hidden, lemma_shared_bound, lies_in, names_any,
    node_at, oversized, project_rows, rows_from, rows_of, shared, stray_rows, ProjectStrays, Row,
};

verus! {

/// Whether a file is to be shown: the query names it, and neither its project nor a
/// directory above it is folded away.
pub open spec fn to_be_shown(
    projects: Seq<ProjectStrays>,
    folded: Set<(int, Seq<Part>)>,
    query: Seq<char>,
    p: int,
    k: int,
) -> bool {
    &&& 0 <= p < projects.len()
    &&& 0 <= k < projects[p].strays@.len()
    &&& is_match(query, projects[p].strays@[k].path@)
    &&& !folded.contains((p, Seq::empty()))
    &&& forall|n: int|
        1 <= n < parts(projects[p].strays@[k].path@).len() ==> !folded.contains(
            (p, #[trigger] parts(projects[p].strays@[k].path@).take(n)),
        )
}

/// Whether a row is the row of a directory.
pub open spec fn is_row_of(
    projects: Seq<ProjectStrays>,
    row: Row,
    p: int,
    dir: Seq<Part>,
) -> bool {
    row matches Row::Dir { project, stray, depth } && project == p && 0 <= p < projects.len() && stray
        < projects[p].strays@.len() && depth == dir.len() && depth < parts(
        projects[p].strays@[stray as int].path@,
    ).len() && parts(projects[p].strays@[stray as int].path@).take(depth as int) == dir
}

/// The row of the directory that the first `n` parts of a stray's path name.
spec fn dir_row(p: int, k: int, n: int) -> Row {
    Row::Dir { project: p as usize, stray: k as usize, depth: n as usize }
}

proof fn lemma_dir_rows(
    f: Set<(int, Seq<Part>)>,
    p: int,
    k: int,
    ds: Seq<Part>,
    d: int,
)
    requires
        0 <= p <= usize::MAX,
        0 <= k <= usize::MAX,
        ds.len() <= usize::MAX,
        0 <= d,
    ensures
        forall|i: int|
            0 <= i < dir_rows(f, p, k, ds, d).len() ==> (#[trigger] dir_rows(
                f,
                p,
                k,
                ds,
                d,
            )[i]) is Dir,
        forall|n: int|
            d < n <= ds.len() && !hidden(f, p, ds, n - 1) ==> dir_rows(f, p, k, ds, d).contains(
                #[trigger] dir_row(p, k, n),
            ),
        forall|i: int|
            0 <= i < dir_rows(f, p, k, ds, d).len() ==> ((#[trigger] dir_rows(
                f,
                p,
                k,
                ds,
                d,
            )[i]) matches Row::Dir { depth, .. } && !hidden(f, p, ds, depth - 1)),
    decreases ds.len() - d,
{
    let rows = dir_rows(f, p, k, ds, d);
    if d < ds.len() {
        lemma_dir_rows(f, p, k, ds, d + 1);
        let rest = dir_rows(f, p, k, ds, d + 1);
        assert forall|n: int| d < n <= ds.len() && !hidden(f, p, ds, n - 1) implies rows.contains(
            #[trigger] dir_row(p, k, n),
        ) by {
            let row = dir_row(p, k, n);
            if n == d + 1 {
                assert(rows[0] == row);
            } else {
                assert(rest.contains(row));
                let i = rest.index_of(row);
                if hidden(f, p, ds, d) {
                    assert(rows[i] == row);
                } else {
                    assert(rows[i + 1] == row);
                }
            }
        }
        if !hidden(f, p, ds, d) {
            assert forall|i: int| 0 <= i < rows.len() implies (#[trigger] rows[i]) is Dir by {
                if i > 0 {
                    assert(rows[i] == rest[i - 1]);
                }
            }
            assert forall|i: int| 0 <= i < rows.len() implies ((#[trigger] rows[i]) matches Row::Dir {
                depth,
                ..
            } && !hidden(f, p, ds, depth - 1)) by {
                if i > 0 {
                    assert(rows[i] == rest[i - 1]);
                }
            }
        }
    }
}

/// Whether a file row is of a stray from `k` on that the query names and nothing
/// above hides.
spec fn shown_from(
    projects: Seq<ProjectStrays>,
    f: Set<(int, Seq<Part>)>,
    query: Seq<char>,
    p: int,
    k: int,
    row: Row,
) -> bool {
    row matches Row::File { project, stray, depth } ==> {
        &&& project == p
        &&& k <= stray < projects[p].strays@.len()
        &&& is_match(query, projects[p].strays@[stray as int].path@)
        &&& !hidden(
            f,
            p,
            dirs(projects[p].strays@[stray as int].path@),
            dirs(projects[p].strays@[stray as int].path@).len() as int,
        )
        &&& depth == parts(projects[p].strays@[stray as int].path@).len()
    }
}

proof fn lemma_shown(
    projects: Seq<ProjectStrays>,
    f: Set<(int, Seq<Part>)>,
    query: Seq<char>,
    p: int,
    before: Seq<Part>,
    k: int,
)
    requires
        addressable(projects),
        0 <= p < projects.len(),
        0 <= k,
    ensures
        forall|i: int|
            0 <= i < file_rows(f, p, projects[p].strays@, query, before, k).len() ==> shown_from(
                projects,
                f,
                query,
                p,
                k,
                #[trigger] file_rows(f, p, projects[p].strays@, query, before, k)[i],
            ),
        forall|i: int, j: int|
            0 <= i < j < file_rows(f, p, projects[p].strays@, query, before, k).len() ==> in_turn(
                #[trigger] file_rows(f, p, projects[p].strays@, query, before, k)[i],
                #[trigger] file_rows(f, p, projects[p].strays@, query, before, k)[j],
            ),
    decreases projects[p].strays@.len() - k,
{
    let strays = projects[p].strays@;
    let rows = file_rows(f, p, strays, query, before, k);
    if k < strays.len() {
        assert(parts(projects[p].strays@[k].path@).len() <= usize::MAX);
        let path = strays[k].path@;
        let ds = dirs(path);
        if !is_match(query, path) {
            lemma_shown(projects, f, query, p, before, k + 1);
            let rest = file_rows(f, p, strays, query, before, k + 1);
            assert(rows == rest);
            assert forall|i: int| 0 <= i < rows.len() implies shown_from(
                projects,
                f,
                query,
                p,
                k,
                #[trigger] rows[i],
            ) by {
                assert(shown_from(projects, f, query, p, k + 1, rest[i]));
            }
            assert forall|i: int, j: int| 0 <= i < j < rows.len() implies in_turn(
                #[trigger] rows[i],
                #[trigger] rows[j],
            ) by {
                assert(in_turn(rest[i], rest[j]));
            }
        } else {
            let at = shared(before, ds, 0);
            lemma_shared_bound(before, ds, 0);
            lemma_dir_rows(f, p, k, ds, at);
            let above = dir_rows(f, p, k, ds, at);
            let own = stray_rows(f, p, k, path, before);
            let rest = file_rows(f, p, strays, query, ds, k + 1);
            lemma_shown(projects, f, query, p, ds, k + 1);
            assert(rows == own + rest);
            assert forall|i: int| 0 <= i < rows.len() implies shown_from(
                projects,
                f,
                query,
                p,
                k,
                #[trigger] rows[i],
            ) by {
                if i < above.len() {
                    assert(rows[i] == above[i]);
                } else if i >= own.len() {
                    assert(rows[i] == rest[i - own.len()]);
                    assert(shown_from(projects, f, query, p, k + 1, rest[i - own.len()]));
                }
            }
            assert forall|i: int, j: int| 0 <= i < j < rows.len() implies in_turn(
                #[trigger] rows[i],
                #[trigger] rows[j],
            ) by {
                if j < own.len() {
                    assert(rows[i] == above[i]);
                } else if i < own.len() {
                    assert(shown_from(projects, f, query, p, k + 1, rest[j - own.len()]));
                    if i < above.len() {
                        assert(rows[i] == above[i]);
                    }
                } else {
                    assert(in_turn(rest[i - own.len()], rest[j - own.len()]));
                }
            }
        }
    }
}

/// Whether two file rows stand in the order of their projects and of the strays in
/// them.
pub open spec fn in_turn(a: Row, b: Row) -> bool {
    match (a, b) {
        (
            Row::File { project: p, stray: j, .. },
            Row::File { project: q, stray: k, .. },
        ) => p < q || (p == q && j < k),
        _ => true,
    }
}

proof fn lemma_rows_shown(
    projects: Seq<ProjectStrays>,
    f: Set<(int, Seq<Part>)>,
    query: Seq<char>,
    p: int,
)
    requires
        addressable(projects),
        0 <= p,
    ensures
        forall|i: int|
            0 <= i < rows_from(projects, f, query, p).len() ==> ((#[trigger] rows_from(
                projects,
                f,
                query,
                p,
            )[i]) matches Row::File { project, stray, depth } ==> p <= project && to_be_shown(
                projects,
                f,
                query,
                project as int,
                stray as int,
            ) && depth == parts(projects[project as int].strays@[stray as int].path@).len()),
        forall|i: int, j: int|
            0 <= i < j < rows_from(projects, f, query, p).len() ==> in_turn(
                #[trigger] rows_from(projects, f, query, p)[i],
                #[trigger] rows_from(projects, f, query, p)[j],
            ),
    decreases projects.len() - p,
{
    if p < projects.len() {
        let strays = projects[p].strays@;
        let own = project_rows(f, p, strays, query);
        let files = file_rows(f, p, strays, query, Seq::empty(), 0);
        let rest = rows_from(projects, f, query, p + 1);
        let rows = rows_from(projects, f, query, p);
        lemma_rows_shown(projects, f, query, p + 1);
        lemma_shown(projects, f, query, p, Seq::empty(), 0);
        assert(rows == own + rest);
        assert forall|i: int| 0 <= i < rows.len() implies ((#[trigger] rows[i]) matches Row::File {
            project,
            stray,
            depth,
        } ==> p <= project && to_be_shown(projects, f, query, project as int, stray as int)
            && depth == parts(projects[project as int].strays@[stray as int].path@).len()) by {
            if i < own.len() {
                if i > 0 {
                    assert(rows[i] == files[i - 1]);
                    assert(shown_from(projects, f, query, p, 0, files[i - 1]));
                    if let Row::File { project, stray, depth } = rows[i] {
                        lemma_not_hidden(f, p, strays[stray as int].path@);
                    }
                }
            } else {
                assert(rows[i] == rest[i - own.len()]);
            }
        }
        assert forall|i: int, j: int| 0 <= i < j < rows.len() implies in_turn(
            #[trigger] rows[i],
            #[trigger] rows[j],
        ) by {
            if j < own.len() {
                if i > 0 {
                    assert(in_turn(files[i - 1], files[j - 1]));
                }
            } else if i < own.len() {
                assert(rows[j] == rest[j - own.len()]);
                if i > 0 {
                    assert(rows[i] == files[i - 1]);
                    assert(shown_from(projects, f, query, p, 0, files[i - 1]));
                }
            } else {
                assert(in_turn(rest[i - own.len()], rest[j - own.len()]));
            }
        }
    }
}

proof fn lemma_not_hidden(f: Set<(int, Seq<Part>)>, p: int, path: Seq<char>)
    requires
        !hidden(f, p, dirs(path), dirs(path).len() as int),
    ensures
        forall|n: int|
            1 <= n < parts(path).len() ==> !f.contains((p, #[trigger] parts(path).take(n))),
{
    assert forall|n: int| 1 <= n < parts(path).len() implies !f.contains(
        (p, #[trigger] parts(path).take(n)),
    ) by {
        assert(parts(path).take(n) =~= dirs(path).take(n));
    }
}

/// Every file row is of a file that is to be shown, at the depth of its path, and
/// no file has two rows: they stand in the order of the projects and of the files in
/// them.
pub proof fn only_what_is_to_be_shown_is_listed(
    projects: Seq<ProjectStrays>,
    folded: Set<(int, Seq<Part>)>,
    query: Seq<char>,
)
    requires
        addressable(projects),
    ensures
        forall|i: int|
            0 <= i < rows_of(projects, folded, query).len() ==> ((#[trigger] rows_of(
                projects,
                folded,
                query,
            )[i]) matches Row::File { project, stray, depth } ==> to_be_shown(
                projects,
                folded,
                query,
                project as int,
                stray as int,
            ) && depth == parts(projects[project as int].strays@[stray as int].path@).len()),
        forall|i: int, j: int|
            0 <= i < j < rows_of(projects, folded, query).len() ==> in_turn(
                #[trigger] rows_of(projects, folded, query)[i],
                #[trigger] rows_of(projects, folded, query)[j],
            ),
{
    lemma_rows_shown(projects, folded, query, 0);
}

proof fn lemma_shared_take(a: Seq<Part>, b: Seq<Part>, i: int, d: int)
    requires
        0 <= i <= a.len(),
        i <= b.len(),
        a.take(i) == b.take(i),
        d <= shared(a, b, i),
        0 <= d,
    ensures
        d <= a.len(),
        d <= b.len(),
        a.take(d) == b.take(d),
    decreases a.len() - i,
{
    if i < a.len() && i < b.len() && a[i] == b[i] {
        assert(a.take(i + 1) =~= a.take(i).push(a[i]));
        assert(b.take(i + 1) =~= b.take(i).push(b[i]));
        lemma_shared_take(a, b, i + 1, d);
    } else {
        assert(a.take(d) =~= a.take(i).take(d));
        assert(b.take(d) =~= b.take(i).take(d));
    }
}

/// Above a file's row stand the rows of the directories that it is in, unless they
/// stood before.
proof fn lemma_dirs_above(
    projects: Seq<ProjectStrays>,
    f: Set<(int, Seq<Part>)>,
    query: Seq<char>,
    p: int,
    before: Seq<Part>,
    k: int,
    i: int,
    d: int,
)
    requires
        addressable(projects),
        0 <= p < projects.len(),
        0 <= k,
        0 <= i < file_rows(f, p, projects[p].strays@, query, before, k).len(),
        file_rows(f, p, projects[p].strays@, query, before, k)[i] matches Row::File { stray, .. }
            && 1 <= d < parts(projects[p].strays@[stray as int].path@).len(),
    ensures
        ({
            let rows = file_rows(f, p, projects[p].strays@, query, before, k);
            let stray = rows[i]->File_stray;
            let dir = parts(projects[p].strays@[stray as int].path@).take(d);
            ||| exists|j: int| 0 <= j < i && is_row_of(projects, #[trigger] rows[j], p, dir)
            ||| d <= before.len() && before.take(d) == dir
        }),
    decreases projects[p].strays@.len() - k,
{
    let strays = projects[p].strays@;
    let rows = file_rows(f, p, strays, query, before, k);
    lemma_shown(projects, f, query, p, before, k);
    assert(shown_from(projects, f, query, p, k, rows[i]));
    let stray = rows[i]->File_stray as int;
    let dir = parts(strays[stray].path@).take(d);
    if k < strays.len() {
        assert(parts(projects[p].strays@[k].path@).len() <= usize::MAX);
        let path = strays[k].path@;
        let ds = dirs(path);
        if !is_match(query, path) {
            lemma_dirs_above(projects, f, query, p, before, k + 1, i, d);
        } else {
            let at = shared(before, ds, 0);
            lemma_shared_bound(before, ds, 0);
            lemma_dir_rows(f, p, k, ds, at);
            let above = dir_rows(f, p, k, ds, at);
            let own = stray_rows(f, p, k, path, before);
            let rest = file_rows(f, p, strays, query, ds, k + 1);
            assert(rows == own + rest);
            let mut in_rest = false;
            if i >= own.len() {
                assert(rows[i] == rest[i - own.len()]);
                lemma_dirs_above(projects, f, query, p, ds, k + 1, i - own.len(), d);
                if exists|j: int|
                    0 <= j < i - own.len() && is_row_of(projects, #[trigger] rest[j], p, dir) {
                    let j = choose|j: int|
                        0 <= j < i - own.len() && is_row_of(projects, #[trigger] rest[j], p, dir);
                    assert(rows[own.len() + j] == rest[j]);
                    in_rest = true;
                }
            }
            if !in_rest {
                // The directory is one that this stray is in too.
                assert(d <= ds.len() && ds.take(d) == dir) by {
                    if i < own.len() {
                        if i < above.len() {
                            assert(rows[i] == above[i]);
                        }
                        assert(stray == k);
                        assert(ds.take(d) =~= dir);
                    }
                }
                if d <= at {
                    assert(before.take(0) =~= ds.take(0));
                    lemma_shared_take(before, ds, 0, d);
                } else {
                    let mine = dirs(strays[stray].path@);
                    assert(!hidden(f, p, ds, d - 1)) by {
                        if hidden(f, p, ds, d - 1) {
                            let n = choose|n: int|
                                1 <= n <= d - 1 && f.contains((p, #[trigger] ds.take(n)));
                            assert(ds.take(n) =~= ds.take(d).take(n));
                            assert(mine.take(n) =~= dir.take(n));
                            assert(f.contains((p, mine.take(n))));
                        }
                    }
                    let row = dir_row(p, k, d);
                    assert(above.contains(row));
                    let j = above.index_of(row);
                    assert(rows[j] == row);
                    assert(parts(path).take(d) =~= ds.take(d));
                    assert(is_row_of(projects, rows[j], p, dir));
                    if i < own.len() {
                        assert(j < i);
                    }
                }
            }
        }
    }
}

/// A file's row stands below the rows of all the directories that it is in.
pub proof fn files_stand_below_their_directories(
    projects: Seq<ProjectStrays>,
    folded: Set<(int, Seq<Part>)>,
    query: Seq<char>,
    i: int,
    d: int,
)
    requires
        addressable(projects),
        0 <= i < rows_of(projects, folded, query).len(),
        rows_of(projects, folded, query)[i] matches Row::File { project, stray, .. } && 1 <= d
            < parts(projects[project as int].strays@[stray as int].path@).len(),
    ensures
        ({
            let rows = rows_of(projects, folded, query);
            let p = rows[i]->File_project as int;
            let dir = parts(projects[p].strays@[rows[i]->File_stray as int].path@).take(d);
            exists|j: int| 0 <= j < i && is_row_of(projects, #[trigger] rows[j], p, dir)
        }),
{
    lemma_below(projects, folded, query, 0, i, d);
}

proof fn lemma_below(
    projects: Seq<ProjectStrays>,
    f: Set<(int, Seq<Part>)>,
    query: Seq<char>,
    p: int,
    i: int,
    d: int,
)
    requires
        addressable(projects),
        0 <= p,
        0 <= i < rows_from(projects, f, query, p).len(),
        rows_from(projects, f, query, p)[i] matches Row::File { project, stray, .. } && 1 <= d
            < parts(projects[project as int].strays@[stray as int].path@).len(),
    ensures
        ({
            let rows = rows_from(projects, f, query, p);
            let q = rows[i]->File_project as int;
            let dir = parts(projects[q].strays@[rows[i]->File_stray as int].path@).take(d);
            exists|j: int| 0 <= j < i && is_row_of(projects, #[trigger] rows[j], q, dir)
        }),
    decreases projects.len() - p,
{
    if p < projects.len() {
        let strays = projects[p].strays@;
        let own = project_rows(f, p, strays, query);
        let files = file_rows(f, p, strays, query, Seq::empty(), 0);
        let rest = rows_from(projects, f, query, p + 1);
        let rows = rows_from(projects, f, query, p);
        assert(rows == own + rest);
        let q = rows[i]->File_project as int;
        let dir = parts(projects[q].strays@[rows[i]->File_stray as int].path@).take(d);
        if i < own.len() {
            assert(i > 0);
            assert(rows[i] == files[i - 1]);
            lemma_shown(projects, f, query, p, Seq::empty(), 0);
            assert(shown_from(projects, f, query, p, 0, files[i - 1]));
            lemma_dirs_above(projects, f, query, p, Seq::empty(), 0, i - 1, d);
            let j = choose|j: int| 0 <= j < i - 1 && is_row_of(projects, #[trigger] files[j], p, dir);
            assert(rows[j + 1] == files[j]);
        } else {
            assert(rows[i] == rest[i - own.len()]);
            lemma_below(projects, f, query, p + 1, i - own.len(), d);
            let j = choose|j: int|
                0 <= j < i - own.len() && is_row_of(projects, #[trigger] rest[j], q, dir);
            assert(rows[own.len() + j] == rest[j]);
        }
    }
}

/// A project has its own row, first of all its rows, unless a query names nothing
/// in it.
pub proof fn every_project_that_is_named_has_its_row(
    projects: Seq<ProjectStrays>,
    folded: Set<(int, Seq<Part>)>,
    query: Seq<char>,
    p: int,
)
    requires
        addressable(projects),
        0 <= p < projects.len(),
    ensures
        rows_of(projects, folded, query).contains(Row::Project { project: p as usize })
            <==> query.len() == 0 || names_any(projects[p].strays@, query),
{
    lemma_project_row(projects, folded, query, 0, p);
}

proof fn lemma_project_row(
    projects: Seq<ProjectStrays>,
    f: Set<(int, Seq<Part>)>,
    query: Seq<char>,
    from: int,
    p: int,
)
    requires
        addressable(projects),
        0 <= from,
        0 <= p < projects.len(),
    ensures
        rows_from(projects, f, query, from).contains(Row::Project { project: p as usize }) <==> from
            <= p && (query.len() == 0 || names_any(projects[p].strays@, query)),
    decreases projects.len() - from,
{
    let row = Row::Project { project: p as usize };
    let rows = rows_from(projects, f, query, from);
    if from < projects.len() {
        let strays = projects[from].strays@;
        let own = project_rows(f, from, strays, query);
        let files = file_rows(f, from, strays, query, Seq::empty(), 0);
        let rest = rows_from(projects, f, query, from + 1);
        assert(rows == own + rest);
        lemma_project_row(projects, f, query, from + 1, p);
        lemma_no_project(projects, f, query, from, Seq::empty(), 0);
        if rest.contains(row) {
            let j = rest.index_of(row);
            assert(rows[own.len() + j] == row);
        }
        if rows.contains(row) {
            let j = rows.index_of(row);
            if j >= own.len() {
                assert(rest[j - own.len()] == row);
            } else if j > 0 {
                assert(own[j] == files[j - 1]);
            }
        }
        if from == p && (query.len() == 0 || names_any(strays, query)) {
            assert(rows[0] == row);
        }
    }
}

proof fn lemma_no_project(
    projects: Seq<ProjectStrays>,
    f: Set<(int, Seq<Part>)>,
    query: Seq<char>,
    p: int,
    before: Seq<Part>,
    k: int,
)
    requires
        addressable(projects),
        0 <= p < projects.len(),
        0 <= k,
    ensures
        forall|i: int|
            0 <= i < file_rows(f, p, projects[p].strays@, query, before, k).len() ==> !((
            #[trigger] file_rows(f, p, projects[p].strays@, query, before, k)[i]) is Project),
    decreases projects[p].strays@.len() - k,
{
    let strays = projects[p].strays@;
    let rows = file_rows(f, p, strays, query, before, k);
    if k < strays.len() {
        assert(parts(projects[p].strays@[k].path@).len() <= usize::MAX);
        let path = strays[k].path@;
        let ds = dirs(path);
        if !is_match(query, path) {
            lemma_no_project(projects, f, query, p, before, k + 1);
        } else {
            let at = shared(before, ds, 0);
            lemma_shared_bound(before, ds, 0);
            lemma_dir_rows(f, p, k, ds, at);
            let above = dir_rows(f, p, k, ds, at);
            let own = stray_rows(f, p, k, path, before);
            let rest = file_rows(f, p, strays, query, ds, k + 1);
            lemma_no_project(projects, f, query, p, ds, k + 1);
            assert(rows == own + rest);
            assert forall|i: int| 0 <= i < rows.len() implies !((#[trigger] rows[i]) is Project) by {
                if i < above.len() {
                    assert(rows[i] == above[i]);
                } else if i >= own.len() {
                    assert(rows[i] == rest[i - own.len()]);
                }
            }
        }
    }
}

/// A directory starts folded exactly where at least as many strays lie in it as the
/// threshold says, however deep they lie, and at least one.
pub proof fn big_directories_start_folded(
    projects: Seq<ProjectStrays>,
    threshold: int,
    p: int,
    dir: Seq<Part>,
)
    requires
        0 <= p < projects.len(),
        dir.len() > 0,
    ensures
        oversized(projects, threshold, (p, dir)) <==> {
            let inside = projects[p].strays@.filter(
                |s: Stray| dir.len() < parts(s.path@).len() && parts(s.path@).take(dir.len() as int) == dir,
            ).len();
            inside >= threshold && inside >= 1
        },
        !oversized(projects, threshold, (p, Seq::empty())),
{
    let strays = projects[p].strays@;
    lemma_held_counts(strays, dir, strays.len() as int);
    assert(strays.take(strays.len() as int) =~= strays);
}

proof fn lemma_held_counts(strays: Seq<Stray>, dir: Seq<Part>, n: int)
    requires
        0 <= n <= strays.len(),
        dir.len() > 0,
    ensures
        held(strays, dir, n) == strays.take(n).filter(
            |s: Stray| dir.len() < parts(s.path@).len() && parts(s.path@).take(dir.len() as int) == dir,
        ).len(),
    decreases n,
{
    let f = |s: Stray|
        dir.len() < parts(s.path@).len() && parts(s.path@).take(dir.len() as int) == dir;
    reveal(Seq::filter);
    if n > 0 {
        lemma_held_counts(strays, dir, n - 1);
        let s = strays[n - 1];
        assert(strays.take(n).drop_last() =~= strays.take(n - 1));
        assert(strays.take(n).last() == s);
        let ps = parts(s.path@);
        let ds = dirs(s.path@);
        assert(lies_in(s.path@, dir) <==> f(s)) by {
            if dir.len() < ps.len() {
                assert(ds.subrange(0, dir.len() as int) =~= ps.take(dir.len() as int));
            }
        }
    }
}

/// Folding at a row folds what the row names: a directory with everything in it, a
/// whole project, and nothing at a file.
pub proof fn a_row_folds_what_it_names(
    projects: Seq<ProjectStrays>,
    row: Row,
    p: int,
    dir: Seq<Part>,
)
    ensures
        is_row_of(projects, row, p, dir) ==> node_at(projects, row) == Some((p, dir)),
        row matches Row::Project { project } ==> node_at(projects, row) == Some(
            (project as int, Seq::<Part>::empty()),
        ),
        row is File ==> node_at(projects, row) is None,
{
}

} // verus!
