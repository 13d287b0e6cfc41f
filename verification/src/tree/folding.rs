//! What folding a node leaves in its place.
//!
//! Folding takes away what is below a row and nothing above it, as long as the
//! strays are in path order: then what lies in one directory stands together,
//! and the directory has one row.

use vstd::prelude::*;

use crate::filter::is_match;
use crate::model::Stray;
use crate::paths::{lemma_parts_between, parts, path_less, Part};
use crate::sorting::in_path_order;
use crate::tree::{
    addressable, dir_rows, dirs, file_rows, hidden, lies_in, node_at, project_rows, rows_from,
    rows_of, shared, stray_rows, ProjectStrays, Row,
};

verus! {

/// Whether the strays of every project are in path order.
pub open spec fn ordered(projects: Seq<ProjectStrays>) -> bool {
    forall|p: int|
        0 <= p < projects.len() ==> in_path_order(
            (#[trigger] projects[p]).strays@,
            |s: Stray| s.path@,
        )
}

/// Whether two sets of folds agree on every node but one.
pub open spec fn agree_but(
    f: Set<(int, Seq<Part>)>,
    g: Set<(int, Seq<Part>)>,
    key: (int, Seq<Part>),
) -> bool {
    forall|x: (int, Seq<Part>)| x != key ==> (#[trigger] f.contains(x) <==> g.contains(x))
}

/// What a fold hides of a path, another project's fold does not, nor one of a
/// directory that the path does not lie in, nor one further down.
proof fn lemma_hidden_same(
    f: Set<(int, Seq<Part>)>,
    g: Set<(int, Seq<Part>)>,
    key: (int, Seq<Part>),
    p: int,
    ds: Seq<Part>,
    len: int,
)
    requires
        agree_but(f, g, key),
        len <= ds.len(),
        p != key.0 || key.1.len() == 0 || len < key.1.len() || !key.1.is_prefix_of(ds),
    ensures
        hidden(f, p, ds, len) == hidden(g, p, ds, len),
{
    assert forall|n: int| 1 <= n <= len implies (f.contains((p, #[trigger] ds.take(n)))
        <==> g.contains((p, ds.take(n)))) by {
        if (p, ds.take(n)) == key {
            assert(key.1.len() == n);
            assert(key.1.is_prefix_of(ds));
        }
    }
    if hidden(f, p, ds, len) {
        let n = choose|n: int| 1 <= n <= len && f.contains((p, #[trigger] ds.take(n)));
        assert(g.contains((p, ds.take(n))));
    }
    if hidden(g, p, ds, len) {
        let n = choose|n: int| 1 <= n <= len && g.contains((p, #[trigger] ds.take(n)));
        assert(f.contains((p, ds.take(n))));
    }
}

proof fn lemma_dir_rows_same(
    f: Set<(int, Seq<Part>)>,
    g: Set<(int, Seq<Part>)>,
    key: (int, Seq<Part>),
    p: int,
    k: int,
    ds: Seq<Part>,
    d: int,
)
    requires
        agree_but(f, g, key),
        p != key.0 || key.1.len() == 0 || !key.1.is_prefix_of(ds),
    ensures
        dir_rows(f, p, k, ds, d) == dir_rows(g, p, k, ds, d),
    decreases ds.len() - d,
{
    if 0 <= d < ds.len() {
        lemma_hidden_same(f, g, key, p, ds, d);
        lemma_dir_rows_same(f, g, key, p, k, ds, d + 1);
    }
}

proof fn lemma_stray_rows_same(
    f: Set<(int, Seq<Part>)>,
    g: Set<(int, Seq<Part>)>,
    key: (int, Seq<Part>),
    p: int,
    k: int,
    path: Seq<char>,
    before: Seq<Part>,
)
    requires
        agree_but(f, g, key),
        p != key.0 || key.1.len() == 0 || !lies_in(path, key.1),
    ensures
        stray_rows(f, p, k, path, before) == stray_rows(g, p, k, path, before),
{
    let ds = dirs(path);
    lemma_dir_rows_same(f, g, key, p, k, ds, shared(before, ds, 0));
    lemma_hidden_same(f, g, key, p, ds, ds.len() as int);
}

proof fn lemma_file_rows_same(
    f: Set<(int, Seq<Part>)>,
    g: Set<(int, Seq<Part>)>,
    key: (int, Seq<Part>),
    p: int,
    strays: Seq<Stray>,
    query: Seq<char>,
    before: Seq<Part>,
    k: int,
)
    requires
        agree_but(f, g, key),
        p != key.0,
    ensures
        file_rows(f, p, strays, query, before, k) == file_rows(g, p, strays, query, before, k),
    decreases strays.len() - k,
{
    if 0 <= k < strays.len() {
        if is_match(query, strays[k].path@) {
            lemma_stray_rows_same(f, g, key, p, k, strays[k].path@, before);
            lemma_file_rows_same(f, g, key, p, strays, query, dirs(strays[k].path@), k + 1);
        } else {
            lemma_file_rows_same(f, g, key, p, strays, query, before, k + 1);
        }
    }
}

/// The rows of directories above a stray name one directory each, from `d + 1`
/// parts on.
proof fn lemma_dir_row(
    f: Set<(int, Seq<Part>)>,
    p: int,
    k: int,
    ds: Seq<Part>,
    d: int,
    i: int,
)
    requires
        0 <= p <= usize::MAX,
        0 <= k <= usize::MAX,
        ds.len() <= usize::MAX,
        0 <= d,
        0 <= i < dir_rows(f, p, k, ds, d).len(),
    ensures
        dir_rows(f, p, k, ds, d)[i] matches Row::Dir { project, stray, depth } && project == p
            && stray == k && d < depth <= ds.len(),
    decreases ds.len() - d,
{
    if d < ds.len() {
        if hidden(f, p, ds, d) {
            lemma_dir_row(f, p, k, ds, d + 1, i);
        } else if i > 0 {
            lemma_dir_row(f, p, k, ds, d + 1, i - 1);
        }
    }
}

/// The row of the directory that is folded is where it was among the rows of
/// directories above a stray.
proof fn lemma_dir_row_stays(
    f: Set<(int, Seq<Part>)>,
    g: Set<(int, Seq<Part>)>,
    dir: Seq<Part>,
    p: int,
    k: int,
    ds: Seq<Part>,
    d: int,
    i: int,
)
    requires
        0 <= p <= usize::MAX,
        0 <= k <= usize::MAX,
        ds.len() <= usize::MAX,
        agree_but(f, g, (p, dir)),
        0 <= d < dir.len(),
        dir.is_prefix_of(ds),
        0 <= i < dir_rows(f, p, k, ds, d).len(),
        dir_rows(f, p, k, ds, d)[i] matches Row::Dir { depth, .. } && depth == dir.len(),
    ensures
        i < dir_rows(g, p, k, ds, d).len(),
        dir_rows(g, p, k, ds, d)[i] == dir_rows(f, p, k, ds, d)[i],
    decreases ds.len() - d,
{
    lemma_hidden_same(f, g, (p, dir), p, ds, d);
    if hidden(f, p, ds, d) {
        if d + 1 == dir.len() {
            lemma_dir_row(f, p, k, ds, d + 1, i);
        } else {
            lemma_dir_row_stays(f, g, dir, p, k, ds, d + 1, i);
        }
    } else if i > 0 {
        if d + 1 == dir.len() {
            lemma_dir_row(f, p, k, ds, d + 1, i - 1);
        } else {
            lemma_dir_row_stays(f, g, dir, p, k, ds, d + 1, i - 1);
        }
    }
}

/// A directory's row names what its strays lie in.
proof fn lemma_named(path: Seq<char>, dir: Seq<Part>, depth: int)
    requires
        0 <= depth <= dirs(path).len(),
        parts(path).take(depth) == dir,
    ensures
        lies_in(path, dir),
        depth == dir.len(),
{
    assert(dirs(path).take(depth) =~= dir);
}

/// What two paths share is at least what both start with.
proof fn lemma_shared_least(a: Seq<Part>, b: Seq<Part>, dir: Seq<Part>, i: int)
    requires
        0 <= i,
        dir.is_prefix_of(a),
        dir.is_prefix_of(b),
    ensures
        shared(a, b, i) >= i,
        shared(a, b, i) >= dir.len() || i > dir.len(),
    decreases a.len() - i,
{
    if i < dir.len() {
        assert(a[i] == a.take(dir.len() as int)[i]);
        assert(b[i] == b.take(dir.len() as int)[i]);
        lemma_shared_least(a, b, dir, i + 1);
    } else if i < a.len() && i < b.len() && a[i] == b[i] {
        lemma_shared_least(a, b, dir, i + 1);
    }
}

/// What two paths share of a directory that only one of them lies in is not all
/// of it.
proof fn lemma_shared_most(a: Seq<Part>, b: Seq<Part>, dir: Seq<Part>, i: int)
    requires
        0 <= i <= a.len(),
        i <= b.len(),
        a.take(i) == b.take(i),
        i < dir.len(),
        dir.is_prefix_of(b),
        !dir.is_prefix_of(a),
    ensures
        0 <= shared(a, b, i) < dir.len(),
    decreases a.len() - i,
{
    if i < a.len() && i < b.len() && a[i] == b[i] {
        assert(a.take(i + 1) =~= a.take(i).push(a[i]));
        assert(b.take(i + 1) =~= b.take(i).push(b[i]));
        if i + 1 == dir.len() {
            assert(dir =~= b.take(i + 1));
        } else {
            lemma_shared_most(a, b, dir, i + 1);
        }
    }
}

/// What lies in one directory stands together.
proof fn lemma_together(strays: Seq<Stray>, dir: Seq<Part>, a: int, b: int, c: int)
    requires
        in_path_order(strays, |s: Stray| s.path@),
        0 <= a < b < c < strays.len(),
        dir.len() > 0,
        lies_in(strays[a].path@, dir),
        lies_in(strays[c].path@, dir),
    ensures
        lies_in(strays[b].path@, dir),
{
    let key = |s: Stray| s.path@;
    assert(!path_less(key(strays[b]), key(strays[a])));
    assert(!path_less(key(strays[c]), key(strays[b])));
    let (x, y, z) = (parts(strays[a].path@), parts(strays[b].path@), parts(strays[c].path@));
    assert(x.take(dir.len() as int) =~= dir);
    assert(z.take(dir.len() as int) =~= dir);
    lemma_parts_between(x, y, z, dir);
    assert(dirs(strays[b].path@).take(dir.len() as int) =~= dir);
}

/// A row among those of a project's strays is a file's, or a directory's that
/// the stray it names lies in.
proof fn lemma_file_row(
    projects: Seq<ProjectStrays>,
    f: Set<(int, Seq<Part>)>,
    query: Seq<char>,
    p: int,
    before: Seq<Part>,
    k: int,
    i: int,
)
    requires
        addressable(projects),
        0 <= p < projects.len(),
        0 <= k,
        0 <= i < file_rows(f, p, projects[p].strays@, query, before, k).len(),
    ensures
        match file_rows(f, p, projects[p].strays@, query, before, k)[i] {
            Row::Project { .. } => false,
            Row::Dir { project, stray, depth } => project == p && stray
                < projects[p].strays@.len() && 0 < depth <= dirs(
                projects[p].strays@[stray as int].path@,
            ).len(),
            Row::File { project, .. } => project == p,
        },
    decreases projects[p].strays@.len() - k,
{
    let strays = projects[p].strays@;
    if k < strays.len() {
        if is_match(query, strays[k].path@) {
            assert(parts(projects[p].strays@[k].path@).len() <= usize::MAX);
            let ds = dirs(strays[k].path@);
            let at = shared(before, ds, 0);
            lemma_shared_least(before, ds, Seq::empty(), 0);
            let above = dir_rows(f, p, k, ds, at);
            let own = stray_rows(f, p, k, strays[k].path@, before);
            if i < above.len() {
                lemma_dir_row(f, p, k, ds, at, i);
            } else if i >= own.len() {
                lemma_file_row(projects, f, query, p, ds, k + 1, i - own.len());
            }
        } else {
            lemma_file_row(projects, f, query, p, before, k + 1, i);
        }
    }
}

/// Behind a stray of a directory, the directory has no row any more.
proof fn lemma_no_second_row(
    projects: Seq<ProjectStrays>,
    f: Set<(int, Seq<Part>)>,
    query: Seq<char>,
    dir: Seq<Part>,
    p: int,
    first: int,
    before: Seq<Part>,
    k: int,
    i: int,
)
    requires
        addressable(projects),
        ordered(projects),
        0 <= p < projects.len(),
        dir.len() > 0,
        0 <= first < k,
        first < projects[p].strays@.len(),
        lies_in(projects[p].strays@[first].path@, dir),
        dir.is_prefix_of(before) || forall|j: int|
            k <= j < projects[p].strays@.len() ==> !lies_in(
                (#[trigger] projects[p].strays@[j]).path@,
                dir,
            ),
        0 <= i < file_rows(f, p, projects[p].strays@, query, before, k).len(),
    ensures
        node_at(projects, file_rows(f, p, projects[p].strays@, query, before, k)[i]) != Some(
            (p, dir),
        ),
    decreases projects[p].strays@.len() - k,
{
    let strays = projects[p].strays@;
    if k < strays.len() {
        assert(parts(projects[p].strays@[k].path@).len() <= usize::MAX);
        let path = strays[k].path@;
        let ds = dirs(path);
        if !is_match(query, path) {
            lemma_no_second_row(projects, f, query, dir, p, first, before, k + 1, i);
        } else {
            let at = shared(before, ds, 0);
            lemma_shared_least(before, ds, Seq::empty(), 0);
            let above = dir_rows(f, p, k, ds, at);
            let own = stray_rows(f, p, k, path, before);
            if lies_in(path, dir) {
                lemma_shared_least(before, ds, dir, 0);
            } else {
                assert forall|j: int| k + 1 <= j < strays.len() implies !lies_in(
                    (#[trigger] projects[p].strays@[j]).path@,
                    dir,
                ) by {
                    if lies_in(strays[j].path@, dir) {
                        lemma_together(strays, dir, first, k, j);
                    }
                }
            }
            if i < above.len() {
                lemma_dir_row(f, p, k, ds, at, i);
                if let Row::Dir { depth, .. } = above[i] {
                    if parts(path).take(depth as int) == dir {
                        lemma_named(path, dir, depth as int);
                    }
                }
            } else if i >= own.len() {
                lemma_no_second_row(projects, f, query, dir, p, first, ds, k + 1, i - own.len());
            }
        }
    }
}

/// The row of the directory that is folded is where it was among the rows of its
/// project's strays.
proof fn lemma_row_stays_in_project(
    projects: Seq<ProjectStrays>,
    f: Set<(int, Seq<Part>)>,
    g: Set<(int, Seq<Part>)>,
    query: Seq<char>,
    dir: Seq<Part>,
    p: int,
    before: Seq<Part>,
    k: int,
    i: int,
)
    requires
        addressable(projects),
        ordered(projects),
        agree_but(f, g, (p, dir)),
        0 <= p < projects.len(),
        dir.len() > 0,
        0 <= k,
        !dir.is_prefix_of(before),
        0 <= i < file_rows(f, p, projects[p].strays@, query, before, k).len(),
        node_at(projects, file_rows(f, p, projects[p].strays@, query, before, k)[i]) == Some(
            (p, dir),
        ),
    ensures
        i < file_rows(g, p, projects[p].strays@, query, before, k).len(),
        file_rows(g, p, projects[p].strays@, query, before, k)[i] == file_rows(
            f,
            p,
            projects[p].strays@,
            query,
            before,
            k,
        )[i],
    decreases projects[p].strays@.len() - k,
{
    let strays = projects[p].strays@;
    if k < strays.len() {
        assert(parts(projects[p].strays@[k].path@).len() <= usize::MAX);
        let path = strays[k].path@;
        let ds = dirs(path);
        if !is_match(query, path) {
            lemma_row_stays_in_project(projects, f, g, query, dir, p, before, k + 1, i);
        } else {
            let at = shared(before, ds, 0);
            lemma_shared_least(before, ds, Seq::empty(), 0);
            let above = dir_rows(f, p, k, ds, at);
            let own = stray_rows(f, p, k, path, before);
            if i < above.len() {
                lemma_dir_row(f, p, k, ds, at, i);
                if let Row::Dir { depth, .. } = above[i] {
                    lemma_named(path, dir, depth as int);
                    assert(before.take(0) =~= ds.take(0));
                    lemma_shared_most(before, ds, dir, 0);
                    lemma_dir_row_stays(f, g, dir, p, k, ds, at, i);
                }
            } else if i >= own.len() {
                if lies_in(path, dir) {
                    lemma_no_second_row(projects, f, query, dir, p, k, ds, k + 1, i - own.len());
                } else {
                    lemma_stray_rows_same(f, g, (p, dir), p, k, path, before);
                    lemma_row_stays_in_project(
                        projects,
                        f,
                        g,
                        query,
                        dir,
                        p,
                        ds,
                        k + 1,
                        i - own.len(),
                    );
                }
            }
        }
    }
}

/// Which project a row belongs to.
spec fn project_of(row: Row) -> int {
    match row {
        Row::Project { project } => project as int,
        Row::Dir { project, .. } => project as int,
        Row::File { project, .. } => project as int,
    }
}

/// A project's rows stand before those of the projects behind it.
proof fn lemma_rows_in_turn(
    projects: Seq<ProjectStrays>,
    f: Set<(int, Seq<Part>)>,
    query: Seq<char>,
    p: int,
    i: int,
)
    requires
        addressable(projects),
        0 <= p,
        0 <= i < rows_from(projects, f, query, p).len(),
    ensures
        project_of(rows_from(projects, f, query, p)[i]) >= p,
        p < projects.len() && i < project_rows(f, p, projects[p].strays@, query).len()
            ==> project_of(rows_from(projects, f, query, p)[i]) == p,
    decreases projects.len() - p,
{
    if p < projects.len() {
        let own = project_rows(f, p, projects[p].strays@, query);
        if i >= own.len() {
            lemma_rows_in_turn(projects, f, query, p + 1, i - own.len());
        } else if i > 0 {
            lemma_file_row(projects, f, query, p, Seq::empty(), 0, i - 1);
        }
    }
}

proof fn lemma_row_stays(
    projects: Seq<ProjectStrays>,
    f: Set<(int, Seq<Part>)>,
    g: Set<(int, Seq<Part>)>,
    query: Seq<char>,
    key: (int, Seq<Part>),
    p: int,
    i: int,
)
    requires
        addressable(projects),
        ordered(projects),
        agree_but(f, g, key),
        0 <= p,
        0 <= i < rows_from(projects, f, query, p).len(),
        node_at(projects, rows_from(projects, f, query, p)[i]) == Some(key),
    ensures
        i < rows_from(projects, g, query, p).len(),
        rows_from(projects, g, query, p)[i] == rows_from(projects, f, query, p)[i],
    decreases projects.len() - p,
{
    if p < projects.len() {
        lemma_rows_in_turn(projects, f, query, p, i);
        let strays = projects[p].strays@;
        let own = project_rows(f, p, strays, query);
        let files = file_rows(f, p, strays, query, Seq::empty(), 0);
        if i >= own.len() {
            lemma_rows_in_turn(projects, f, query, p + 1, i - own.len());
            lemma_file_rows_same(f, g, key, p, strays, query, Seq::empty(), 0);
            lemma_row_stays(projects, f, g, query, key, p + 1, i - own.len());
        } else if i > 0 {
            lemma_file_row(projects, f, query, p, Seq::empty(), 0, i - 1);
            lemma_row_stays_in_project(projects, f, g, query, key.1, p, Seq::empty(), 0, i - 1);
        }
    }
}

/// Folding or unfolding at a row leaves that row where it is, whatever goes or
/// comes below it.
pub proof fn folding_leaves_the_row(
    projects: Seq<ProjectStrays>,
    f: Set<(int, Seq<Part>)>,
    g: Set<(int, Seq<Part>)>,
    query: Seq<char>,
    key: (int, Seq<Part>),
    i: int,
)
    requires
        addressable(projects),
        ordered(projects),
        agree_but(f, g, key),
        0 <= i < rows_of(projects, f, query).len(),
        node_at(projects, rows_of(projects, f, query)[i]) == Some(key),
    ensures
        i < rows_of(projects, g, query).len(),
        rows_of(projects, g, query)[i] == rows_of(projects, f, query)[i],
{
    lemma_row_stays(projects, f, g, query, key, 0, i);
}

/// The rows of directories above a stray go down one after another.
proof fn lemma_deeper(
    f: Set<(int, Seq<Part>)>,
    p: int,
    k: int,
    ds: Seq<Part>,
    d: int,
    i: int,
    j: int,
)
    requires
        0 <= p <= usize::MAX,
        0 <= k <= usize::MAX,
        ds.len() <= usize::MAX,
        0 <= d,
        0 <= i < j < dir_rows(f, p, k, ds, d).len(),
    ensures
        dir_rows(f, p, k, ds, d)[i]->Dir_depth < dir_rows(f, p, k, ds, d)[j]->Dir_depth,
    decreases ds.len() - d,
{
    if d < ds.len() {
        if hidden(f, p, ds, d) {
            lemma_deeper(f, p, k, ds, d + 1, i, j);
        } else if i > 0 {
            lemma_deeper(f, p, k, ds, d + 1, i - 1, j - 1);
        } else {
            lemma_dir_row(f, p, k, ds, d + 1, j - 1);
        }
    }
}

proof fn lemma_one_row(
    projects: Seq<ProjectStrays>,
    f: Set<(int, Seq<Part>)>,
    query: Seq<char>,
    dir: Seq<Part>,
    p: int,
    before: Seq<Part>,
    k: int,
    i: int,
    j: int,
)
    requires
        addressable(projects),
        ordered(projects),
        0 <= p < projects.len(),
        0 <= k,
        0 <= i < j < file_rows(f, p, projects[p].strays@, query, before, k).len(),
        node_at(projects, file_rows(f, p, projects[p].strays@, query, before, k)[i]) == Some(
            (p, dir),
        ),
    ensures
        node_at(projects, file_rows(f, p, projects[p].strays@, query, before, k)[j]) != Some(
            (p, dir),
        ),
    decreases projects[p].strays@.len() - k,
{
    let strays = projects[p].strays@;
    let rows = file_rows(f, p, strays, query, before, k);
    if k < strays.len() {
        assert(parts(projects[p].strays@[k].path@).len() <= usize::MAX);
        let path = strays[k].path@;
        let ds = dirs(path);
        if !is_match(query, path) {
            lemma_one_row(projects, f, query, dir, p, before, k + 1, i, j);
        } else {
            let at = shared(before, ds, 0);
            lemma_shared_least(before, ds, Seq::empty(), 0);
            let above = dir_rows(f, p, k, ds, at);
            let own = stray_rows(f, p, k, path, before);
            let rest = file_rows(f, p, strays, query, ds, k + 1);
            assert(rows == own + rest);
            if i >= own.len() {
                assert(rows[i] == rest[i - own.len()] && rows[j] == rest[j - own.len()]);
                lemma_one_row(projects, f, query, dir, p, ds, k + 1, i - own.len(), j - own.len());
            } else {
                assert(i < above.len());
                assert(rows[i] == above[i]);
                lemma_dir_row(f, p, k, ds, at, i);
                let depth = above[i]->Dir_depth;
                lemma_named(path, dir, depth as int);
                if j < above.len() {
                    assert(rows[j] == above[j]);
                    lemma_dir_row(f, p, k, ds, at, j);
                    lemma_deeper(f, p, k, ds, at, i, j);
                    let deeper = above[j]->Dir_depth;
                    assert(parts(path).take(deeper as int).len() == deeper);
                } else if j >= own.len() {
                    assert(rows[j] == rest[j - own.len()]);
                    lemma_no_second_row(projects, f, query, dir, p, k, ds, k + 1, j - own.len());
                }
            }
        }
    }
}

proof fn lemma_one_row_from(
    projects: Seq<ProjectStrays>,
    f: Set<(int, Seq<Part>)>,
    query: Seq<char>,
    key: (int, Seq<Part>),
    p: int,
    i: int,
    j: int,
)
    requires
        addressable(projects),
        ordered(projects),
        0 <= p,
        0 <= i < j < rows_from(projects, f, query, p).len(),
        node_at(projects, rows_from(projects, f, query, p)[i]) == Some(key),
    ensures
        node_at(projects, rows_from(projects, f, query, p)[j]) != Some(key),
    decreases projects.len() - p,
{
    if p < projects.len() {
        let strays = projects[p].strays@;
        let own = project_rows(f, p, strays, query);
        let files = file_rows(f, p, strays, query, Seq::empty(), 0);
        let rest = rows_from(projects, f, query, p + 1);
        let rows = rows_from(projects, f, query, p);
        assert(rows == own + rest);
        lemma_rows_in_turn(projects, f, query, p, i);
        lemma_rows_in_turn(projects, f, query, p, j);
        if i >= own.len() {
            lemma_one_row_from(projects, f, query, key, p + 1, i - own.len(), j - own.len());
        } else if j >= own.len() {
            lemma_rows_in_turn(projects, f, query, p + 1, j - own.len());
        } else {
            lemma_file_row(projects, f, query, p, Seq::empty(), 0, j - 1);
            assert(rows[j] == files[j - 1]);
            if i > 0 {
                assert(rows[i] == files[i - 1]);
                lemma_one_row(projects, f, query, key.1, p, Seq::empty(), 0, i - 1, j - 1);
            } else if let Row::Dir { stray, depth, .. } = rows[j] {
                assert(parts(strays[stray as int].path@).take(depth as int).len() == depth);
            }
        }
    }
}

/// What can be folded has one row: no project and no directory stands in the list
/// twice.
pub proof fn a_node_has_one_row(
    projects: Seq<ProjectStrays>,
    folded: Set<(int, Seq<Part>)>,
    query: Seq<char>,
    i: int,
    j: int,
)
    requires
        addressable(projects),
        ordered(projects),
        0 <= i < j < rows_of(projects, folded, query).len(),
        node_at(projects, rows_of(projects, folded, query)[i]) is Some,
    ensures
        node_at(projects, rows_of(projects, folded, query)[j]) != node_at(
            projects,
            rows_of(projects, folded, query)[i],
        ),
{
    let key = node_at(projects, rows_of(projects, folded, query)[i])->0;
    lemma_one_row_from(projects, folded, query, key, 0, i, j);
}

} // verus!
