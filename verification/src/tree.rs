//! The list as it is drawn: projects, the directories in them, and the files
//! that strayed, one row each.
//!
//! A row is a place in the tree rather than a copy of what stands there: a
//! directory is named by a stray beneath it and how many parts of that stray's
//! path it takes. What the rows show changes with every scan, and a copied name
//! would be one more thing to keep in step.

use vstd::prelude::*;

use crate::agent::AgentStatus;
use crate::discover::Project;
use crate::filter::is_match;
use crate::model::{Stray, Upstream};
use crate::paths::{component_parts, components, parts, same_component, Component, Part};
use crate::text::chars_of;

pub mod folding;
pub mod showing;

verus! {

/// One project and what git last said about it.
#[derive(Debug, Clone, PartialEq, Eq)]
pub struct ProjectStrays {
    pub project: Project,
    /// What strayed, in path order.
    pub strays: Vec<Stray>,
    /// The branch, or a short commit when detached.
    pub branch: Option<String>,
    /// How far the branch is from what it tracks, when it tracks anything.
    pub upstream: Option<Upstream>,
    /// When the most recently written stray was last modified, in milliseconds.
    pub touched: Option<u64>,
    /// What the agent running in this repository is doing, when one is.
    pub agent: Option<AgentStatus>,
    /// Why the repository could not be read.
    pub error: Option<String>,
}

/// One row of the list.
#[derive(Debug, Clone, Copy, PartialEq, Eq, Structural)]
pub enum Row {
    Project { project: usize },
    /// The directory that the first `depth` parts of a stray's path name.
    Dir { project: usize, stray: usize, depth: usize },
    File { project: usize, stray: usize, depth: usize },
}

impl Row {
    /// Whether this row is a file.
    pub fn is_file(&self) -> (r: bool)
        ensures
            r == (self is File),
    {
        match self {
            Row::File { .. } => true,
            _ => false,
        }
    }
}

/// Something that can be folded away: a project, or a directory in one.
#[derive(Debug, Clone, PartialEq, Eq)]
pub struct NodeId {
    pub project: usize,
    /// The directory, or nothing for the project itself.
    pub dir: Vec<Component>,
}

/// What a node folds away: the project by its place in the list, and the
/// directory by its parts.
pub open spec fn node_key(node: NodeId) -> (int, Seq<Part>) {
    (node.project as int, component_parts(node.dir@))
}

/// The nodes that are folded away.
#[derive(Debug, Clone, PartialEq, Eq)]
pub struct Folds {
    nodes: Vec<NodeId>,
}

impl View for Folds {
    type V = Set<(int, Seq<Part>)>;

    closed spec fn view(&self) -> Set<(int, Seq<Part>)> {
        self.nodes@.map_values(|n: NodeId| node_key(n)).to_set()
    }
}

impl Default for Folds {
    fn default() -> (r: Self)
        ensures
            r@ == Set::<(int, Seq<Part>)>::empty(),
    {
        Folds::new()
    }
}

/// Whether a node is the directory that the first `len` components name.
fn names(node: &NodeId, project: usize, cs: &Vec<Component>, len: usize) -> (r: bool)
    requires
        len <= cs@.len(),
    ensures
        r == (node_key(*node) == (project as int, component_parts(cs@).take(len as int))),
{
    let ghost wanted = component_parts(cs@).take(len as int);
    let ghost held = component_parts(node.dir@);
    if node.project != project || node.dir.len() != len {
        assert(held.len() != wanted.len() || node.project != project);
        return false;
    }
    for i in 0..len
        invariant
            len <= cs@.len(),
            node.dir@.len() == len,
            wanted == component_parts(cs@).take(len as int),
            held == component_parts(node.dir@),
            forall|j: int| 0 <= j < i ==> held[j] == wanted[j],
    {
        assert(held[i as int] == node.dir@[i as int]@);
        assert(wanted[i as int] == cs@[i as int]@);
        if !same_component(&node.dir[i], &cs[i]) {
            return false;
        }
    }
    assert(held =~= wanted);
    true
}

impl Folds {
    /// Nothing folded.
    pub fn new() -> (r: Self)
        ensures
            r@ == Set::<(int, Seq<Part>)>::empty(),
    {
        let r = Folds { nodes: Vec::new() };
        assert(r@ =~= Set::<(int, Seq<Part>)>::empty());
        r
    }

    /// Whether the directory that the first `len` components name is folded.
    pub fn folds(&self, project: usize, cs: &Vec<Component>, len: usize) -> (r: bool)
        requires
            len <= cs@.len(),
        ensures
            r == self@.contains((project as int, component_parts(cs@).take(len as int))),
    {
        let ghost key = (project as int, component_parts(cs@).take(len as int));
        let ghost keys = self.nodes@.map_values(|n: NodeId| node_key(n));
        for i in 0..self.nodes.len()
            invariant
                len <= cs@.len(),
                keys == self.nodes@.map_values(|n: NodeId| node_key(n)),
                key == (project as int, component_parts(cs@).take(len as int)),
                forall|j: int| 0 <= j < i ==> #[trigger] keys[j] != key,
        {
            assert(keys[i as int] == node_key(self.nodes@[i as int]));
            if names(&self.nodes[i], project, cs, len) {
                assert(keys.contains(key));
                return true;
            }
        }
        false
    }

    /// The folds with one node unfolded if it was folded, and folded if not.
    pub fn toggled(&self, node: NodeId) -> (r: Self)
        ensures
            r@ == (if self@.contains(node_key(node)) {
                self@.remove(node_key(node))
            } else {
                self@.insert(node_key(node))
            }),
    {
        let ghost key = node_key(node);
        let ghost keys = self.nodes@.map_values(|n: NodeId| node_key(n));
        let mut nodes: Vec<NodeId> = Vec::new();
        let mut found = false;
        for i in 0..self.nodes.len()
            invariant
                key == node_key(node),
                keys == self.nodes@.map_values(|n: NodeId| node_key(n)),
                found <==> exists|j: int| 0 <= j < i && #[trigger] keys[j] == key,
                forall|j: int| 0 <= j < nodes@.len() ==> node_key(#[trigger] nodes@[j]) != key,
                forall|j: int|
                    0 <= j < nodes@.len() ==> keys.contains(node_key(#[trigger] nodes@[j])),
                forall|j: int|
                    0 <= j < i && #[trigger] keys[j] != key ==> exists|k: int|
                        0 <= k < nodes@.len() && node_key(#[trigger] nodes@[k]) == keys[j],
        {
            let ghost before = nodes@;
            assert(keys[i as int] == node_key(self.nodes@[i as int]));
            assert(component_parts(node.dir@).take(node.dir@.len() as int) =~= component_parts(
                node.dir@,
            ));
            if names(&self.nodes[i], node.project, &node.dir, node.dir.len()) {
                found = true;
            } else {
                let kept = copied(&self.nodes[i]);
                nodes.push(kept);
                assert(keys.contains(keys[i as int]));
                assert(node_key(nodes@[nodes@.len() - 1]) == keys[i as int]);
                assert forall|j: int| 0 <= j < i + 1 && #[trigger] keys[j] != key implies exists|
                    k: int,
                |
                    0 <= k < nodes@.len() && node_key(#[trigger] nodes@[k]) == keys[j] by {
                    if j < i {
                        let k = choose|k: int|
                            0 <= k < before.len() && node_key(#[trigger] before[k]) == keys[j];
                        assert(nodes@[k] == before[k]);
                    }
                }
            }
        }
        let ghost rest = nodes@;
        if !found {
            nodes.push(node);
        }
        let r = Folds { nodes };
        proof {
            let out = r.nodes@.map_values(|n: NodeId| node_key(n));
            let want = if self@.contains(key) {
                self@.remove(key)
            } else {
                self@.insert(key)
            };
            assert(self@.contains(key) <==> found) by {
                if self@.contains(key) {
                    let j = keys.index_of(key);
                    assert(keys[j] == key);
                }
            }
            assert forall|x: (int, Seq<Part>)| #[trigger] r@.contains(x) == want.contains(x) by {
                if r@.contains(x) {
                    let j = out.index_of(x);
                    assert(out[j] == node_key(r.nodes@[j]));
                    if j < rest.len() {
                        assert(rest[j] == r.nodes@[j]);
                        assert(keys.contains(x));
                    }
                }
                if want.contains(x) {
                    if x == key {
                        assert(!found);
                        assert(out[out.len() - 1] == key);
                    } else {
                        let j = keys.index_of(x);
                        assert(keys[j] != key);
                        let k = choose|k: int|
                            0 <= k < rest.len() && node_key(#[trigger] rest[k]) == keys[j];
                        assert(rest[k] == r.nodes@[k]);
                        assert(out[k] == x);
                    }
                }
            }
            assert(r@ =~= want);
        }
        r
    }
}

/// A node of its own for the same place.
fn copied(node: &NodeId) -> (r: NodeId)
    ensures
        node_key(r) == node_key(*node),
{
    NodeId { project: node.project, dir: leading(&node.dir, node.dir.len()) }
}

/// The first components of a path.
fn leading(cs: &Vec<Component>, len: usize) -> (r: Vec<Component>)
    requires
        len <= cs@.len(),
    ensures
        component_parts(r@) == component_parts(cs@).take(len as int),
{
    let mut out: Vec<Component> = Vec::new();
    for i in 0..len
        invariant
            len <= cs@.len(),
            component_parts(out@) =~= component_parts(cs@).take(i as int),
    {
        let part = match &cs[i] {
            Component::Root => Component::Root,
            Component::Here => Component::Here,
            Component::Up => Component::Up,
            Component::Name(name) => Component::Name(name.clone()),
        };
        let ghost before = component_parts(out@);
        assert(component_parts(cs@)[i as int] == cs@[i as int]@);
        out.push(part);
        assert(component_parts(out@) =~= before.push(part@));
    }
    out
}

/// The directories above the last part of a path.
pub open spec fn dirs(path: Seq<char>) -> Seq<Part> {
    let ps = parts(path);
    if ps.len() == 0 {
        ps
    } else {
        ps.drop_last()
    }
}

/// How many parts two paths share from the front, of which the first `i` are
/// known to be shared.
pub open spec fn shared(a: Seq<Part>, b: Seq<Part>, i: int) -> int
    decreases a.len() - i,
{
    if 0 <= i < a.len() && i < b.len() && a[i] == b[i] {
        shared(a, b, i + 1)
    } else {
        i
    }
}

/// Whether one of the first `len` directories of a path is folded away.
pub open spec fn hidden(folded: Set<(int, Seq<Part>)>, p: int, ds: Seq<Part>, len: int) -> bool {
    exists|n: int| 1 <= n <= len && folded.contains((p, #[trigger] ds.take(n)))
}

/// The directory rows above a stray, from the directory of `d + 1` parts on: one
/// for each directory that nothing above it hides.
pub open spec fn dir_rows(
    folded: Set<(int, Seq<Part>)>,
    p: int,
    k: int,
    ds: Seq<Part>,
    d: int,
) -> Seq<Row>
    decreases ds.len() - d,
{
    if d < 0 || d >= ds.len() {
        Seq::empty()
    } else if hidden(folded, p, ds, d) {
        dir_rows(folded, p, k, ds, d + 1)
    } else {
        seq![Row::Dir { project: p as usize, stray: k as usize, depth: (d + 1) as usize }]
            + dir_rows(folded, p, k, ds, d + 1)
    }
}

/// The rows of one stray: the directories above it that the stray before it did
/// not share, and the file itself.
pub open spec fn stray_rows(
    folded: Set<(int, Seq<Part>)>,
    p: int,
    k: int,
    path: Seq<char>,
    before: Seq<Part>,
) -> Seq<Row> {
    let ds = dirs(path);
    dir_rows(folded, p, k, ds, shared(before, ds, 0)) + (if hidden(
        folded,
        p,
        ds,
        ds.len() as int,
    ) {
        Seq::empty()
    } else {
        seq![
            Row::File {
                project: p as usize,
                stray: k as usize,
                depth: parts(path).len() as usize,
            },
        ]
    })
}

/// The rows of a project's strays from the `k`-th on, of those that a query
/// names, below the directories `before` of the one listed last.
pub open spec fn file_rows(
    folded: Set<(int, Seq<Part>)>,
    p: int,
    strays: Seq<Stray>,
    query: Seq<char>,
    before: Seq<Part>,
    k: int,
) -> Seq<Row>
    decreases strays.len() - k,
{
    if k < 0 || k >= strays.len() {
        Seq::empty()
    } else if is_match(query, strays[k].path@) {
        stray_rows(folded, p, k, strays[k].path@, before) + file_rows(
            folded,
            p,
            strays,
            query,
            dirs(strays[k].path@),
            k + 1,
        )
    } else {
        file_rows(folded, p, strays, query, before, k + 1)
    }
}

/// Whether a query names any stray of a project.
pub open spec fn names_any(strays: Seq<Stray>, query: Seq<char>) -> bool {
    exists|k: int| 0 <= k < strays.len() && is_match(query, #[trigger] strays[k].path@)
}

/// The rows of one project: its own, and what is in it unless it is folded
/// away. A query that names nothing in it leaves it out.
pub open spec fn project_rows(
    folded: Set<(int, Seq<Part>)>,
    p: int,
    strays: Seq<Stray>,
    query: Seq<char>,
) -> Seq<Row> {
    if query.len() > 0 && !names_any(strays, query) {
        Seq::empty()
    } else {
        seq![Row::Project { project: p as usize }] + (if folded.contains((p, Seq::empty())) {
            Seq::empty()
        } else {
            file_rows(folded, p, strays, query, Seq::empty(), 0)
        })
    }
}

/// The rows of the list from the `p`-th project on.
pub open spec fn rows_from(
    projects: Seq<ProjectStrays>,
    folded: Set<(int, Seq<Part>)>,
    query: Seq<char>,
    p: int,
) -> Seq<Row>
    decreases projects.len() - p,
{
    if p < 0 || p >= projects.len() {
        Seq::empty()
    } else {
        project_rows(folded, p, projects[p].strays@, query) + rows_from(
            projects,
            folded,
            query,
            p + 1,
        )
    }
}

/// The rows of the list.
pub open spec fn rows_of(
    projects: Seq<ProjectStrays>,
    folded: Set<(int, Seq<Part>)>,
    query: Seq<char>,
) -> Seq<Row> {
    rows_from(projects, folded, query, 0)
}

/// How many of the components `a` and `b` share from the front, leaving the
/// last of `b` out.
fn shared_len(a: &Vec<Component>, a_len: usize, b: &Vec<Component>, b_len: usize) -> (r: usize)
    requires
        a_len <= a@.len(),
        b_len <= b@.len(),
    ensures
        r == shared(
            component_parts(a@).take(a_len as int),
            component_parts(b@).take(b_len as int),
            0,
        ),
        r <= b_len,
{
    let ghost x = component_parts(a@).take(a_len as int);
    let ghost y = component_parts(b@).take(b_len as int);
    let mut i: usize = 0;
    while i < a_len && i < b_len && same_component(&a[i], &b[i])
        invariant
            a_len <= a@.len(),
            b_len <= b@.len(),
            i <= a_len,
            i <= b_len,
            x == component_parts(a@).take(a_len as int),
            y == component_parts(b@).take(b_len as int),
            shared(x, y, i as int) == shared(x, y, 0),
        decreases a_len - i,
    {
        assert(x[i as int] == a@[i as int]@);
        assert(y[i as int] == b@[i as int]@);
        i += 1;
    }
    assert(i < a_len ==> x[i as int] == a@[i as int]@);
    assert(i < b_len ==> y[i as int] == b@[i as int]@);
    i
}

/// How long the shortest folded directory above the last component is, or `len`
/// and one more where there is none.
fn first_fold(folds: &Folds, p: usize, cs: &Vec<Component>, len: usize) -> (r: usize)
    requires
        len <= cs@.len(),
        len < usize::MAX,
    ensures
        1 <= r <= len + 1,
        forall|d: int|
            0 <= d <= len ==> (#[trigger] hidden(
                folds@,
                p as int,
                component_parts(cs@).take(len as int),
                d,
            ) <==> r <= d),
{
    let ghost ds = component_parts(cs@).take(len as int);
    let mut n: usize = 1;
    while n <= len && !folds.folds(p, cs, n)
        invariant
            len <= cs@.len(),
            len < usize::MAX,
            1 <= n <= len + 1,
            ds == component_parts(cs@).take(len as int),
            forall|m: int| 1 <= m < n ==> !folds@.contains((p as int, #[trigger] ds.take(m))),
        decreases len + 1 - n,
    {
        assert(ds.take(n as int) =~= component_parts(cs@).take(n as int));
        n += 1;
    }
    proof {
        if n <= len {
            assert(ds.take(n as int) =~= component_parts(cs@).take(n as int));
        }
        assert forall|d: int| 0 <= d <= len implies (#[trigger] hidden(folds@, p as int, ds, d)
            <==> n <= d) by {
            if n <= d {
                assert(folds@.contains((p as int, ds.take(n as int))));
            }
        }
    }
    n
}

/// How many of a path's components are directories.
fn dir_len(cs: &Vec<Component>) -> (r: usize)
    ensures
        r <= cs@.len(),
        r < usize::MAX,
        r == cs@.len() - 1 || (r == 0 && cs@.len() == 0),
{
    if cs.len() == 0 {
        0
    } else {
        cs.len() - 1
    }
}

/// The rows of one stray.
fn push_stray(
    rows: &mut Vec<Row>,
    folds: &Folds,
    p: usize,
    k: usize,
    cs: &Vec<Component>,
    before: &Vec<Component>,
    Ghost(path): Ghost<Seq<char>>,
    Ghost(above): Ghost<Seq<Part>>,
)
    requires
        component_parts(cs@) == parts(path),
        above == (if before@.len() == 0 {
            Seq::<Part>::empty()
        } else {
            component_parts(before@).drop_last()
        }),
    ensures
        final(rows)@ == old(rows)@ + stray_rows(folds@, p as int, k as int, path, above),
{
    let len = dir_len(cs);
    let ghost ds = dirs(path);
    assert(component_parts(cs@).take(len as int) =~= ds);
    let above_len = dir_len(before);
    assert(component_parts(before@).take(above_len as int) =~= above);
    let from = shared_len(before, above_len, cs, len);
    let fold = first_fold(folds, p, cs, len);
    let mut d: usize = from;
    let ghost all = dir_rows(folds@, p as int, k as int, ds, from as int);
    assert(rows@ + all =~= old(rows)@ + all);
    while d < len
        invariant
            d <= len,
            len < usize::MAX,
            len == ds.len(),
            forall|e: int|
                0 <= e <= len ==> (#[trigger] hidden(folds@, p as int, ds, e) <==> fold <= e),
            rows@ + dir_rows(folds@, p as int, k as int, ds, d as int) == old(rows)@ + all,
        decreases len - d,
    {
        let ghost now = rows@;
        if fold > d {
            rows.push(Row::Dir { project: p, stray: k, depth: d + 1 });
        }
        assert(rows@ + dir_rows(folds@, p as int, k as int, ds, d + 1) =~= now + dir_rows(
            folds@,
            p as int,
            k as int,
            ds,
            d as int,
        ));
        d += 1;
    }
    assert(rows@ =~= old(rows)@ + all);
    assert(hidden(folds@, p as int, ds, len as int) <==> fold <= len);
    if fold > len {
        rows.push(Row::File { project: p, stray: k, depth: cs.len() });
    }
    assert(rows@ =~= old(rows)@ + stray_rows(folds@, p as int, k as int, path, above));
}

/// The rows of a project's strays.
fn push_strays(rows: &mut Vec<Row>, folds: &Folds, p: usize, strays: &Vec<Stray>, query: &str)
    ensures
        final(rows)@ == old(rows)@ + file_rows(
            folds@,
            p as int,
            strays@,
            query@,
            Seq::empty(),
            0,
        ),
{
    let mut before: Vec<Component> = Vec::new();
    let ghost mut above: Seq<Part> = Seq::empty();
    let ghost all = file_rows(folds@, p as int, strays@, query@, Seq::empty(), 0);
    for k in 0..strays.len()
        invariant
            above == (if before@.len() == 0 {
                Seq::<Part>::empty()
            } else {
                component_parts(before@).drop_last()
            }),
            rows@ + file_rows(folds@, p as int, strays@, query@, above, k as int) == old(rows)@
                + all,
    {
        let ghost now = rows@;
        let ghost was = above;
        if crate::filter::matches(query, strays[k].path.as_str()) {
            let cs = components(strays[k].path.as_str());
            push_stray(
                rows,
                folds,
                p,
                k,
                &cs,
                &before,
                Ghost(strays@[k as int].path@),
                Ghost(above),
            );
            before = cs;
            proof {
                above = dirs(strays@[k as int].path@);
                assert(before@.len() == 0 ==> above =~= Seq::<Part>::empty());
            }
        }
        assert(rows@ + file_rows(folds@, p as int, strays@, query@, above, k + 1) =~= now
            + file_rows(folds@, p as int, strays@, query@, was, k as int));
    }
    assert(rows@ =~= old(rows)@ + all);
}

/// Whether a query names any stray of a project.
fn any_named(strays: &Vec<Stray>, query: &str) -> (r: bool)
    ensures
        r == names_any(strays@, query@),
{
    for k in 0..strays.len()
        invariant
            forall|j: int| 0 <= j < k ==> !is_match(query@, #[trigger] strays@[j].path@),
    {
        if crate::filter::matches(query, strays[k].path.as_str()) {
            assert(is_match(query@, strays@[k as int].path@));
            return true;
        }
    }
    false
}

/// The rows of the list, narrowed to what a query names. An empty query names
/// everything.
pub fn flatten_filtered(projects: &Vec<ProjectStrays>, folds: &Folds, query: &str) -> (r: Vec<Row>)
    ensures
        r@ == rows_of(projects@, folds@, query@),
{
    let narrowed = chars_of(query).len() > 0;
    let mut rows: Vec<Row> = Vec::new();
    let none: Vec<Component> = Vec::new();
    assert(component_parts(none@).take(0) =~= Seq::<Part>::empty());
    assert(rows@ + rows_of(projects@, folds@, query@) =~= rows_of(projects@, folds@, query@));
    for p in 0..projects.len()
        invariant
            narrowed == (query@.len() > 0),
            none@.len() == 0,
            component_parts(none@).take(0) == Seq::<Part>::empty(),
            rows@ + rows_from(projects@, folds@, query@, p as int) == rows_of(
                projects@,
                folds@,
                query@,
            ),
    {
        let ghost now = rows@;
        let strays = &projects[p].strays;
        if !narrowed || any_named(strays, query) {
            rows.push(Row::Project { project: p });
            if !folds.folds(p, &none, 0) {
                push_strays(&mut rows, folds, p, strays, query);
            }
        }
        assert(rows@ =~= now + project_rows(folds@, p as int, strays@, query@));
        assert(rows@ + rows_from(projects@, folds@, query@, p + 1) =~= now + rows_from(
            projects@,
            folds@,
            query@,
            p as int,
        ));
    }
    assert(rows@ =~= rows@ + rows_from(projects@, folds@, query@, projects@.len() as int));
    rows
}

/// The rows of the whole list.
pub fn flatten(projects: &Vec<ProjectStrays>, folds: &Folds) -> (r: Vec<Row>)
    ensures
        r@ == rows_of(projects@, folds@, Seq::empty()),
{
    proof {
        reveal_strlit("");
        assert(""@ =~= Seq::<char>::empty());
    }
    flatten_filtered(projects, folds, "")
}

/// What folding at a row folds away: nothing at a file.
pub open spec fn node_at(projects: Seq<ProjectStrays>, row: Row) -> Option<(int, Seq<Part>)> {
    match row {
        Row::Project { project } => Some((project as int, Seq::empty())),
        Row::Dir { project, stray, depth } => if project < projects.len() && stray
            < projects[project as int].strays@.len() && depth <= parts(
            projects[project as int].strays@[stray as int].path@,
        ).len() {
            Some(
                (
                    project as int,
                    parts(projects[project as int].strays@[stray as int].path@).take(depth as int),
                ),
            )
        } else {
            None
        },
        Row::File { .. } => None,
    }
}

/// What folding at a row folds away: nothing at a file.
pub fn node_of(projects: &Vec<ProjectStrays>, row: &Row) -> (r: Option<NodeId>)
    ensures
        match (r, node_at(projects@, *row)) {
            (Some(node), Some(key)) => node_key(node) == key,
            (None, None) => true,
            _ => false,
        },
{
    match *row {
        Row::Project { project } => {
            let node = NodeId { project, dir: Vec::new() };
            assert(component_parts(node.dir@) =~= Seq::<Part>::empty());
            Some(node)
        },
        Row::Dir { project, stray, depth } => {
            if project >= projects.len() || stray >= projects[project].strays.len() {
                return None;
            }
            let cs = components(projects[project].strays[stray].path.as_str());
            if depth > cs.len() {
                assert(component_parts(cs@).len() == cs@.len());
                return None;
            }
            assert(component_parts(cs@).len() == cs@.len());
            Some(NodeId { project, dir: leading(&cs, depth) })
        },
        Row::File { .. } => None,
    }
}

/// Whether a stray lies in a directory, at any depth.
pub open spec fn lies_in(path: Seq<char>, dir: Seq<Part>) -> bool {
    dir.is_prefix_of(dirs(path))
}

/// How many of the first `n` strays lie in a directory.
pub open spec fn held(strays: Seq<Stray>, dir: Seq<Part>, n: int) -> int
    decreases n,
{
    if n <= 0 || n > strays.len() {
        0
    } else {
        held(strays, dir, n - 1) + (if lies_in(strays[n - 1].path@, dir) {
            1int
        } else {
            0
        })
    }
}

/// Whether a directory holds strays, and at least so many.
pub open spec fn oversized(
    projects: Seq<ProjectStrays>,
    threshold: int,
    key: (int, Seq<Part>),
) -> bool {
    &&& 0 <= key.0 < projects.len()
    &&& key.1.len() > 0
    &&& held(
        projects[key.0].strays@,
        key.1,
        projects[key.0].strays@.len() as int,
    ) >= (if threshold < 1 {
        1
    } else {
        threshold
    })
}

/// How many strays lie in the directory that the first `len` components name.
fn count_held(strays: &Vec<Stray>, cs: &Vec<Component>, len: usize) -> (r: usize)
    requires
        len <= cs@.len(),
    ensures
        r == held(strays@, component_parts(cs@).take(len as int), strays@.len() as int),
{
    let ghost dir = component_parts(cs@).take(len as int);
    let mut count: usize = 0;
    for n in 0..strays.len()
        invariant
            len <= cs@.len(),
            dir == component_parts(cs@).take(len as int),
            count == held(strays@, dir, n as int),
            count <= n,
    {
        let other = components(strays[n].path.as_str());
        let other_len = dir_len(&other);
        let ghost ds = dirs(strays@[n as int].path@);
        assert(component_parts(other@).take(other_len as int) =~= ds);
        let common = shared_len(cs, len, &other, other_len);
        proof {
            assert(dir.take(0) =~= ds.take(0));
            lemma_shared(dir, ds, 0);
        }
        if common == len {
            count += 1;
        }
    }
    count
}

/// All of a path is shared where it is the front of the other, and only there.
proof fn lemma_shared(a: Seq<Part>, b: Seq<Part>, i: int)
    requires
        0 <= i <= a.len(),
        i <= b.len(),
        a.take(i) == b.take(i),
    ensures
        shared(a, b, i) == a.len() <==> a.is_prefix_of(b),
    decreases a.len() - i,
{
    if i < a.len() && i < b.len() && a[i] == b[i] {
        assert(a.take(i + 1) =~= a.take(i).push(a[i]));
        assert(b.take(i + 1) =~= b.take(i).push(b[i]));
        lemma_shared(a, b, i + 1);
    } else if i == a.len() {
        assert(a.take(i) =~= a);
    } else if a.is_prefix_of(b) {
        assert(a[i] == b.subrange(0, a.len() as int)[i]);
    }
}

/// Whether a directory holds one of the first `k` strays, or of the next one is
/// among its first `d` directories.
spec fn seen(strays: Seq<Stray>, dir: Seq<Part>, k: int, d: int) -> bool {
    ||| exists|j: int| 0 <= j < k && lies_in(#[trigger] strays[j].path@, dir)
    ||| (k < strays.len() && dir.len() <= d && lies_in(strays[k].path@, dir))
}

/// A directory that holds strays holds one that can be pointed at.
proof fn lemma_held(strays: Seq<Stray>, dir: Seq<Part>, n: int)
    requires
        0 <= n <= strays.len(),
        held(strays, dir, n) > 0,
    ensures
        exists|j: int| 0 <= j < n && lies_in(#[trigger] strays[j].path@, dir),
    decreases n,
{
    if !lies_in(strays[n - 1].path@, dir) {
        lemma_held(strays, dir, n - 1);
    }
}

/// Fold the oversized directories above one stray.
fn fold_above(
    folds: Folds,
    projects: &Vec<ProjectStrays>,
    threshold: usize,
    p: usize,
    k: usize,
) -> (r: Folds)
    requires
        p < projects@.len(),
        k < projects@[p as int].strays@.len(),
        forall|key: (int, Seq<Part>)| #[trigger]
            folds@.contains(key) <==> oversized(projects@, threshold as int, key) && (key.0 < p || (
            key.0 == p && seen(projects@[p as int].strays@, key.1, k as int, 0))),
    ensures
        forall|key: (int, Seq<Part>)| #[trigger]
            r@.contains(key) <==> oversized(projects@, threshold as int, key) && (key.0 < p || (
            key.0 == p && seen(projects@[p as int].strays@, key.1, k + 1, 0))),
{
    let strays = &projects[p].strays;
    let cs = components(strays[k].path.as_str());
    let len = dir_len(&cs);
    let ghost ds = dirs(strays@[k as int].path@);
    assert(component_parts(cs@).take(len as int) =~= ds);
    let mut folds = folds;
    for d in 0..len
        invariant
            p < projects@.len(),
            strays == projects@[p as int].strays,
            k < strays@.len(),
            len <= cs@.len(),
            len == ds.len(),
            ds == dirs(strays@[k as int].path@),
            component_parts(cs@).take(len as int) == ds,
            forall|key: (int, Seq<Part>)| #[trigger]
                folds@.contains(key) <==> oversized(projects@, threshold as int, key) && (key.0 < p
                    || (key.0 == p && seen(strays@, key.1, k as int, d as int))),
    {
        let ghost dir = ds.take(d + 1);
        let ghost here = (p as int, dir);
        assert(component_parts(cs@).take(d + 1) =~= dir);
        assert(dir.is_prefix_of(ds)) by {
            assert(ds.subrange(0, dir.len() as int) =~= dir);
        }
        let ghost was = folds@;
        let wanted = if threshold < 1 {
            1
        } else {
            threshold
        };
        if !folds.folds(p, &cs, d + 1) && count_held(strays, &cs, d + 1) >= wanted {
            folds = folds.toggled(NodeId { project: p, dir: leading(&cs, d + 1) });
        }
        proof {
            assert(lies_in(strays@[k as int].path@, dir));
            assert(seen(strays@, dir, k as int, d + 1));
            assert(folds@ =~= (if oversized(projects@, threshold as int, here) {
                was.insert(here)
            } else {
                was
            }));
            assert forall|key: (int, Seq<Part>)| #[trigger] folds@.contains(key) <==> oversized(
                projects@,
                threshold as int,
                key,
            ) && (key.0 < p || (key.0 == p && seen(strays@, key.1, k as int, d + 1))) by {
                if key.0 == p && key.1.len() == d + 1 && lies_in(strays@[k as int].path@, key.1) {
                    assert(key.1 =~= dir);
                }
                assert(folds@.contains(key) <==> was.contains(key) || (key == here && oversized(
                    projects@,
                    threshold as int,
                    here,
                )));
            }
        }
    }
    proof {
        assert forall|key: (int, Seq<Part>)| #[trigger] folds@.contains(key) <==> oversized(
            projects@,
            threshold as int,
            key,
        ) && (key.0 < p || (key.0 == p && seen(strays@, key.1, k + 1, 0))) by {
            if key.1.len() > 0 {
                if lies_in(strays@[k as int].path@, key.1) {
                    assert(key.1.len() <= len);
                }
                if exists|j: int| 0 <= j < k + 1 && lies_in(#[trigger] strays@[j].path@, key.1) {
                    let j = choose|j: int|
                        0 <= j < k + 1 && lies_in(#[trigger] strays@[j].path@, key.1);
                    assert(j < k || j == k);
                }
                assert(seen(strays@, key.1, k as int, len as int) <==> seen(
                    strays@,
                    key.1,
                    k + 1,
                    0,
                ));
            }
        }
    }
    folds
}

/// The directories that start folded: those that hold at least `threshold`
/// strays, so that a tree of generated output cannot bury every other project.
pub fn auto_folded(projects: &Vec<ProjectStrays>, threshold: usize) -> (r: Folds)
    ensures
        forall|key: (int, Seq<Part>)| #[trigger]
            r@.contains(key) <==> oversized(projects@, threshold as int, key),
{
    let mut folds = Folds::new();
    for p in 0..projects.len()
        invariant
            forall|key: (int, Seq<Part>)| #[trigger]
                folds@.contains(key) <==> oversized(projects@, threshold as int, key) && key.0 < p,
    {
        let count: usize = projects[p].strays.len();
        for k in 0..count
            invariant
                p < projects@.len(),
                count == projects@[p as int].strays@.len(),
                forall|key: (int, Seq<Part>)| #[trigger]
                    folds@.contains(key) <==> oversized(projects@, threshold as int, key) && (key.0
                        < p || (key.0 == p && seen(
                        projects@[p as int].strays@,
                        key.1,
                        k as int,
                        0,
                    ))),
        {
            folds = fold_above(folds, projects, threshold, p, k);
        }
        proof {
            let strays = projects@[p as int].strays@;
            assert forall|key: (int, Seq<Part>)| #[trigger] folds@.contains(key) <==> oversized(
                projects@,
                threshold as int,
                key,
            ) && key.0 < p + 1 by {
                if key.0 == p && oversized(projects@, threshold as int, key) {
                    lemma_held(strays, key.1, strays.len() as int);
                }
            }
        }
    }
    folds
}

/// Whether a row stands for something in the list.
pub open spec fn stands(projects: Seq<ProjectStrays>, row: Row) -> bool {
    match row {
        Row::Project { project } => project < projects.len(),
        Row::Dir { project, stray, depth } => project < projects.len() && stray
            < projects[project as int].strays@.len() && 1 <= depth < parts(
            projects[project as int].strays@[stray as int].path@,
        ).len(),
        Row::File { project, stray, depth } => project < projects.len() && stray
            < projects[project as int].strays@.len(),
    }
}

proof fn lemma_dir_rows_stand(
    projects: Seq<ProjectStrays>,
    folded: Set<(int, Seq<Part>)>,
    p: int,
    k: int,
    d: int,
    i: int,
)
    requires
        0 <= p < projects.len(),
        projects.len() <= usize::MAX,
        0 <= k < projects[p].strays@.len(),
        projects[p].strays@.len() <= usize::MAX,
        parts(projects[p].strays@[k].path@).len() <= usize::MAX,
        0 <= d,
        0 <= i < dir_rows(folded, p, k, dirs(projects[p].strays@[k].path@), d).len(),
    ensures
        stands(projects, dir_rows(folded, p, k, dirs(projects[p].strays@[k].path@), d)[i]),
    decreases dirs(projects[p].strays@[k].path@).len() - d,
{
    let ds = dirs(projects[p].strays@[k].path@);
    if d < ds.len() {
        if hidden(folded, p, ds, d) {
            lemma_dir_rows_stand(projects, folded, p, k, d + 1, i);
        } else if i > 0 {
            lemma_dir_rows_stand(projects, folded, p, k, d + 1, i - 1);
        }
    }
}

proof fn lemma_shared_bound(a: Seq<Part>, b: Seq<Part>, i: int)
    requires
        0 <= i,
    ensures
        shared(a, b, i) >= i,
    decreases a.len() - i,
{
    if i < a.len() && i < b.len() && a[i] == b[i] {
        lemma_shared_bound(a, b, i + 1);
    }
}

proof fn lemma_file_rows_stand(
    projects: Seq<ProjectStrays>,
    folded: Set<(int, Seq<Part>)>,
    query: Seq<char>,
    p: int,
    before: Seq<Part>,
    k: int,
    i: int,
)
    requires
        addressable(projects),
        0 <= p < projects.len(),
        0 <= k,
        0 <= i < file_rows(folded, p, projects[p].strays@, query, before, k).len(),
    ensures
        stands(projects, file_rows(folded, p, projects[p].strays@, query, before, k)[i]),
    decreases projects[p].strays@.len() - k,
{
    let strays = projects[p].strays@;
    if k < strays.len() {
        if is_match(query, strays[k].path@) {
            let ds = dirs(strays[k].path@);
            let at = shared(before, ds, 0);
            lemma_shared_bound(before, ds, 0);
            let above = dir_rows(folded, p, k, ds, at);
            let own = stray_rows(folded, p, k, strays[k].path@, before);
            if i < above.len() {
                lemma_dir_rows_stand(projects, folded, p, k, at, i);
            } else if i >= own.len() {
                lemma_file_rows_stand(projects, folded, query, p, ds, k + 1, i - own.len());
            }
        } else {
            lemma_file_rows_stand(projects, folded, query, p, before, k + 1, i);
        }
    }
}

/// Whether every place in the list can be counted to, as it can be of a list in
/// memory.
pub open spec fn addressable(projects: Seq<ProjectStrays>) -> bool {
    &&& projects.len() <= usize::MAX
    &&& forall|p: int|
        0 <= p < projects.len() ==> (#[trigger] projects[p]).strays@.len() <= usize::MAX
    &&& forall|p: int, k: int|
        0 <= p < projects.len() && 0 <= k < projects[p].strays@.len() ==> parts(
            (#[trigger] projects[p].strays@[k]).path@,
        ).len() <= usize::MAX
}

proof fn lemma_rows_stand(
    projects: Seq<ProjectStrays>,
    folded: Set<(int, Seq<Part>)>,
    query: Seq<char>,
    p: int,
    i: int,
)
    requires
        addressable(projects),
        0 <= p,
        0 <= i < rows_from(projects, folded, query, p).len(),
    ensures
        stands(projects, rows_from(projects, folded, query, p)[i]),
    decreases projects.len() - p,
{
    if p < projects.len() {
        let own = project_rows(folded, p, projects[p].strays@, query);
        if i >= own.len() {
            lemma_rows_stand(projects, folded, query, p + 1, i - own.len());
        } else if i > 0 {
            lemma_file_rows_stand(projects, folded, query, p, Seq::empty(), 0, i - 1);
        }
    }
}

/// Every row stands for something in the list: no row is left behind of what is
/// no longer there.
pub proof fn rows_stand_for_what_is_listed(
    projects: Seq<ProjectStrays>,
    folded: Set<(int, Seq<Part>)>,
    query: Seq<char>,
    i: int,
)
    requires
        addressable(projects),
        0 <= i < rows_of(projects, folded, query).len(),
    ensures
        stands(projects, rows_of(projects, folded, query)[i]),
{
    lemma_rows_stand(projects, folded, query, 0, i);
}

/// Whether a row is the file row of a stray.
pub open spec fn shows(row: Row, p: int, k: int) -> bool {
    row matches Row::File { project, stray, .. } && project == p && stray == k
}

proof fn lemma_file_is_shown(
    projects: Seq<ProjectStrays>,
    folded: Set<(int, Seq<Part>)>,
    query: Seq<char>,
    p: int,
    k: int,
    before: Seq<Part>,
    from: int,
)
    requires
        addressable(projects),
        0 <= p < projects.len(),
        0 <= from <= k < projects[p].strays@.len(),
        is_match(query, projects[p].strays@[k].path@),
        !hidden(
            folded,
            p,
            dirs(projects[p].strays@[k].path@),
            dirs(projects[p].strays@[k].path@).len() as int,
        ),
    ensures
        exists|i: int|
            0 <= i < file_rows(folded, p, projects[p].strays@, query, before, from).len() && shows(
                #[trigger] file_rows(folded, p, projects[p].strays@, query, before, from)[i],
                p,
                k,
            ),
    decreases k - from,
{
    let strays = projects[p].strays@;
    let rows = file_rows(folded, p, strays, query, before, from);
    if is_match(query, strays[from].path@) {
        let own = stray_rows(folded, p, from, strays[from].path@, before);
        if from == k {
            assert(shows(rows[own.len() - 1], p, k));
        } else {
            let ds = dirs(strays[from].path@);
            lemma_file_is_shown(projects, folded, query, p, k, ds, from + 1);
            let rest = file_rows(folded, p, strays, query, ds, from + 1);
            let i = choose|i: int| 0 <= i < rest.len() && shows(#[trigger] rest[i], p, k);
            assert(rows[own.len() + i] == rest[i]);
        }
    } else {
        lemma_file_is_shown(projects, folded, query, p, k, before, from + 1);
    }
}

proof fn lemma_shown_from(
    projects: Seq<ProjectStrays>,
    folded: Set<(int, Seq<Part>)>,
    query: Seq<char>,
    p: int,
    k: int,
    from: int,
)
    requires
        addressable(projects),
        0 <= from <= p < projects.len(),
        0 <= k < projects[p].strays@.len(),
        is_match(query, projects[p].strays@[k].path@),
        !folded.contains((p, Seq::empty())),
        !hidden(
            folded,
            p,
            dirs(projects[p].strays@[k].path@),
            dirs(projects[p].strays@[k].path@).len() as int,
        ),
    ensures
        exists|i: int|
            0 <= i < rows_from(projects, folded, query, from).len() && shows(
                #[trigger] rows_from(projects, folded, query, from)[i],
                p,
                k,
            ),
    decreases p - from,
{
    let rows = rows_from(projects, folded, query, from);
    let own = project_rows(folded, from, projects[from].strays@, query);
    if from == p {
        lemma_file_is_shown(projects, folded, query, p, k, Seq::empty(), 0);
        let files = file_rows(folded, p, projects[p].strays@, query, Seq::empty(), 0);
        let i = choose|i: int| 0 <= i < files.len() && shows(#[trigger] files[i], p, k);
        assert(names_any(projects[p].strays@, query));
        assert(own[1 + i] == files[i]);
        assert(rows[1 + i] == files[i]);
    } else {
        lemma_shown_from(projects, folded, query, p, k, from + 1);
        let rest = rows_from(projects, folded, query, from + 1);
        let i = choose|i: int| 0 <= i < rest.len() && shows(#[trigger] rest[i], p, k);
        assert(rows[own.len() + i] == rest[i]);
    }
}

/// A stray that the query names is listed, unless something above it is folded
/// away.
pub proof fn what_is_named_is_listed(
    projects: Seq<ProjectStrays>,
    folded: Set<(int, Seq<Part>)>,
    query: Seq<char>,
    p: int,
    k: int,
)
    requires
        addressable(projects),
        0 <= p < projects.len(),
        0 <= k < projects[p].strays@.len(),
        is_match(query, projects[p].strays@[k].path@),
        !folded.contains((p, Seq::empty())),
        !hidden(
            folded,
            p,
            dirs(projects[p].strays@[k].path@),
            dirs(projects[p].strays@[k].path@).len() as int,
        ),
    ensures
        exists|i: int|
            0 <= i < rows_of(projects, folded, query).len() && shows(
                #[trigger] rows_of(projects, folded, query)[i],
                p,
                k,
            ),
{
    lemma_shown_from(projects, folded, query, p, k, 0);
    let rows = rows_from(projects, folded, query, 0);
    let i = choose|i: int| 0 <= i < rows.len() && shows(#[trigger] rows[i], p, k);
    assert(shows(rows_of(projects, folded, query)[i], p, k));
}

} // verus!
