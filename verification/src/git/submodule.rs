//! Reading what changed *inside* a submodule, not merely that one did.
//!
//! # Why this is a separate pass
//!
//! A submodule is a gitlink: the outer repository records a commit id and
//! nothing else. `git status` in the outer repository therefore reports one
//! entry for the whole submodule — `1 .M S.MU 160000 ... vendor/lib` — and
//! never names a file inside it.
//!
//! So the files inside are only reachable by asking the submodule's own
//! repository. The answers come back with paths relative to the submodule, and
//! are rewritten to be relative to the outer project so the rest of the viewer
//! needs to know nothing about any of this: the tree builds directories out of
//! path components alone, so `vendor/lib/src/a.rs` folds under `vendor/` and
//! `vendor/lib/` on its own.
//!
//! # What it costs
//!
//! One `git status` per submodule that says it has something to report, and
//! none for a submodule that does not. The `<sub>` field is read first for
//! exactly that reason — see [`Flags`] and [`worth_reading`].

use vstd::prelude::*;
use vstd::string::*;

use crate::bytes::{DIGIT_1, DIGIT_2, LOWER_U, UPPER_C, UPPER_M, UPPER_S, UPPER_U};
use crate::git::status::{
    at_most_one, field, field_after, field_of, lossy_path, nul_records, ordinary_entry,
    parse_status, renamed_entry, status_entries, unmerged_entry, NulRecords,
};
use crate::model::{stray_views, Stray, StrayView};
use crate::paths::{
    component_parts, component_text, components, join_paths, joined, part_text, parts, same_path,
    slash_join, slashed, Part,
};
use crate::text::{text_view, texts};
use crate::sorting::{
    by_path, dedup_by_path, lemma_by_path_map, lemma_one_per_path_map, one_per_path, sort_by_path,
    the_first_at_a_path_stays, Pathed,
};

pub mod inside;

verus! {

/// How deep to follow submodules within submodules.
///
/// Submodules can nest, and a repository that (incorrectly) contains itself
/// would otherwise recurse until the stack ran out. Three levels covers real
/// vendoring — a dependency of a dependency of a dependency — and anything
/// past it is pathological rather than merely deep.
pub const MAX_DEPTH: usize = 3;

/// What the `<sub>` field of a porcelain v2 record says about a submodule.
///
/// The field is `S<c><m><u>`, where each flag is either its letter or `.`:
/// `c` the recorded commit changed, `m` there are tracked modifications
/// inside, `u` there are untracked files inside.
#[derive(Debug, Clone, Copy, PartialEq, Eq, Structural)]
pub struct Flags {
    /// The commit the outer repository records has moved.
    pub commit_changed: bool,
    /// Tracked files inside the submodule differ from its HEAD.
    pub modified: bool,
    /// The submodule holds untracked files.
    pub untracked: bool,
}

/// What a `<sub>` field says about a submodule, if it is about one.
pub open spec fn flags_in(sub: Seq<u8>) -> Option<Flags> {
    if sub.len() > 0 && sub[0] == UPPER_S {
        Some(
            Flags {
                commit_changed: sub.len() > 1 && sub[1] == UPPER_C,
                modified: sub.len() > 2 && sub[2] == UPPER_M,
                untracked: sub.len() > 3 && sub[3] == UPPER_U,
            },
        )
    } else {
        None
    }
}

impl Flags {
    /// Read the flags out of a `<sub>` field, if it describes a submodule.
    pub fn parse(sub: &[u8]) -> (r: Option<Self>)
        ensures
            r == flags_in(sub@),
    {
        if sub.len() == 0 || sub[0] != UPPER_S {
            return None;
        }
        Some(
            Flags {
                commit_changed: sub.len() > 1 && sub[1] == UPPER_C,
                modified: sub.len() > 2 && sub[2] == UPPER_M,
                untracked: sub.len() > 3 && sub[3] == UPPER_U,
            },
        )
    }

    /// Whether anything inside the submodule is worth a `git status` of its
    /// own.
    ///
    /// A moved commit alone is not: that is a change to the *outer* repository
    /// — it staged a different revision — and the submodule's worktree may be
    /// perfectly clean. Running git there would cost a process to be told
    /// nothing.
    pub fn has_contents_to_read(&self) -> (r: bool)
        ensures
            r == (self.modified || self.untracked),
    {
        self.modified || self.untracked
    }
}

/// What git said about one checkout and about the submodules in it.
pub struct Checkout {
    /// What `status --porcelain=v2 -z --untracked-files=all` printed there, or
    /// nothing where it could not be read.
    pub output: Option<Vec<u8>>,
    /// The submodules in it that were read, by the path that `output` gives.
    pub inside: Vec<(String, Checkout)>,
}

/// The checkout that was read at a path, if one was.
pub open spec fn checkout_at(inside: Seq<(String, Checkout)>, p: Seq<char>) -> Option<Checkout>
    decreases inside.len(),
{
    if inside.len() == 0 {
        None
    } else if inside[0].0@ == p {
        Some(inside[0].1)
    } else {
        checkout_at(inside.skip(1), p)
    }
}

/// The files of a list, with `at` before their paths.
pub open spec fn below(at: Seq<char>, list: Seq<StrayView>) -> Seq<StrayView> {
    list.map_values(|s: StrayView| StrayView { status: s.status, path: joined(at, s.path) })
}

/// What is inside the checkout of a submodule: the files of its own list, and
/// before each submodule in it what is inside that one. Paths are relative to
/// the checkout.
pub open spec fn contents(c: Checkout, depth: nat) -> Seq<StrayView>
    decreases depth, 1nat, 0nat,
{
    if depth == 0 {
        Seq::empty()
    } else {
        match c.output {
            None => Seq::empty(),
            Some(buf) => listed(
                by_path(status_entries(nul_records(buf@)), |s: StrayView| s.path),
                c.inside@,
                depth,
            ),
        }
    }
}

/// The files of a checkout's list with what is inside its submodules.
pub open spec fn listed(
    list: Seq<StrayView>,
    inside: Seq<(String, Checkout)>,
    depth: nat,
) -> Seq<StrayView>
    decreases depth, 0nat, list.len(),
{
    if list.len() == 0 || depth == 0 {
        Seq::empty()
    } else {
        let s = list.last();
        let before = listed(list.drop_last(), inside, depth);
        let within = if s.status is Submodule {
            match checkout_at(inside, s.path) {
                Some(c) => below(s.path, contents(c, (depth - 1) as nat)),
                None => Seq::empty(),
            }
        } else {
            Seq::empty()
        };
        before + within + seq![s]
    }
}

fn find_checkout<'a>(inside: &'a Vec<(String, Checkout)>, p: &String) -> (r: Option<&'a Checkout>)
    ensures
        match r {
            Some(c) => checkout_at(inside@, p@) == Some(*c),
            None => checkout_at(inside@, p@) is None,
        },
{
    assert(inside@.skip(0) =~= inside@);
    for i in 0..inside.len()
        invariant
            checkout_at(inside@, p@) == checkout_at(inside@.skip(i as int), p@),
    {
        if inside[i].0 == *p {
            return Some(&inside[i].1);
        }
        assert(inside@.skip(i as int).skip(1) =~= inside@.skip(i + 1));
    }
    None
}

/// A file, with `at` before its path.
fn put_below(at: &str, s: &Stray) -> (r: Stray)
    ensures
        r@ == (StrayView { status: s@.status, path: joined(at@, s@.path) }),
{
    Stray { status: s.status.clone(), path: join_paths(at, s.path.as_str()) }
}

fn all_below(at: &str, list: &Vec<Stray>, out: &mut Vec<Stray>)
    ensures
        stray_views(final(out)@) == stray_views(old(out)@) + below(at@, stray_views(list@)),
{
    let ghost start = stray_views(out@);
    let ghost more = below(at@, stray_views(list@));
    for i in 0..list.len()
        invariant
            more == below(at@, stray_views(list@)),
            stray_views(out@) =~= start + more.take(i as int),
    {
        let s = put_below(at, &list[i]);
        let ghost before = stray_views(out@);
        out.push(s);
        proof {
            assert(more[i as int] == s@);
            assert(stray_views(out@) =~= before.push(s@));
        }
    }
    assert(more.take(more.len() as int) =~= more);
}

fn contents_to_depth(c: &Checkout, depth: usize) -> (r: Vec<Stray>)
    ensures
        stray_views(r@) == contents(*c, depth as nat),
    decreases depth,
{
    let mut out: Vec<Stray> = Vec::new();
    assert(stray_views(out@) =~= Seq::<StrayView>::empty());
    if depth == 0 {
        return out;
    }
    match &c.output {
        None => out,
        Some(buf) => {
            let list = parse_status(buf.as_slice());
            let ghost views = stray_views(list@);
            assert(views.take(0) =~= Seq::<StrayView>::empty());
            for i in 0..list.len()
                invariant
                    depth > 0,
                    views == stray_views(list@),
                    stray_views(out@) =~= listed(views.take(i as int), c.inside@, depth as nat),
            {
                let ghost front = views.take(i + 1);
                let ghost before = stray_views(out@);
                proof {
                    assert(front.drop_last() =~= views.take(i as int));
                    assert(front.last() == list@[i as int]@);
                }
                if list[i].status.is_submodule() {
                    if let Some(nested) = find_checkout(&c.inside, &list[i].path) {
                        let within = contents_to_depth(nested, depth - 1);
                        all_below(list[i].path.as_str(), &within, &mut out);
                    }
                }
                let ghost middle = stray_views(out@);
                let s = list[i].clone();
                out.push(s);
                assert(stray_views(out@) =~= middle.push(s@));
            }
            assert(views.take(views.len() as int) =~= views);
            out
        },
    }
}

/// The strays inside one submodule, with paths relative to the outer
/// repository.
///
/// `at` is the submodule's path within the repository, exactly as git reported
/// it.
///
/// A submodule that cannot be read — not initialised, or a broken gitlink —
/// yields nothing rather than failing the project. The outer `S` entry still
/// stands, so the reader sees the submodule either way; what they lose is the
/// detail, which is also all that is missing.
pub fn strays_inside(at: &str, checkout: &Checkout) -> (r: Vec<Stray>)
    ensures
        stray_views(r@) == below(at@, contents(*checkout, MAX_DEPTH as nat)),
{
    let within = contents_to_depth(checkout, MAX_DEPTH);
    let mut out: Vec<Stray> = Vec::new();
    all_below(at, &within, &mut out);
    assert(stray_views(out@) =~= below(at@, stray_views(within@)));
    out
}

/// Whether a list names a submodule.
pub open spec fn has_submodule(list: Seq<StrayView>) -> bool {
    exists|i: int| 0 <= i < list.len() && (#[trigger] list[i]).status is Submodule
}

/// What is inside the submodules of a list, in their order.
pub open spec fn all_inside(list: Seq<StrayView>, inside: Seq<(String, Checkout)>) -> Seq<StrayView>
    decreases list.len(),
{
    if list.len() == 0 {
        Seq::empty()
    } else {
        let s = list.last();
        let before = all_inside(list.drop_last(), inside);
        if s.status is Submodule {
            match checkout_at(inside, s.path) {
                Some(c) => before + below(s.path, contents(c, MAX_DEPTH as nat)),
                None => before,
            }
        } else {
            before
        }
    }
}

/// A list with what is inside its submodules folded in: in the order of the
/// paths, each path once. Without a submodule the list is left as it is.
pub open spec fn expanded_views(
    list: Seq<StrayView>,
    inside: Seq<(String, Checkout)>,
) -> Seq<StrayView> {
    let key = |s: StrayView| s.path;
    if has_submodule(list) {
        one_per_path(by_path(list + all_inside(list, inside), key), key)
    } else {
        list
    }
}

/// Fold every submodule's contents into a project's stray list.
///
/// The submodule's own `S` row is kept: it is what carries "the recorded
/// commit moved", which no file inside can say, and dropping it would make a
/// commit bump vanish from a list whose whole job is to report it.
///
/// Sorted at the end so a submodule's files sit in path order with everything
/// else, which is what the tree assumes when it groups them by directory.
pub fn expanded(strays: Vec<Stray>, inside: &Vec<(String, Checkout)>) -> (r: Vec<Stray>)
    ensures
        stray_views(r@) == expanded_views(stray_views(strays@), inside@),
        !has_submodule(stray_views(strays@)) ==> r@ == strays@,
{
    let ghost views = stray_views(strays@);
    let mut found: bool = false;
    let mut more: Vec<Stray> = Vec::new();
    assert(views.take(0) =~= Seq::<StrayView>::empty());
    assert(stray_views(more@) =~= Seq::<StrayView>::empty());
    for i in 0..strays.len()
        invariant
            views == stray_views(strays@),
            found == exists|j: int| 0 <= j < i && (#[trigger] views[j]).status is Submodule,
            stray_views(more@) =~= all_inside(views.take(i as int), inside@),
    {
        proof {
            assert(views.take(i + 1).drop_last() =~= views.take(i as int));
            assert(views.take(i + 1).last() == strays@[i as int]@);
            assert(views[i as int] == strays@[i as int]@);
        }
        if strays[i].status.is_submodule() {
            found = true;
            if let Some(checkout) = find_checkout(inside, &strays[i].path) {
                let mut within = strays_inside(strays[i].path.as_str(), checkout);
                let ghost before = stray_views(more@);
                let ghost extra = stray_views(within@);
                more.append(&mut within);
                assert(stray_views(more@) =~= before + extra);
            }
        }
    }
    assert(views.take(views.len() as int) =~= views);
    if !found {
        return strays;
    }
    let mut all = strays;
    let ghost extra = stray_views(more@);
    all.append(&mut more);
    proof {
        assert(stray_views(all@) =~= views + extra);
        lemma_by_path_map(all@, |x: Stray| x.at(), |s: Stray| s@, |s: StrayView| s.path);
        lemma_one_per_path_map(
            by_path(all@, |x: Stray| x.at()),
            |x: Stray| x.at(),
            |s: Stray| s@,
            |s: StrayView| s.path,
        );
    }
    dedup_by_path(sort_by_path(all))
}

/// The path of an entry, where the record is about a submodule with contents to
/// read.
pub open spec fn path_to_read(record: Seq<u8>, entry: Option<StrayView>) -> Option<Seq<char>> {
    match (field_of(record, 2), entry) {
        (Some(sub), Some(s)) => match flags_in(sub) {
            Some(flags) => if flags.modified || flags.untracked {
                Some(s.path)
            } else {
                None
            },
            None => None,
        },
        _ => None,
    }
}

/// The paths of the submodules that the records say have contents to read.
pub open spec fn paths_to_read(records: Seq<Seq<u8>>) -> Seq<Seq<char>>
    decreases records.len(),
{
    if records.len() == 0 {
        Seq::empty()
    } else {
        let record = records[0];
        let rest = records.skip(1);
        if record.len() == 0 {
            paths_to_read(rest)
        } else if record[0] == DIGIT_1 {
            at_most_one(path_to_read(record, ordinary_entry(record))) + paths_to_read(rest)
        } else if record[0] == DIGIT_2 {
            let after = if rest.len() == 0 {
                rest
            } else {
                rest.skip(1)
            };
            at_most_one(path_to_read(record, renamed_entry(record, Seq::empty()))) + paths_to_read(
                after,
            )
        } else if record[0] == LOWER_U {
            at_most_one(path_to_read(record, unmerged_entry(record))) + paths_to_read(rest)
        } else {
            paths_to_read(rest)
        }
    }
}

fn read_path(record: &[u8], from: usize) -> (r: Option<String>)
    requires
        from == 8 || from == 9 || from == 10,
    ensures
        from == 8 ==> text_view(r) == path_to_read(record@, ordinary_entry(record@)),
        from == 9 ==> text_view(r) == path_to_read(record@, renamed_entry(record@, Seq::empty())),
        from == 10 ==> text_view(r) == path_to_read(record@, unmerged_entry(record@)),
{
    let sub = field(record, 2)?;
    let path = field_after(record, from)?;
    match Flags::parse(sub) {
        Some(flags) => if flags.has_contents_to_read() {
            Some(lossy_path(path))
        } else {
            None
        },
        None => None,
    }
}

/// The submodules that are worth a `git status` of their own, by the path that
/// the outer one gives them: those whose flags say that something inside
/// differs.
pub fn worth_reading(buf: &[u8]) -> (r: Vec<String>)
    ensures
        texts(r@) == paths_to_read(nul_records(buf@)),
{
    let mut out: Vec<String> = Vec::new();
    let mut records = NulRecords::new(buf);
    let ghost all = paths_to_read(nul_records(buf@));
    assert(texts(out@) =~= Seq::<Seq<char>>::empty());
    loop
        invariant
            all =~= texts(out@) + paths_to_read(nul_records(records.left())),
        ensures
            all =~= texts(out@),
        decreases records.left().len(),
    {
        let ghost before = nul_records(records.left());
        let ghost done = texts(out@);
        match records.next() {
            None => {
                break;
            },
            Some(record) => {
                proof {
                    assert(before[0] == record@);
                    assert(before.skip(1) =~= nul_records(records.left()));
                }
                let mut found: Option<String> = None;
                if record.len() == 0 {
                } else if record[0] == DIGIT_1 {
                    found = read_path(record, 8);
                } else if record[0] == DIGIT_2 {
                    let ghost rest = nul_records(records.left());
                    let next = records.next();
                    proof {
                        if next is Some {
                            assert(rest.skip(1) =~= nul_records(records.left()));
                        }
                    }
                    found = read_path(record, 9);
                } else if record[0] == LOWER_U {
                    found = read_path(record, 10);
                }
                if let Some(path) = found {
                    out.push(path);
                    assert(texts(out@) =~= done.push(path@));
                } else {
                    assert(text_view(found) is None);
                }
            },
        }
    }
    out
}

/// The path that the first `n` parts make up, put together part by part.
pub open spec fn leading(ps: Seq<Part>, n: nat) -> Seq<char>
    decreases n,
{
    if n == 0 {
        Seq::empty()
    } else {
        joined(leading(ps, (n - 1) as nat), part_text(ps[n - 1]))
    }
}

/// The directories on the way to a file, outermost first, as paths.
///
/// The file's own name cannot be the repository holding it, so the last part is
/// never one of them.
pub fn ancestors(path: &str) -> (r: Vec<String>)
    ensures
        texts(r@) == Seq::new(
            if parts(path@).len() == 0 {
                0
            } else {
                (parts(path@).len() - 1) as nat
            },
            |i: int| leading(parts(path@), (i + 1) as nat),
        ),
{
    let cs = components(path);
    let ghost ps = parts(path@);
    let mut out: Vec<String> = Vec::new();
    let mut prefix = String::new();
    let last: usize = if cs.len() == 0 {
        0
    } else {
        cs.len() - 1
    };
    for i in 0..last
        invariant
            last <= cs@.len(),
            component_parts(cs@) == ps,
            prefix@ =~= leading(ps, i as nat),
            texts(out@) =~= Seq::new(i as nat, |k: int| leading(ps, (k + 1) as nat)),
    {
        let name = component_text(&cs[i]);
        assert(ps[i as int] == cs@[i as int]@);
        prefix = join_paths(prefix.as_str(), name.as_str());
        let ghost before = texts(out@);
        out.push(prefix.clone());
        assert(texts(out@) =~= before.push(prefix@));
    }
    out
}

/// The innermost of the ancestors that is a repository, if any is.
pub open spec fn innermost(is_repo: Seq<bool>) -> Option<int>
    decreases is_repo.len(),
{
    if is_repo.len() == 0 {
        None
    } else if is_repo.last() {
        Some(is_repo.len() - 1)
    } else {
        innermost(is_repo.drop_last())
    }
}

/// Split a path into the repository that actually tracks it and the path
/// within that repository.
///
/// A file inside a submodule is listed as `vendor/lib/src/a.rs`, but the outer
/// repository does not track it: it tracks a gitlink at `vendor/lib` and
/// nothing below. Asking the outer repository to diff that path yields an
/// empty answer, so the command has to be run in the submodule with `src/a.rs`
/// instead.
///
/// `is_repo` says of each of the path's [`ancestors`] whether it holds a
/// `.git`; the innermost one that does owns the file. Without one the path is
/// the outer repository's own, and stays as it is.
pub fn owning_repo(repo: &str, path: &str, is_repo: &Vec<bool>) -> (r: (String, String))
    requires
        is_repo@.len() < parts(path@).len() || is_repo@.len() == 0,
    ensures
        match innermost(is_repo@) {
            Some(k) => {
                &&& r.0@ == joined(repo@, leading(parts(path@), (k + 1) as nat))
                &&& r.1@ == slashed(parts(path@).skip(k + 1))
            },
            None => r.0@ == repo@ && r.1@ == path@,
        },
{
    let mut n: usize = is_repo.len();
    assert(is_repo@.take(n as int) =~= is_repo@);
    while n > 0 && !is_repo[n - 1]
        invariant
            n <= is_repo@.len(),
            innermost(is_repo@) == innermost(is_repo@.take(n as int)),
        decreases n,
    {
        assert(is_repo@.take(n as int).drop_last() =~= is_repo@.take(n - 1));
        n -= 1;
    }
    if n == 0 {
        return (repo.to_owned(), path.to_owned());
    }
    let prefixes = ancestors(path);
    assert(texts(prefixes@).len() == prefixes@.len());
    assert(texts(prefixes@)[n - 1] == prefixes@[n - 1]@);
    let cs = components(path);
    assert(component_parts(cs@).len() == cs@.len());
    (join_paths(repo, prefixes[n - 1].as_str()), slash_join(&cs, n))
}

/// Folding in what is inside the submodules of a list loses no entry of the list
/// itself: a submodule's own row is kept, which is what carries "the recorded
/// commit moved". Each path stands once, so of entries at one path the first
/// counts.
pub proof fn folding_in_keeps_the_list(
    list: Seq<StrayView>,
    inside: Seq<(String, Checkout)>,
    i: int,
)
    requires
        0 <= i < list.len(),
        forall|j: int| 0 <= j < i ==> !same_path((#[trigger] list[j]).path, list[i].path),
    ensures
        expanded_views(list, inside).contains(list[i]),
{
    let key = |s: StrayView| s.path;
    let all = list + all_inside(list, inside);
    if has_submodule(list) {
        assert(all[i] == list[i]);
        assert forall|j: int| 0 <= j < i implies !same_path(key(#[trigger] all[j]), key(all[i])) by {
            assert(all[j] == list[j]);
        }
        the_first_at_a_path_stays(all, key, i);
    } else {
        assert(expanded_views(list, inside)[i] == list[i]);
    }
}

} // verus!
