//! Reading one project: its branch, its upstream distance, and its strays, from
//! what git answered.

use vstd::prelude::*;
use vstd::string::*;

use crate::agent::{agent_views, pick_at, picked, Agent, AgentStatus};
use crate::bytes::lossy_text;
use crate::discover::Project;
use crate::git::run::GitError;
use crate::git::status::{
    branch_of, claimed, claimed_paths, list_tracked, record_texts, trimmed_answer, upstream_in,
    upstream_of,
};
use crate::model::{stray_views, StatusView, Stray, StrayStatus, StrayView};
use crate::paths::same_path;
use crate::sorting::{
    among, by_path, in_path_order, is_among, lemma_by_path_map, sort_by_path,
    sorting_is_stable, sorting_keeps_items, Pathed,
};
use crate::text::{text_view, texts};
use crate::tree::ProjectStrays;

verus! {

/// What git and the filesystem answered about one project.
#[derive(Debug)]
pub struct Answers {
    /// `symbolic-ref --quiet --short HEAD`.
    pub branch: Result<Vec<u8>, GitError>,
    /// `rev-parse --short HEAD`.
    pub commit: Result<Vec<u8>, GitError>,
    /// `rev-list --left-right --count` against the upstream.
    pub upstream: Result<Vec<u8>, GitError>,
    /// What strayed from the base.
    pub strays: Result<Vec<Stray>, GitError>,
    /// Every tracked file, where the whole repository is to be listed.
    pub tracked_files: Result<Vec<u8>, GitError>,
    /// When each stray was last written, in milliseconds, where that is known.
    pub times: Vec<Option<u64>>,
}

/// The tracked files that are not among the strays, as files that did not
/// change.
pub open spec fn unlisted(paths: Seq<Seq<char>>, strays: Seq<StrayView>) -> Seq<StrayView>
    decreases paths.len(),
{
    if paths.len() == 0 {
        Seq::empty()
    } else {
        let rest = unlisted(paths.drop_last(), strays);
        if claimed(strays, paths.last()) {
            rest
        } else {
            rest.push(StrayView { status: StatusView::Unchanged, path: paths.last() })
        }
    }
}

/// Every stray, and every tracked file that did not stray, in path order. A file
/// that changed keeps its real status rather than being flattened to unchanged.
pub open spec fn whole_list(strays: Seq<StrayView>, paths: Seq<Seq<char>>) -> Seq<StrayView> {
    by_path(strays + unlisted(paths, strays), |s: StrayView| s.path)
}

/// The latest time that is known of a file that changed, among the first `n`.
pub open spec fn latest(strays: Seq<Stray>, times: Seq<Option<u64>>, n: int) -> Option<u64>
    decreases n,
{
    if n <= 0 || n > strays.len() {
        None
    } else {
        let rest = latest(strays, times, n - 1);
        if strays[n - 1].status is Unchanged || n > times.len() {
            rest
        } else {
            match (times[n - 1], rest) {
                (Some(t), Some(u)) => if t > u {
                    Some(t)
                } else {
                    Some(u)
                },
                (Some(t), None) => Some(t),
                (None, _) => rest,
            }
        }
    }
}

/// When the most recently written stray in this project was last modified, given
/// when each was.
///
/// Read from the filesystem rather than from git: a file saved but not yet
/// committed has no git timestamp at all, and an uncommitted save is exactly
/// the event this is meant to notice.
///
/// A file without a time — deleted, or unreadable — is passed over rather than
/// failing the project.
pub fn most_recent_change(strays: &Vec<Stray>, times: &Vec<Option<u64>>) -> (r: Option<u64>)
    ensures
        r == latest(strays@, times@, strays@.len() as int),
{
    let mut found: Option<u64> = None;
    for i in 0..strays.len()
        invariant
            found == latest(strays@, times@, i as int),
    {
        if strays[i].status.is_changed() && i < times.len() {
            if let Some(t) = times[i] {
                found = match found {
                    Some(u) => if t > u {
                        Some(t)
                    } else {
                        Some(u)
                    },
                    None => Some(t),
                };
            }
        }
    }
    found
}

/// Add every tracked file that did not stray, so the list shows the whole repo.
///
/// Strays win on collision: a file that changed keeps its real status rather
/// than being flattened to `Unchanged`. Without the tracked list there is
/// nothing to add; the strays alone are still correct.
pub fn merge_tracked(strays: Vec<Stray>, listed: Result<Vec<u8>, GitError>) -> (r: Vec<Stray>)
    ensures
        match listed {
            Err(_) => r@ == strays@,
            Ok(buf) => stray_views(r@) == whole_list(
                stray_views(strays@),
                by_path(record_texts(buf@), |p: Seq<char>| p),
            ),
        },
{
    let paths = match list_tracked(listed) {
        Ok(paths) => paths,
        Err(_) => {
            return strays;
        },
    };
    let ghost all = texts(paths@);
    let ghost views = stray_views(strays@);
    let taken = claimed_paths(&strays);
    let mut added: Vec<Stray> = Vec::new();
    assert(stray_views(added@) =~= unlisted(all.take(0), views));
    for i in 0..paths.len()
        invariant
            all == texts(paths@),
            views == stray_views(strays@),
            in_path_order(taken@, |s: String| s.at()),
            forall|q: Seq<char>| #[trigger] among(taken@, q) == claimed(views, q),
            stray_views(added@) == unlisted(all.take(i as int), views),
    {
        assert(all.take(i + 1).drop_last() =~= all.take(i as int));
        assert(all[i as int] == paths@[i as int]@);
        if !is_among(&taken, paths[i].as_str()) {
            let ghost before = stray_views(added@);
            let file = Stray::new(StrayStatus::Unchanged, paths[i].as_str());
            added.push(file);
            assert(stray_views(added@) =~= before.push(file@));
        }
    }
    assert(all.take(all.len() as int) =~= all);
    let mut merged = strays;
    let ghost more = added@;
    merged.append(&mut added);
    proof {
        assert(stray_views(merged@) =~= views + stray_views(more));
        lemma_by_path_map(
            merged@,
            |x: Stray| x.at(),
            |s: Stray| s@,
            |s: StrayView| s.path,
        );
    }
    sort_by_path(merged)
}

/// Read one project's strays, recording rather than propagating failure so one
/// broken repository cannot blank the whole list.
///
/// `agents` is read once for the whole refresh and passed in, each with what it
/// is doing, rather than asked for per project: it is one herdr call answering
/// for every repository at once.
pub fn load_project(
    project: Project,
    show_all: bool,
    agents: &Vec<Agent>,
    statuses: &Vec<AgentStatus>,
    answers: Answers,
) -> (r: ProjectStrays)
    ensures
        r.project == project,
        text_view(r.branch) == (match trimmed_answer(answers.branch) {
            Some(name) => Some(name),
            None => trimmed_answer(answers.commit),
        }),
        r.upstream == (match answers.upstream {
            Err(_) => None,
            Ok(bytes) => upstream_in(lossy_text(bytes@)),
        }),
        match picked(agent_views(agents@), project.root@) {
            Some(i) => if 0 <= i < statuses@.len() {
                r.agent == Some(statuses@[i])
            } else {
                r.agent is None
            },
            None => r.agent is None,
        },
        match answers.strays {
            Ok(strays) => {
                &&& r.error is None
                &&& r.touched == latest(strays@, answers.times@, strays@.len() as int)
                &&& match answers.tracked_files {
                    Ok(buf) if show_all => stray_views(r.strays@) == whole_list(
                        stray_views(strays@),
                        by_path(record_texts(buf@), |p: Seq<char>| p),
                    ),
                    _ => r.strays@ == strays@,
                }
            },
            Err(e) => {
                &&& r.strays@.len() == 0
                &&& r.touched is None
                &&& text_view(r.error) == Some(e.text())
            },
        },
{
    let branch = branch_of(&answers.branch, &answers.commit);
    let upstream = upstream_of(&answers.upstream);
    let agent = match pick_at(agents, project.root.as_str()) {
        Some(i) => if i < statuses.len() {
            Some(statuses[i].clone())
        } else {
            None
        },
        None => None,
    };
    match answers.strays {
        Ok(strays) => {
            let touched = most_recent_change(&strays, &answers.times);
            let strays = if show_all {
                merge_tracked(strays, answers.tracked_files)
            } else {
                strays
            };
            ProjectStrays { project, strays, branch, upstream, touched, agent, error: None }
        },
        Err(e) => ProjectStrays {
            project,
            strays: Vec::new(),
            branch,
            upstream,
            touched: None,
            agent,
            error: Some(e.message()),
        },
    }
}

/// The whole repository is listed in path order.
pub proof fn the_whole_list_is_in_path_order(strays: Seq<StrayView>, paths: Seq<Seq<char>>)
    ensures
        in_path_order(whole_list(strays, paths), |s: StrayView| s.path),
{
    sorting_is_stable(strays + unlisted(paths, strays), |s: StrayView| s.path);
}

/// Listing the whole repository loses no stray, and changes none.
pub proof fn strays_win_over_tracked_files(
    strays: Seq<StrayView>,
    paths: Seq<Seq<char>>,
    stray: StrayView,
)
    requires
        strays.contains(stray),
    ensures
        whole_list(strays, paths).contains(stray),
{
    let all = strays + unlisted(paths, strays);
    let i = strays.index_of(stray);
    assert(all[i] == stray);
    sorting_keeps_items(all, |s: StrayView| s.path, stray);
}

/// Listing the whole repository leaves out no tracked file.
pub proof fn every_tracked_file_is_among(
    strays: Seq<StrayView>,
    paths: Seq<Seq<char>>,
    i: int,
)
    requires
        0 <= i < paths.len(),
    ensures
        claimed(whole_list(strays, paths), paths[i]),
{
    let key = |s: StrayView| s.path;
    let all = strays + unlisted(paths, strays);
    let found = if claimed(strays, paths[i]) {
        let k = choose|k: int|
            0 <= k < strays.len() && same_path((#[trigger] strays[k]).path, paths[i]);
        assert(all[k] == strays[k]);
        strays[k]
    } else {
        let file = StrayView { status: StatusView::Unchanged, path: paths[i] };
        lemma_unlisted(paths, strays, i);
        let k = unlisted(paths, strays).index_of(file);
        assert(all[strays.len() + k] == file);
        file
    };
    assert(all.contains(found));
    sorting_keeps_items(all, key, found);
    let whole = whole_list(strays, paths);
    let k = whole.index_of(found);
    assert(same_path(whole[k].path, paths[i]));
}

proof fn lemma_unlisted(paths: Seq<Seq<char>>, strays: Seq<StrayView>, i: int)
    requires
        0 <= i < paths.len(),
        !claimed(strays, paths[i]),
    ensures
        unlisted(paths, strays).contains(
            StrayView { status: StatusView::Unchanged, path: paths[i] },
        ),
    decreases paths.len(),
{
    let file = StrayView { status: StatusView::Unchanged, path: paths[i] };
    let out = unlisted(paths, strays);
    if i == paths.len() - 1 {
        assert(out[out.len() - 1] == file);
    } else {
        lemma_unlisted(paths.drop_last(), strays, i);
        let rest = unlisted(paths.drop_last(), strays);
        let k = rest.index_of(file);
        assert(out[k] == rest[k]);
    }
}

} // verus!
