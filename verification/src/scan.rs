//! What a scan is asked for, and what stands in the list until it answers.

use vstd::prelude::*;

use crate::discover::Project;
use crate::tree::ProjectStrays;

verus! {

/// Whether a project holds only what is known before git has been asked.
pub open spec fn is_placeholder(entry: ProjectStrays) -> bool {
    &&& entry.strays@.len() == 0
    &&& entry.branch is None
    &&& entry.upstream is None
    &&& entry.touched is None
    &&& entry.agent is None
    &&& entry.error is None
}

/// A project that has not been read yet: the rows exist from the first frame,
/// so the tree does not reflow underneath the cursor as the answers arrive.
pub fn placeholder(project: Project) -> (r: ProjectStrays)
    ensures
        r.project == project,
        is_placeholder(r),
{
    ProjectStrays {
        project,
        strays: Vec::new(),
        branch: None,
        upstream: None,
        touched: None,
        agent: None,
        error: None,
    }
}

/// Whether a list holds a placeholder for each project, in their order.
pub open spec fn are_placeholders(entries: Seq<ProjectStrays>, projects: Seq<Project>) -> bool {
    &&& entries.len() == projects.len()
    &&& forall|i: int|
        0 <= i < entries.len() ==> (#[trigger] entries[i]).project == projects[i]
            && is_placeholder(entries[i])
}

/// A placeholder for each project.
pub fn placeholders(projects: Vec<Project>) -> (r: Vec<ProjectStrays>)
    ensures
        are_placeholders(r@, projects@),
{
    let mut out: Vec<ProjectStrays> = Vec::new();
    let ghost all = projects@;
    for project in it: projects
        invariant
            it.seq() == all,
            out@.len() == it.index(),
            forall|i: int|
                0 <= i < out@.len() ==> (#[trigger] out@[i]).project == all[i] && is_placeholder(
                    out@[i],
                ),
    {
        out.push(placeholder(project));
    }
    out
}

/// The projects of a list.
pub open spec fn listed_projects(entries: Seq<ProjectStrays>) -> Seq<Project> {
    entries.map_values(|e: ProjectStrays| e.project)
}

/// The projects of a list, for a scan to read again.
pub fn projects_of(entries: &Vec<ProjectStrays>) -> (r: Vec<Project>)
    ensures
        r@ == listed_projects(entries@),
{
    let mut out: Vec<Project> = Vec::new();
    for i in 0..entries.len()
        invariant
            out@ =~= listed_projects(entries@).take(i as int),
    {
        out.push(entries[i].project.clone());
    }
    assert(listed_projects(entries@).take(entries@.len() as int) =~= listed_projects(entries@));
    out
}

} // verus!
