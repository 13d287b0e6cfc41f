//! Reading the repositories, and what the diffs are read against.
//!
//! Git runs on a worker thread: the `App` does not own the scanner, it is a
//! state value the event loop rebuilds from what the scanner reports. These are
//! the transitions either end of that.

use vstd::prelude::*;
use vstd::string::*;
use vstd::view::View as _;

use crate::app::{
    clamp, diff_asked, noticed, relaid, row_is, row_showing, says, App, Data, Input, Notice, View,
};
use crate::discover::Project;
use crate::forge::ForgeStatus;
use crate::git::base::Base;
use crate::git::run::GitError;
use crate::paths::{parts, same_as, same_path};
use crate::scan::{is_placeholder, listed_projects, placeholder, projects_of};
use crate::tree::{rows_of, ProjectStrays, Row};

verus! {

/// Everything that decides whether the scan in flight is still the right one.
///
/// The event loop keeps the last one it dispatched and compares it with what
/// the app currently wants. Equality is the whole point of the type.
#[derive(Debug, Clone, PartialEq, Eq)]
pub struct ScanRequest {
    pub projects: Vec<Project>,
    pub show_all: bool,
    pub base: Base,
    /// Which refresh this belongs to. See [`Data::refreshes`].
    pub refreshes: u64,
}

/// What a base is, by its texts.
pub open spec fn same_base(a: Base, b: Base) -> bool {
    match (a, b) {
        (Base::Head, Base::Head) => true,
        (Base::MergeBase { name: n, commit: c }, Base::MergeBase { name: m, commit: d }) => n@ == m@
            && c@ == d@,
        (Base::Revision { name: n, commit: c }, Base::Revision { name: m, commit: d }) => n@ == m@
            && c@ == d@,
        _ => false,
    }
}

/// Whether two lists hold the same projects in the same order.
pub open spec fn same_projects(a: Seq<Project>, b: Seq<Project>) -> bool {
    a.len() == b.len() && forall|i: int|
        0 <= i < a.len() ==> same_path((#[trigger] a[i]).root@, b[i].root@) && a[i].name@
            == b[i].name@
}

/// Whether two requests ask for the same thing.
pub open spec fn same_request(a: ScanRequest, b: ScanRequest) -> bool {
    &&& same_projects(a.projects@, b.projects@)
    &&& a.show_all == b.show_all
    &&& same_base(a.base, b.base)
    &&& a.refreshes == b.refreshes
}

fn bases_agree(a: &Base, b: &Base) -> (r: bool)
    ensures
        r == same_base(*a, *b),
{
    match (a, b) {
        (Base::Head, Base::Head) => true,
        (
            Base::MergeBase { name: n, commit: c },
            Base::MergeBase { name: m, commit: d },
        ) => *n == *m && *c == *d,
        (
            Base::Revision { name: n, commit: c },
            Base::Revision { name: m, commit: d },
        ) => *n == *m && *c == *d,
        _ => false,
    }
}

fn projects_agree(a: &Vec<Project>, b: &Vec<Project>) -> (r: bool)
    ensures
        r == same_projects(a@, b@),
{
    if a.len() != b.len() {
        return false;
    }
    for i in 0..a.len()
        invariant
            a@.len() == b@.len(),
            forall|j: int|
                0 <= j < i ==> same_path((#[trigger] a@[j]).root@, b@[j].root@) && a@[j].name@
                    == b@[j].name@,
    {
        if !same_as(a[i].root.as_str(), b[i].root.as_str()) || a[i].name != b[i].name {
            assert(!(same_path(a@[i as int].root@, b@[i as int].root@) && a@[i as int].name@
                == b@[i as int].name@));
            return false;
        }
    }
    true
}

impl ScanRequest {
    /// Whether two requests ask for the same thing.
    pub fn agrees(&self, other: &ScanRequest) -> (r: bool)
        ensures
            r == same_request(*self, *other),
    {
        projects_agree(&self.projects, &other.projects) && self.show_all == other.show_all
            && bases_agree(&self.base, &other.base) && self.refreshes == other.refreshes
    }
}

/// Whether a request is what an app wants read.
pub open spec fn is_wanted(app: App, request: ScanRequest) -> bool {
    &&& request.projects@ == listed_projects(app.data.projects@)
    &&& request.show_all == app.view.show_all
    &&& request.base == app.data.base
    &&& request.refreshes == app.data.refreshes
}

/// Whether an app is another one that asks for everything to be read again
/// against a base. Notes are kept: they are anchored by the content of their
/// line, so they are found again in the new diff.
pub open spec fn rebased(before: App, base: Base, after: App) -> bool {
    &&& says(after.view.notice, "comparing against "@ + base.title(), false)
    &&& after == (App {
        data: Data { base, scanning: true, ..before.data },
        view: View {
            diff_scroll: 0,
            diff_cursor: 0,
            notice: after.view.notice,
            ..before.view
        },
        input: Input { annotating: None, ..before.input },
        ..before
    })
}

/// The first project from the `i`-th on that is rooted at `root`.
pub open spec fn rooted_at(projects: Seq<ProjectStrays>, root: Seq<char>, i: int) -> Option<int>
    decreases projects.len() - i,
{
    if i < 0 || i >= projects.len() {
        None
    } else if same_path(projects[i].project.root@, root) {
        Some(i)
    } else {
        rooted_at(projects, root, i + 1)
    }
}

/// Where the cursor belongs once the rows have been laid out anew: on the file
/// it was on, or as close as the list still allows.
pub open spec fn followed(
    before: App,
    projects: Seq<ProjectStrays>,
    rows: Seq<Row>,
) -> usize {
    let found = if before.spot() is Some {
        row_showing(projects, rows, before.root_here(), before.stray_here().path@, 0)
    } else {
        None
    };
    match found {
        Some(i) => i,
        None => clamp(before.view.selected, rows.len()),
    }
}

/// Whether an app is another one with a finished project folded into its list,
/// and its cursor where it was.
pub open spec fn folded_in(before: App, scanned: ProjectStrays, after: App) -> bool {
    match rooted_at(before.data.projects@, scanned.project.root@, 0) {
        None => after == before,
        Some(at) => {
            &&& after.data.projects@ == before.data.projects@.update(at, scanned)
            &&& after.view.rows@ == rows_of(
                after.data.projects@,
                before.view.collapsed@,
                before.input.filter.query@,
            )
            &&& diff_asked(
                App {
                    data: Data { projects: after.data.projects, ..before.data },
                    view: View {
                        rows: after.view.rows,
                        selected: followed(before, after.data.projects@, after.view.rows@),
                        ..before.view
                    },
                    ..before
                },
                after,
            )
        },
    }
}

/// The notice that outlives a scan: one about anything else.
pub open spec fn lasting(notice: Option<Notice>) -> Option<Notice> {
    match notice {
        Some(n) => if n.about_scan {
            None
        } else {
            Some(n)
        },
        None => None,
    }
}

fn keep_lasting(notice: Option<Notice>) -> (r: Option<Notice>)
    ensures
        r == lasting(notice),
{
    match notice {
        Some(n) => if n.about_scan {
            None
        } else {
            Some(n)
        },
        None => None,
    }
}

/// Whether an app is another one that asks for everything to be read again.
/// Counting the request is what makes it one.
pub open spec fn refreshed(before: App, after: App) -> bool {
    &&& after.view.notice matches Some(n) && n.text@ == "refreshing…"@ && !n.is_error
        && n.about_scan
    &&& after == (App {
        data: Data {
            scanning: true,
            refreshes: if before.data.refreshes == u64::MAX {
                0
            } else {
                (before.data.refreshes + 1) as u64
            },
            ..before.data
        },
        view: View {
            diff_scroll: 0,
            diff_cursor: 0,
            notice: after.view.notice,
            ..before.view
        },
        ..before
    })
}

impl App {
    /// The projects a scan should be asked for, and what it needs to read them.
    ///
    /// The `App` does not own the scanner: it is a state value that gets
    /// rebuilt on every transition, and a worker handle cannot survive that.
    /// The event loop owns the scanner and drives it from this.
    ///
    /// The refresh count rides along because the loop decides what to dispatch
    /// by comparing this against what the running scan was asked for. Two
    /// refreshes name identical work, so without the count they compare equal
    /// and the second one is silently dropped — see [`Data::refreshes`].
    pub fn scan_request(&self) -> (r: ScanRequest)
        ensures
            is_wanted(*self, r),
    {
        ScanRequest {
            projects: projects_of(&self.data.projects),
            show_all: self.view.show_all,
            base: self.data.base.clone(),
            refreshes: self.data.refreshes,
        }
    }

    /// The three things the scanner itself needs, without the bookkeeping.
    pub fn projects_to_scan(&self) -> (r: (Vec<Project>, bool, Base))
        ensures
            r.0@ == listed_projects(self.data.projects@),
            r.1 == self.view.show_all,
            r.2 == self.data.base,
    {
        let request = self.scan_request();
        (request.projects, request.show_all, request.base)
    }

    /// What the loop should have scanned now, if the scan in flight is not the
    /// right one.
    ///
    /// The question this answers is "is the running scan still the right one",
    /// not "did `scanning` just become true". Those differ: the filesystem
    /// watch sets `scanning` on its own, so a key pressed while a watch refresh
    /// is in flight would find the flag already set, and dispatching on its
    /// edge would drop that key's scan entirely.
    pub fn scan_due(&self, dispatched: &Option<ScanRequest>) -> (r: Option<ScanRequest>)
        ensures
            match r {
                Some(request) => {
                    &&& self.data.scanning
                    &&& is_wanted(*self, request)
                    &&& *dispatched matches Some(d) ==> !same_request(d, request)
                },
                None => !self.data.scanning || exists|d: ScanRequest, w: ScanRequest|
                    *dispatched == Some(d) && is_wanted(*self, w) && same_request(d, w),
            },
    {
        if !self.data.scanning {
            return None;
        }
        let wanted = self.scan_request();
        match dispatched {
            Some(d) => if d.agrees(&wanted) {
                assert(*dispatched == Some(*d) && is_wanted(*self, wanted) && same_request(
                    *d,
                    wanted,
                ));
                None
            } else {
                Some(wanted)
            },
            None => Some(wanted),
        }
    }

    /// Switch between comparing against the last commit and against the branch,
    /// given what the branch was found to have diverged from. Nothing has to be
    /// found to go back to the last commit.
    ///
    /// Two answers to two different questions, so this toggles rather than
    /// cycling: `HEAD` while writing code, the merge base before a review.
    ///
    /// A repository with nothing to compare against — no upstream and no
    /// default branch — says so and stays where it was. Falling back to `HEAD`
    /// silently would look like the key did nothing.
    pub fn toggle_base(self, found: Option<Result<Base, GitError>>) -> (r: Self)
        ensures
            !(self.data.base is Head) ==> rebased(self, Base::Head, r),
            self.data.base is Head ==> match found {
                Some(Ok(base)) => if self.data.projects@.len() > 0 {
                    rebased(self, base, r)
                } else {
                    r == self
                },
                Some(Err(e)) => if self.data.projects@.len() > 0 {
                    noticed(self, r, e.text(), true)
                } else {
                    r == self
                },
                None => r == self,
            },
    {
        if !self.data.base.is_head() {
            return self.with_base(Base::Head);
        }
        match found {
            Some(answer) => self.adopt(answer),
            None => self,
        }
    }

    /// Compare against a revision the user named, given what git made of the
    /// name.
    ///
    /// Resolved before it is adopted, so a name that is not a revision is
    /// refused once with a reason rather than emptying every diff in the list.
    pub fn with_named_base(self, resolved: Result<Base, GitError>) -> (r: Self)
        ensures
            self.data.projects@.len() == 0 ==> r == self,
            self.data.projects@.len() > 0 ==> match resolved {
                Ok(base) => rebased(self, base, r),
                Err(e) => noticed(self, r, e.text(), true),
            },
    {
        self.adopt(resolved)
    }

    fn adopt(self, answer: Result<Base, GitError>) -> (r: Self)
        ensures
            self.data.projects@.len() == 0 ==> r == self,
            self.data.projects@.len() > 0 ==> match answer {
                Ok(base) => rebased(self, base, r),
                Err(e) => noticed(self, r, e.text(), true),
            },
    {
        if self.data.projects.len() == 0 {
            return self;
        }
        match answer {
            Ok(base) => self.with_base(base),
            Err(e) => self.with_notice(Notice::error(e.message())),
        }
    }

    /// Adopt a base and ask for the list to be read again against it.
    ///
    /// A different base means a different set of files, not merely different
    /// diffs — a file changed earlier on the branch is in the branch view and
    /// not in the `HEAD` one — so this needs a full rescan rather than just
    /// reloading the diff under the cursor.
    pub(crate) fn with_base(self, base: Base) -> (r: Self)
        ensures
            rebased(self, base, r),
    {
        let notice = Notice::info("comparing against ".to_owned().concat(base.label()));
        App {
            data: Data { base, scanning: true, ..self.data },
            view: View { diff_scroll: 0, diff_cursor: 0, notice: Some(notice), ..self.view },
            input: Input { annotating: None, ..self.input },
            ..self
        }
    }

    /// Replace the project list with one project, as a placeholder.
    ///
    /// For callers that know which repository they mean rather than asking
    /// herdr.
    pub fn with_only(self, project: Project) -> (r: Self)
        ensures
            r.data.projects@.len() == 1,
            r.data.projects@[0].project == project,
            is_placeholder(r.data.projects@[0]),
            relaid(
                App {
                    data: Data { projects: r.data.projects, scanning: true, ..self.data },
                    view: View { selected: 0, ..self.view },
                    ..self
                },
                r,
            ),
    {
        let mut projects: Vec<ProjectStrays> = Vec::new();
        projects.push(placeholder(project));
        App {
            data: Data { projects, scanning: true, ..self.data },
            view: View { selected: 0, ..self.view },
            ..self
        }.rebuilt()
    }

    /// Note that a scan has been asked for, so the list can say so.
    pub fn scan_started(self) -> (r: Self)
        ensures
            r == (App { data: Data { scanning: true, ..self.data }, ..self }),
    {
        App { data: Data { scanning: true, ..self.data }, ..self }
    }

    /// Fold one finished project into the list, keeping the cursor in place.
    ///
    /// Matched by root rather than by index: a scan and the list it updates are
    /// separated by however long git took, and a project could have been added
    /// or removed in between. An answer about a project no longer listed is
    /// dropped rather than applied to whichever row now sits at that index.
    ///
    /// The diff follows the cursor: if the selection moved to a different file,
    /// what is displayed beside it has to move too.
    pub fn with_project_scanned(self, scanned: ProjectStrays) -> (r: Self)
        ensures
            folded_in(self, scanned, r),
    {
        let at = match self.project_at(scanned.project.root.as_str()) {
            Some(at) => at,
            None => {
                return self;
            },
        };
        let anchor = match self.selected_stray() {
            Some((root, stray)) => Some((root.clone(), stray.path.clone())),
            None => None,
        };
        let mut projects = self.data.projects;
        projects.set(at, scanned);
        let app = App { data: Data { projects, ..self.data }, ..self }.rebuilt();
        let found = match &anchor {
            Some((root, path)) => app.row_of(root.as_str(), path.as_str()),
            None => None,
        };
        let app = match found {
            Some(selected) => App { view: View { selected, ..app.view }, ..app },
            None => app.clamped(),
        };
        app.ask_diff()
    }

    /// The place in the list of the project rooted at `root`.
    fn project_at(&self, root: &str) -> (r: Option<usize>)
        ensures
            match (r, rooted_at(self.data.projects@, root@, 0)) {
                (Some(i), Some(at)) => i == at && i < self.data.projects@.len(),
                (None, None) => true,
                _ => false,
            },
    {
        for i in 0..self.data.projects.len()
            invariant
                rooted_at(self.data.projects@, root@, 0) == rooted_at(
                    self.data.projects@,
                    root@,
                    i as int,
                ),
        {
            if same_as(self.data.projects[i].project.root.as_str(), root) {
                return Some(i);
            }
        }
        None
    }

    /// Note that every project of the current round has been reported.
    ///
    /// Only the flag. A scan answers the question it was asked and says nothing
    /// about what the reader has since chosen to look at, so nothing else is
    /// touched here.
    ///
    /// The one thing beyond the flag: a line claiming a scan is running stops
    /// being true here, so it is withdrawn. Notices about anything else are the
    /// reader's and stay.
    pub fn scan_finished(self) -> (r: Self)
        ensures
            r == (App {
                data: Data { scanning: false, ..self.data },
                view: View { notice: lasting(self.view.notice), ..self.view },
                ..self
            }),
    {
        let notice = keep_lasting(self.view.notice);
        App {
            data: Data { scanning: false, ..self.data },
            view: View { notice, ..self.view },
            ..self
        }
    }

    /// Record what one repository's forge said.
    ///
    /// Unlike [`Self::with_project_scanned`] this does not rebuild the rows: a
    /// forge answer changes a marker on a row that already exists, never which
    /// rows there are. Rebuilding would move the cursor for a tick arriving
    /// while the reader is reading.
    ///
    /// An answer for a root no longer listed is kept rather than dropped — the
    /// project may be off screen under a narrower scope and come back.
    ///
    /// Nothing known is recorded as such rather than skipped, so a repository
    /// that stopped answering does not keep showing the tick it had an hour
    /// ago.
    pub fn with_forge_status(self, root: String, status: ForgeStatus) -> (r: Self)
        ensures
            r.data.forge@ == self.data.forge@.insert(parts(root@), status),
            r == (App { data: Data { forge: r.data.forge, ..self.data }, ..self }),
    {
        let mut forge = self.data.forge;
        forge.insert(root, status);
        App { data: Data { forge, ..self.data }, ..self }
    }

    /// Ask for every project to be re-read.
    ///
    /// Returns immediately. The reading happens on the scanner's thread and
    /// arrives project by project through [`Self::with_project_scanned`] — the
    /// list keeps showing what it already has until each answer replaces it,
    /// rather than emptying and refilling.
    ///
    /// Annotations survive: the worktree changing underneath is the normal
    /// case, and re-anchoring is what `Anchor::locate` is for. Whatever is being
    /// typed survives too: a refresh is about what git says, not about what the
    /// reader is part-way through.
    pub fn refresh(self) -> (r: Self)
        ensures
            refreshed(self, r),
    {
        let notice = Notice::scanning("refreshing…".to_owned());
        App {
            data: Data {
                scanning: true,
                refreshes: self.data.refreshes.wrapping_add(1),
                ..self.data
            },
            view: View { diff_scroll: 0, diff_cursor: 0, notice: Some(notice), ..self.view },
            ..self
        }
    }

    /// Re-read the worktrees without announcing it.
    ///
    /// Used by the filesystem watch: a refresh the user did not ask for should
    /// not overwrite whatever the status line is already saying, nor move the
    /// scroll or the mark from where the reader put them.
    ///
    /// Except a line about the scan: this refresh is not the one it was
    /// reporting on, and carrying it forward would let "refreshing…" ride
    /// from one watch-driven round to the next without ever being answered.
    pub fn refresh_silently(self) -> (r: Self)
        ensures
            r == (App {
                data: Data {
                    scanning: true,
                    refreshes: if self.data.refreshes == u64::MAX {
                        0
                    } else {
                        (self.data.refreshes + 1) as u64
                    },
                    ..self.data
                },
                view: View { notice: lasting(self.view.notice), ..self.view },
                ..self
            }),
    {
        let notice = keep_lasting(self.view.notice);
        let diff_scroll = self.view.diff_scroll;
        let diff_cursor = self.view.diff_cursor;
        let refreshed = App { view: View { notice: None, ..self.view }, ..self }.refresh();
        App { view: View { notice, diff_scroll, diff_cursor, ..refreshed.view }, ..refreshed }
    }
}

/// A refresh is a request of its own: what a scan was asked for before it is not
/// what is wanted after.
pub proof fn a_refresh_is_a_new_request(before: App, after: App, d: ScanRequest, w: ScanRequest)
    requires
        refreshed(before, after),
        is_wanted(before, d),
        is_wanted(after, w),
    ensures
        !same_request(d, w),
{
}

/// The cursor stays on its file while the list changes around it: where the
/// file is still listed, the row that the cursor is put on shows it.
pub proof fn the_cursor_follows_its_file(
    before: App,
    projects: Seq<ProjectStrays>,
    rows: Seq<Row>,
    i: int,
)
    requires
        before.spot() is Some,
        0 <= i < rows.len() <= usize::MAX,
        row_is(projects, rows[i], before.root_here(), before.stray_here().path@),
    ensures
        followed(before, projects, rows) <= i,
        row_is(
            projects,
            rows[followed(before, projects, rows) as int],
            before.root_here(),
            before.stray_here().path@,
        ),
{
    lemma_row_showing(projects, rows, before.root_here(), before.stray_here().path@, 0, i);
}

proof fn lemma_row_showing(
    projects: Seq<ProjectStrays>,
    rows: Seq<Row>,
    root: Seq<char>,
    path: Seq<char>,
    from: int,
    i: int,
)
    requires
        0 <= from <= i < rows.len() <= usize::MAX,
        row_is(projects, rows[i], root, path),
    ensures
        row_showing(projects, rows, root, path, from) matches Some(k) && k <= i && row_is(
            projects,
            rows[k as int],
            root,
            path,
        ),
    decreases i - from,
{
    if !row_is(projects, rows[from], root, path) {
        lemma_row_showing(projects, rows, root, path, from + 1, i);
    }
}

} // verus!
