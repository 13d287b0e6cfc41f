//! Application state and the transitions over it.
//!
//! State updates return a new `App` rather than mutating in place, so a failed
//! refresh can never leave a half-updated list behind.
//!
//! Nothing here asks git anything. A transition that needs an answer says so in
//! [`Pending`], the program around it asks, and the answer comes back through a
//! transition of its own.

use vstd::prelude::*;
use vstd::string::*;
use vstd::view::View as _;

use crate::annotate::{Anchor, Annotations, Kind};
use crate::config::{Bindings, Config, Thresholds};
use crate::discover::{directory_name, name_of_directory, Project, Scope};
use crate::forge::{ForgeAnswers, ForgeStatus};
use crate::git::base::Base;
use crate::git::blame::Blame;
use crate::git::run::GitError;
use crate::intraline::{compute, spans_at, spans_view, Intraline};
use crate::model::{Diff, Stray, StrayStatus};
use crate::paths::{same_as, same_path, Part};
use crate::scan::{are_placeholders, is_placeholder, placeholders};
use crate::tree::{
    auto_folded, flatten_filtered, node_at, node_of, oversized, rows_of, Folds, ProjectStrays, Row,
};

pub use crate::app::delegating::Delegating;
pub use crate::app::revisions::{RevisionList, RevisionRow, Revisions};
pub use crate::app::scanning::ScanRequest;

pub mod annotating;
pub mod consistency;
pub mod delegating;
pub mod drilling;
pub mod filtering;
pub mod folding;
pub mod keeping;
pub mod loading;
pub mod pressing;
pub mod prompt;
pub mod revisions;
pub mod scanning;
pub mod scroll;
pub mod searching;

verus! {

/// A transient message shown in the status bar (errors, hand-off results).
#[derive(Debug, Clone, PartialEq, Eq)]
pub struct Notice {
    pub text: String,
    pub is_error: bool,
    /// Whether this line is a claim about a scan that is running.
    ///
    /// Such a claim stops being true the moment the scan comes back, so the end
    /// of a round withdraws it. Every other notice is an answer to something the
    /// reader did and is theirs to keep until they press a key — clearing those
    /// would delete the reply to the key just pressed.
    ///
    /// Carried on the notice rather than matched on its text: "is this about the
    /// scan" is a fact about why the line was put there, and recovering it by
    /// comparing wording would break the first time the wording changed.
    pub about_scan: bool,
}

impl Notice {
    pub fn error(text: String) -> (r: Self)
        ensures
            r == (Notice { text, is_error: true, about_scan: false }),
    {
        Notice { text, is_error: true, about_scan: false }
    }

    pub fn info(text: String) -> (r: Self)
        ensures
            r == (Notice { text, is_error: false, about_scan: false }),
    {
        Notice { text, is_error: false, about_scan: false }
    }

    /// A line reporting a scan in flight, withdrawn when that scan returns.
    pub fn scanning(text: String) -> (r: Self)
        ensures
            r == (Notice { text, is_error: false, about_scan: true }),
    {
        Notice { text, is_error: false, about_scan: true }
    }
}

/// Whether a notice answers the reader with these words.
pub open spec fn says(notice: Option<Notice>, text: Seq<char>, is_error: bool) -> bool {
    notice matches Some(n) && n.text@ == text && n.is_error == is_error && !n.about_scan
}

/// What is known about the repositories, as git last answered.
///
/// Everything here came from a git query or from disk. None of it depends on
/// where the cursor is or what is being typed, which is what separates it from
/// [`View`] and [`Input`]: a refresh replaces this wholesale and leaves the
/// other two alone.
#[derive(Debug, Clone)]
pub struct Data {
    /// Every project herdr has open, each with its own strays.
    pub projects: Vec<ProjectStrays>,
    pub diff: Diff,
    /// Which words changed within each line of `diff`, indexed alongside it.
    ///
    /// Computed once when the diff is loaded rather than per draw: the pane
    /// redraws on every keypress and on every watcher tick, and the comparison
    /// is quadratic in the tokens of a line pair. Empty when the diff has no
    /// text, which the renderer treats as "colour whole lines".
    pub words: Intraline,
    /// Who last touched each line of the selected file, by line number.
    ///
    /// Indexed by the file's own line numbers rather than the diff's, because
    /// that is what blame reports. Empty when the column is off or the file
    /// cannot be blamed, which the renderer draws as no column at all.
    pub blame: Blame,
    /// Notes recorded against the selected project, loaded from disk.
    pub annotations: Annotations,
    /// What the diffs are taken against.
    ///
    /// One base for every project rather than one each: the question being
    /// asked — "what have I changed" or "what is on this branch" — is the
    /// reader's, not the repository's, and switching it per project would make
    /// the list mean different things on different rows.
    pub base: Base,
    /// Whether git is still being asked about some of the listed projects.
    ///
    /// Held rather than derived because a project that genuinely has no strays
    /// and one that has not been read yet look identical — both are an empty
    /// list — and telling the user a repository is clean when it has not been
    /// looked at would be worse than telling them nothing.
    pub scanning: bool,
    /// How many times a re-read has been asked for.
    ///
    /// The event loop dispatches a scan when what the app wants differs from
    /// what the running scan was asked for. A refresh wants the *same*
    /// projects, the same `show_all` and the same base, read again: so it is
    /// counted, and the count is part of what a scan is asked for. Two
    /// refreshes are two different requests even when they name identical work,
    /// which is exactly what the reader meant by pressing the key twice.
    pub refreshes: u64,
    /// The numbers the reader is allowed to move.
    pub thresholds: Thresholds,
    /// Whether the diff may sit beside the list at all.
    ///
    /// Separate from the width threshold because it answers a different
    /// question: `false` stacks the panes at every width, which is what a
    /// reader in a wide terminal wanting a full-width diff asks for.
    pub side_by_side: bool,
    /// Which key does what, defaults merged with the reader's own bindings.
    pub bindings: Bindings,
    /// What each repository's forge last said, keyed by repository root.
    ///
    /// Held beside the projects, so that an answer minutes old survives every
    /// rescan until the forge is asked again. A root with no entry is a
    /// repository nobody has answered for.
    pub forge: ForgeAnswers,
    /// Whether and how often to ask the forge at all.
    pub forge_config: crate::config::Forge,
}

/// What is on screen and where the cursor is within it.
///
/// Derived from [`Data`] and from what the reader has pressed, but never from
/// what they are part-way through typing. Kept apart so a refresh can replace
/// the data without moving the cursor out from under them.
#[derive(Debug, Clone)]
pub struct View {
    /// The flattened tree the cursor moves through.
    pub rows: Vec<Row>,
    pub selected: usize,
    /// Nodes the user folded away; kept across refreshes.
    pub collapsed: Folds,
    /// Vertical scroll offset within the diff pane.
    pub diff_scroll: u16,
    /// Which diff line the annotation cursor sits on.
    ///
    /// An index into the rendered diff, separate from `diff_scroll`: the
    /// reader scrolls to see, and marks where they are looking.
    pub diff_cursor: usize,
    /// Which workspaces contribute projects.
    pub scope: Scope,
    /// Whether unchanged tracked files are listed alongside the strays.
    pub show_all: bool,
    /// Whether the key reference is covering the diff pane.
    pub show_help: bool,
    /// How far the key reference has been scrolled.
    ///
    /// Separate from `diff_scroll` because the reference outgrows a short pane
    /// and has to scroll on its own. Reset when the reference is closed, so it
    /// always opens at the top.
    pub help_scroll: u16,
    /// Whether the diff is split into old text beside new.
    pub split_diff: bool,
    /// Whether the blame column is showing.
    ///
    /// Off by default: blame is the most expensive query here and answers a
    /// question that is only sometimes the one being asked. Held separately
    /// from `blame` being empty, because a file with no history is a different
    /// state from the column being turned off.
    pub show_blame: bool,
    /// A list of revisions occupying the diff pane, when one is open.
    ///
    /// `None` means the pane is showing a diff. The history and the stash list
    /// share it, so at most one can be there at a time.
    pub revisions: Option<Revisions>,
    /// A transient message along the bottom.
    pub notice: Option<Notice>,
    /// The submodules the reader has stepped into, outermost first.
    ///
    /// Empty is the ordinary view of every open project. Each entry is one
    /// layer of drilling down, holding what it takes to put the previous view
    /// back — see [`Layer`].
    pub drilled: Vec<Layer>,
}

/// One submodule the reader stepped into, and the view it covered up.
///
/// Held so leaving is exact rather than approximate: the projects come back as
/// they were, and the cursor lands on the submodule row the reader entered
/// through rather than at the top of a list they have to re-find their place
/// in.
#[derive(Debug, Clone)]
pub struct Layer {
    /// The projects that were listed before stepping in.
    pub projects: Vec<ProjectStrays>,
    /// Which row the cursor was on — the submodule row itself.
    pub selected: usize,
    /// What was folded away out there, so stepping back does not unfold it.
    pub collapsed: Folds,
    /// The submodule's path within the project that contained it, for the
    /// breadcrumb trail.
    pub at: String,
}

/// What the reader is part-way through typing.
///
/// Every field here is an open input line, and at most one is ever open —
/// the line that is open owns the keyboard, so a `q` typed into a commit
/// message does not quit the viewer.
#[derive(Debug, Clone)]
pub struct Input {
    /// The prompt being typed for an agent, when the input line is open.
    ///
    /// `None` means the input line is closed and keys route to navigation.
    pub prompt: Option<String>,
    /// The annotation being typed, when the annotation line is open.
    pub annotating: Option<Annotating>,
    /// A write being asked of the agent, when one is being composed.
    ///
    /// `None` means no delegation is in progress. While it is `Some` the
    /// message line owns the keyboard, as the prompt and annotation lines do.
    pub delegating: Option<Delegating>,
    /// The filter narrowing the list, and whether its input line is open.
    ///
    /// The query outlives the input line: typing `/mod`, pressing Enter and
    /// then moving through the results keeps the list narrowed. `Esc` clears
    /// it, which is the only way back to the whole tree.
    pub filter: Filter,
    /// The search running over the diff pane.
    ///
    /// Separate from `filter`, which narrows the file list: one asks which
    /// files to show, the other where to look inside one of them.
    pub search: Search,
}

/// Whether nothing is being typed.
pub open spec fn nothing_typed(input: Input) -> bool {
    &&& input.prompt is None
    &&& input.annotating is None
    &&& input.delegating is None
    &&& input.filter.at_rest()
    &&& input.search.at_rest()
}

impl Default for Input {
    fn default() -> (r: Self)
        ensures
            nothing_typed(r),
    {
        Input {
            prompt: None,
            annotating: None,
            delegating: None,
            filter: Filter::default(),
            search: Search::default(),
        }
    }
}

/// What has to be asked before the next frame: answers that what is shown
/// depends on, and that only the outside can give.
#[derive(Debug, Clone, Copy, PartialEq, Eq, Structural)]
pub struct Pending {
    /// The diff of the selected file.
    pub diff: bool,
    /// Who last touched each line of the selected file.
    pub blame: bool,
    /// The notes stored for the selected project.
    pub notes: bool,
}

/// The whole state of the viewer.
///
/// Three groups rather than one flat list of fields: what git said ([`Data`]),
/// what is on screen ([`View`]), and what is being typed ([`Input`]). The split
/// is what makes the transitions readable — a refresh replaces `data` and
/// leaves the rest, opening an input line touches only `input`, and scrolling
/// touches only `view`.
#[derive(Debug, Clone)]
pub struct App {
    pub data: Data,
    pub view: View,
    pub input: Input,
    pub should_quit: bool,
    /// The herdr binary to call when re-discovering projects.
    pub herdr_bin: String,
    pub pending: Pending,
}

/// The query being looked for inside the diff.
#[derive(Debug, Clone, PartialEq, Eq)]
pub struct Search {
    /// What is being looked for. Empty means no search is running.
    pub query: String,
    /// Whether keys are going into the search line rather than to navigation.
    pub editing: bool,
}

impl Search {
    /// Whether nothing is looked for and the line is closed.
    pub open spec fn at_rest(&self) -> bool {
        self.query@.len() == 0 && !self.editing
    }

    pub fn is_active(&self) -> (r: bool)
        ensures
            r == (self.query@.len() > 0),
    {
        !self.query.is_empty()
    }
}

impl Default for Search {
    fn default() -> (r: Self)
        ensures
            r.at_rest(),
    {
        Search { query: String::new(), editing: false }
    }
}

/// The query narrowing the file list.
#[derive(Debug, Clone, PartialEq, Eq)]
pub struct Filter {
    /// What is being matched against. Empty means the whole tree is shown.
    pub query: String,
    /// Whether keys are going into the filter line rather than to navigation.
    pub editing: bool,
}

impl Filter {
    /// Whether nothing is narrowed and the line is closed.
    pub open spec fn at_rest(&self) -> bool {
        self.query@.len() == 0 && !self.editing
    }

    pub fn is_active(&self) -> (r: bool)
        ensures
            r == (self.query@.len() > 0),
    {
        !self.query.is_empty()
    }
}

impl Default for Filter {
    fn default() -> (r: Self)
        ensures
            r.at_rest(),
    {
        Filter { query: String::new(), editing: false }
    }
}

/// An annotation part-way through being written.
#[derive(Debug, Clone, PartialEq, Eq)]
pub struct Annotating {
    /// Where it will be pinned, fixed when the input opened so scrolling
    /// underneath cannot move it.
    pub anchor: Anchor,
    pub kind: Kind,
    pub text: String,
}

impl App {
    /// The row under the cursor.
    pub open spec fn row(&self) -> Option<Row> {
        if self.view.selected < self.view.rows@.len() {
            Some(self.view.rows@[self.view.selected as int])
        } else {
            None
        }
    }

    /// Which stray of which project the cursor is on, when it is on a file row.
    pub open spec fn spot(&self) -> Option<(int, int)> {
        match self.row() {
            Some(Row::File { project, stray, .. }) => if project < self.data.projects@.len()
                && stray < self.data.projects@[project as int].strays@.len() {
                Some((project as int, stray as int))
            } else {
                None
            },
            _ => None,
        }
    }

    /// The root of the project that the cursor is in, when it is on a file row.
    pub open spec fn root_here(&self) -> Seq<char> {
        self.data.projects@[self.spot()->Some_0.0].project.root@
    }

    /// The stray under the cursor, when it is on a file row.
    pub open spec fn stray_here(&self) -> Stray {
        self.data.projects@[self.spot()->Some_0.0].strays@[self.spot()->Some_0.1]
    }
}

/// Whether an app is another one with a notice put up.
pub open spec fn noticed(before: App, after: App, text: Seq<char>, is_error: bool) -> bool {
    &&& says(after.view.notice, text, is_error)
    &&& after == (App { view: View { notice: after.view.notice, ..before.view }, ..before })
}

/// Whether an app is another one with nothing shown beside the list.
pub open spec fn cleared(before: App, after: App) -> bool {
    &&& after.data.words@.len() == 0
    &&& after.data.blame@.len() == 0
    &&& after == (App {
        data: Data {
            diff: Diff::Empty,
            words: after.data.words,
            blame: after.data.blame,
            ..before.data
        },
        pending: Pending { diff: false, blame: false, ..before.pending },
        ..before
    })
}

/// Whether an app is another one that waits for the diff of what the cursor is
/// on. Project and directory rows have no diff of their own.
pub open spec fn diff_asked(before: App, after: App) -> bool {
    if before.spot() is Some {
        after == (App { pending: Pending { diff: true, ..before.pending }, ..before })
    } else {
        cleared(before, after)
    }
}

/// Whether an app is another one that waits for the diff of what the cursor is
/// on, and for the notes stored for its project. A row that is not a file says
/// nothing about whose notes are wanted, and leaves those that are held.
pub open spec fn diff_and_notes_asked(before: App, after: App) -> bool {
    if before.spot() is Some {
        after == (App { pending: Pending { diff: true, notes: true, ..before.pending }, ..before })
    } else {
        cleared(before, after)
    }
}

/// Whether an app is another one with its rows laid out anew.
pub open spec fn relaid(before: App, after: App) -> bool {
    &&& after.view.rows@ == rows_of(
        before.data.projects@,
        before.view.collapsed@,
        before.input.filter.query@,
    )
    &&& after == (App { view: View { rows: after.view.rows, ..before.view }, ..before })
}

/// Whether an app is another one with the node under the cursor folded if it was
/// not, and unfolded if it was. A file row has nothing to fold.
pub open spec fn fold_toggled(before: App, after: App) -> bool {
    match before.row() {
        None => after == before,
        Some(row) => match node_at(before.data.projects@, row) {
            None => after == before,
            Some(key) => {
                &&& after.view.collapsed@ == (if before.view.collapsed@.contains(key) {
                    before.view.collapsed@.remove(key)
                } else {
                    before.view.collapsed@.insert(key)
                })
                &&& after.view.rows@ == rows_of(
                    before.data.projects@,
                    after.view.collapsed@,
                    before.input.filter.query@,
                )
                &&& diff_asked(
                    App {
                        view: View {
                            collapsed: after.view.collapsed,
                            rows: after.view.rows,
                            selected: clamp(before.view.selected, after.view.rows@.len()),
                            ..before.view
                        },
                        ..before
                    },
                    after,
                )
            },
        },
    }
}

/// A place in a list, or the last one where it is past the end.
pub open spec fn clamp(selected: usize, len: nat) -> usize {
    if selected < len {
        selected
    } else if len == 0 {
        0
    } else {
        (len - 1) as usize
    }
}

fn clamped_to(selected: usize, len: usize) -> (r: usize)
    ensures
        r == clamp(selected, len as nat),
{
    if selected < len {
        selected
    } else if len == 0 {
        0
    } else {
        len - 1
    }
}

/// Whether a list of projects is what herdr has open, or the repository being
/// stood in where it has none.
pub open spec fn with_fallback(
    discovered: Seq<Project>,
    fallback: Option<Seq<char>>,
    projects: Seq<Project>,
) -> bool {
    if discovered.len() > 0 {
        projects == discovered
    } else {
        match fallback {
            Some(root) => projects.len() == 1 && projects[0].root@ == root && projects[0].name@
                == directory_name(root),
            None => projects.len() == 0,
        }
    }
}

/// What herdr has open, or the repository being stood in where it has none:
/// running the binary straight from a shell should still show the repository
/// you are standing in rather than an empty screen.
pub fn or_fallback(discovered: Vec<Project>, fallback: Option<String>) -> (r: Vec<Project>)
    ensures
        with_fallback(discovered@, crate::text::text_view(fallback), r@),
{
    let mut projects = discovered;
    if projects.len() == 0 {
        if let Some(root) = fallback {
            let name = name_of_directory(root.as_str());
            projects.push(Project { root, name });
        }
    }
    projects
}

/// The state that the viewer starts in.
pub open spec fn starts(
    herdr_bin: Seq<char>,
    projects: Seq<Project>,
    scope: Scope,
    config: Config,
    app: App,
) -> bool {
    &&& are_placeholders(app.data.projects@, projects)
    &&& app.data.diff is Empty
    &&& app.data.words@.len() == 0
    &&& app.data.blame@.len() == 0
    &&& app.data.annotations@.len() == 0
    &&& app.data.base is Head
    &&& !app.data.scanning
    &&& app.data.refreshes == 0
    &&& app.data.thresholds == config.thresholds
    &&& app.data.side_by_side == config.panels.side_by_side
    &&& app.data.bindings@ == config.bindings@
    &&& app.data.forge@ == Map::<Seq<Part>, ForgeStatus>::empty()
    &&& app.data.forge_config == config.forge
    &&& app.view.rows@ == rows_of(app.data.projects@, app.view.collapsed@, Seq::empty())
    &&& app.view.selected == 0
    &&& forall|key: (int, Seq<Part>)| #[trigger]
        app.view.collapsed@.contains(key) <==> oversized(
            app.data.projects@,
            config.thresholds.auto_fold as int,
            key,
        )
    &&& app.view.diff_scroll == 0
    &&& app.view.diff_cursor == 0
    &&& app.view.scope == scope
    &&& app.view.show_all == config.panels.show_all
    &&& app.view.show_help == config.panels.show_help
    &&& app.view.help_scroll == 0
    &&& !app.view.split_diff
    &&& !app.view.show_blame
    &&& app.view.revisions is None
    &&& app.view.notice is None
    &&& app.view.drilled@.len() == 0
    &&& nothing_typed(app.input)
    &&& !app.should_quit
    &&& app.herdr_bin@ == herdr_bin
    &&& app.pending == (Pending { diff: false, blame: false, notes: false })
}

impl App {
    /// Build the initial state from the projects herdr has open.
    ///
    /// `fallback` is used when herdr reports nothing. `config` is what the
    /// reader set, already merged with the defaults: this is the one place the
    /// whole state is built, so nothing further down has to know a config file
    /// exists.
    ///
    /// Every project starts as a placeholder holding only the name herdr
    /// already gave us. Reading them is the scanner's work, and the caller
    /// starts it — see [`Self::projects_to_scan`]. Building the list here means
    /// the rows exist from the first frame, so the tree does not reflow
    /// underneath the cursor as the answers arrive.
    ///
    /// Oversized directories start folded so a generated-output tree cannot
    /// bury every other project. The user's own toggles take over from here.
    pub fn load(
        herdr_bin: &str,
        discovered: Vec<Project>,
        fallback: Option<String>,
        scope: Scope,
        config: &Config,
    ) -> (r: Self)
        ensures
            exists|projects: Seq<Project>| #[trigger]
                with_fallback(discovered@, crate::text::text_view(fallback), projects) && starts(
                    herdr_bin@,
                    projects,
                    scope,
                    *config,
                    r,
                ),
    {
        let open = or_fallback(discovered, fallback);
        let ghost listed = open@;
        let projects = placeholders(open);
        let collapsed = auto_folded(&projects, config.thresholds.auto_fold);
        let app = App {
            data: Data {
                projects,
                diff: Diff::Empty,
                words: Vec::new(),
                blame: Vec::new(),
                annotations: Annotations::new(),
                base: Base::Head,
                scanning: false,
                refreshes: 0,
                thresholds: config.thresholds,
                side_by_side: config.panels.side_by_side,
                bindings: config.bindings.clone(),
                forge: ForgeAnswers::new(),
                forge_config: config.forge,
            },
            view: View {
                rows: Vec::new(),
                selected: 0,
                collapsed,
                diff_scroll: 0,
                diff_cursor: 0,
                scope,
                show_all: config.panels.show_all,
                show_help: config.panels.show_help,
                help_scroll: 0,
                split_diff: false,
                show_blame: false,
                revisions: None,
                notice: None,
                drilled: Vec::new(),
            },
            input: Input::default(),
            should_quit: false,
            herdr_bin: herdr_bin.to_owned(),
            pending: Pending { diff: false, blame: false, notes: false },
        };
        let app = app.rebuilt();
        proof {
            assert(app.input.filter.query@ =~= Seq::<char>::empty());
            assert(app.spot() is None) by {
                if app.spot() is Some {
                    let p = app.spot()->Some_0.0;
                    assert(is_placeholder(app.data.projects@[p]));
                }
            }
        }
        let r = app.ask_diff();
        assert(starts(herdr_bin@, listed, scope, *config, r));
        r
    }

    /// The herdr binary this app was started with.
    ///
    /// The scanner needs it to ask which agents are running, and it is owned
    /// here because that is where the command line landed.
    pub fn herdr_bin(&self) -> (r: &str)
        ensures
            r@ == self.herdr_bin@,
    {
        self.herdr_bin.as_str()
    }

    /// The root of the first listed project.
    ///
    /// A base is resolved against one repository even though it applies to all
    /// of them: `origin/main` means the same thing everywhere it exists, and a
    /// repository that does not have it falls back at scan time.
    pub fn first_root(&self) -> (r: Option<&String>)
        ensures
            match r {
                Some(root) => self.data.projects@.len() > 0 && *root
                    == self.data.projects@[0].project.root,
                None => self.data.projects@.len() == 0,
            },
    {
        if self.data.projects.len() == 0 {
            None
        } else {
            Some(&self.data.projects[0].project.root)
        }
    }

    /// True when no project has anything to show.
    pub fn is_empty(&self) -> (r: bool)
        ensures
            r == forall|p: int|
                0 <= p < self.data.projects@.len() ==> (#[trigger] self.data.projects@[p]).strays@.len()
                    == 0,
    {
        for p in 0..self.data.projects.len()
            invariant
                forall|q: int|
                    0 <= q < p ==> (#[trigger] self.data.projects@[q]).strays@.len() == 0,
        {
            if self.data.projects[p].strays.len() > 0 {
                assert(self.data.projects@[p as int].strays@.len() > 0);
                return false;
            }
        }
        true
    }

    /// Total strays across every project, as far as a `usize` counts.
    pub fn total_strays(&self) -> (r: usize)
        ensures
            r == (if stray_count(self.data.projects@) <= usize::MAX {
                stray_count(self.data.projects@)
            } else {
                usize::MAX as int
            }),
    {
        let mut total: usize = 0;
        for p in 0..self.data.projects.len()
            invariant
                total == (if stray_count(self.data.projects@.take(p as int)) <= usize::MAX {
                    stray_count(self.data.projects@.take(p as int))
                } else {
                    usize::MAX as int
                }),
        {
            assert(self.data.projects@.take(p + 1).drop_last() =~= self.data.projects@.take(
                p as int,
            ));
            total = total.saturating_add(self.data.projects[p].strays.len());
        }
        assert(self.data.projects@.take(self.data.projects@.len() as int)
            =~= self.data.projects@);
        total
    }

    pub fn selected_row(&self) -> (r: Option<&Row>)
        ensures
            match r {
                Some(row) => self.row() == Some(*row),
                None => self.row() is None,
            },
    {
        if self.view.selected < self.view.rows.len() {
            Some(&self.view.rows[self.view.selected])
        } else {
            None
        }
    }

    /// The stray under the cursor, when the cursor is on a file row.
    pub fn selected_stray(&self) -> (r: Option<(&String, &Stray)>)
        ensures
            match r {
                Some((root, stray)) => self.spot() is Some && root@ == self.root_here() && *root
                    == self.data.projects@[self.spot()->Some_0.0].project.root && *stray
                    == self.stray_here(),
                None => self.spot() is None,
            },
    {
        match self.selected_row() {
            Some(Row::File { project, stray, .. }) => {
                let p = *project;
                let k = *stray;
                if p < self.data.projects.len() && k < self.data.projects[p].strays.len() {
                    let entry = &self.data.projects[p];
                    Some((&entry.project.root, &entry.strays[k]))
                } else {
                    None
                }
            },
            _ => None,
        }
    }

    /// Recompute the flattened rows from the current projects and fold state.
    pub fn rebuilt(self) -> (r: Self)
        ensures
            relaid(self, r),
    {
        let rows = flatten_filtered(
            &self.data.projects,
            &self.view.collapsed,
            self.input.filter.query.as_str(),
        );
        App { view: View { rows, ..self.view }, ..self }
    }

    /// Wait for the diff of what the cursor is on.
    pub(crate) fn ask_diff(self) -> (r: Self)
        ensures
            diff_asked(self, r),
    {
        if self.selected_stray().is_some() {
            App { pending: Pending { diff: true, ..self.pending }, ..self }
        } else {
            self.without_diff()
        }
    }

    /// Wait for the diff of what the cursor is on, and for its project's notes.
    pub(crate) fn ask_diff_and_notes(self) -> (r: Self)
        ensures
            diff_and_notes_asked(self, r),
    {
        if self.selected_stray().is_some() {
            App { pending: Pending { diff: true, notes: true, ..self.pending }, ..self }
        } else {
            self.without_diff()
        }
    }

    /// Show nothing beside the list.
    fn without_diff(self) -> (r: Self)
        ensures
            cleared(self, r),
    {
        App {
            data: Data { diff: Diff::Empty, words: Vec::new(), blame: Vec::new(), ..self.data },
            pending: Pending { diff: false, blame: false, ..self.pending },
            ..self
        }
    }
}

/// How many strays some projects have between them.
pub open spec fn stray_count(projects: Seq<ProjectStrays>) -> int
    decreases projects.len(),
{
    if projects.len() == 0 {
        0
    } else {
        stray_count(projects.drop_last()) + projects.last().strays@.len()
    }
}

/// Whether an app is another one with the cursor moved. The cursor in the diff
/// belongs to the diff being read, so a new file starts at its top; a note being
/// written belongs to the file it was begun on.
pub open spec fn moved(before: App, selected: usize, after: App) -> bool {
    if selected == before.view.selected {
        after == before
    } else {
        diff_and_notes_asked(
            App {
                view: View { selected, diff_scroll: 0, diff_cursor: 0, ..before.view },
                input: Input { annotating: None, ..before.input },
                ..before
            },
            after,
        )
    }
}

/// Whether the words of each line of a diff are those that were compared.
pub open spec fn words_are(diff: Diff, words: Seq<Option<Vec<crate::intraline::Span>>>) -> bool {
    match diff {
        Diff::Text(lines) => words.len() == lines@.len() && forall|i: int|
            0 <= i < words.len() ==> spans_view(#[trigger] words[i]) == spans_at(lines@, i),
        _ => words.len() == 0,
    }
}

/// Whether who last touched each line of the selected file is to be shown. An
/// untracked file is in no commit, so there is nothing to blame.
pub open spec fn blamable(app: App) -> bool {
    app.view.show_blame && app.spot() is Some && !(app.stray_here().status is Untracked)
}

/// Whether an app is another one that waits for who last touched each line of
/// the selected file. While the column is off nothing is asked.
pub open spec fn blame_asked(before: App, after: App) -> bool {
    if blamable(before) {
        after == (App { pending: Pending { blame: true, ..before.pending }, ..before })
    } else {
        &&& after.data.blame@.len() == 0
        &&& after == (App {
            data: Data { blame: after.data.blame, ..before.data },
            pending: Pending { blame: false, ..before.pending },
            ..before
        })
    }
}

/// Whether an app is another one that shows the diff git answered with, or says
/// why there is none.
pub open spec fn diff_shown(before: App, answer: Result<Diff, GitError>, after: App) -> bool {
    if before.spot() is None {
        cleared(before, after)
    } else {
        match answer {
            Ok(diff) => {
                &&& words_are(diff, after.data.words@)
                &&& blame_asked(
                    App {
                        data: Data { diff, words: after.data.words, ..before.data },
                        pending: Pending { diff: false, ..before.pending },
                        ..before
                    },
                    after,
                )
            },
            Err(e) => {
                &&& says(after.view.notice, e.text(), true)
                &&& cleared(
                    App { view: View { notice: after.view.notice, ..before.view }, ..before },
                    after,
                )
            },
        }
    }
}

/// Whether a row shows the stray at `path` in the project rooted at `root`.
pub open spec fn row_is(
    projects: Seq<ProjectStrays>,
    row: Row,
    root: Seq<char>,
    path: Seq<char>,
) -> bool {
    match row {
        Row::File { project, stray, .. } => project < projects.len() && same_path(
            projects[project as int].project.root@,
            root,
        ) && stray < projects[project as int].strays@.len() && same_path(
            projects[project as int].strays@[stray as int].path@,
            path,
        ),
        _ => false,
    }
}

/// The first row from the `i`-th on that shows the stray at `path` in the
/// project rooted at `root`.
pub open spec fn row_showing(
    projects: Seq<ProjectStrays>,
    rows: Seq<Row>,
    root: Seq<char>,
    path: Seq<char>,
    i: int,
) -> Option<usize>
    decreases rows.len() - i,
{
    if i < 0 || i >= rows.len() {
        None
    } else if row_is(projects, rows[i], root, path) {
        Some(i as usize)
    } else {
        row_showing(projects, rows, root, path, i + 1)
    }
}

/// Whether an app is another one with its list replaced by the projects open in
/// the other scope, none of them read yet.
pub open spec fn rescoped(
    before: App,
    current: Option<Seq<char>>,
    discovered: Seq<Project>,
    after: App,
) -> bool {
    &&& match (before.view.scope, current) {
        (Scope::AllWorkspaces, Some(id)) => {
            &&& after.view.scope matches Scope::CurrentWorkspace(now)
            &&& now@ == id
            &&& says(after.view.notice, "this workspace only"@, false)
        },
        _ => after.view.scope is AllWorkspaces && says(
            after.view.notice,
            "all workspaces"@,
            false,
        ),
    }
    &&& are_placeholders(after.data.projects@, discovered)
    &&& forall|key: (int, Seq<Part>)| #[trigger]
        after.view.collapsed@.contains(key) <==> oversized(
            after.data.projects@,
            before.data.thresholds.auto_fold as int,
            key,
        )
    &&& after.view.rows@ == rows_of(after.data.projects@, after.view.collapsed@, Seq::empty())
    &&& after.input.filter.at_rest()
    &&& after.input.search.at_rest()
    &&& diff_and_notes_asked(
        App {
            data: Data { projects: after.data.projects, scanning: true, ..before.data },
            view: View {
                rows: after.view.rows,
                collapsed: after.view.collapsed,
                scope: after.view.scope,
                selected: 0,
                diff_scroll: 0,
                diff_cursor: 0,
                notice: after.view.notice,
                ..before.view
            },
            input: Input {
                annotating: None,
                search: after.input.search,
                filter: after.input.filter,
                ..before.input
            },
            ..before
        },
        after,
    )
}

impl App {
    pub fn select_next(self) -> (r: Self)
        ensures
            self.view.rows@.len() == 0 ==> r == self,
            self.view.rows@.len() > 0 ==> moved(
                self,
                if self.view.selected < self.view.rows@.len() - 1 {
                    (self.view.selected + 1) as usize
                } else {
                    (self.view.rows@.len() - 1) as usize
                },
                r,
            ),
    {
        if self.view.rows.len() == 0 {
            return self;
        }
        let last = self.view.rows.len() - 1;
        let selected = if self.view.selected < last {
            self.view.selected + 1
        } else {
            last
        };
        self.select(selected)
    }

    pub fn select_previous(self) -> (r: Self)
        ensures
            moved(
                self,
                if self.view.selected > 0 {
                    (self.view.selected - 1) as usize
                } else {
                    0
                },
                r,
            ),
    {
        let selected = self.view.selected.saturating_sub(1);
        self.select(selected)
    }

    /// Fold or unfold the project or directory under the cursor. A file row has
    /// nothing to fold.
    ///
    /// Rebuilding can shorten the list, so the cursor is clamped afterwards.
    pub fn toggle_collapsed(self) -> (r: Self)
        ensures
            fold_toggled(self, r),
    {
        let node = match self.selected_row() {
            Some(row) => match node_of(&self.data.projects, row) {
                Some(node) => node,
                None => {
                    return self;
                },
            },
            None => {
                return self;
            },
        };
        let collapsed = self.view.collapsed.toggled(node);
        let app = App { view: View { collapsed, ..self.view }, ..self }.rebuilt();
        app.clamped().ask_diff()
    }

    /// Bring the cursor inside the current row list.
    pub(crate) fn clamped(self) -> (r: Self)
        ensures
            r == (App {
                view: View {
                    selected: clamp(self.view.selected, self.view.rows@.len()),
                    ..self.view
                },
                ..self
            }),
    {
        let selected = clamped_to(self.view.selected, self.view.rows.len());
        App { view: View { selected, ..self.view }, ..self }
    }

    /// Drop any pending status-line message.
    pub fn without_notice(self) -> (r: Self)
        ensures
            r == (App { view: View { notice: None, ..self.view }, ..self }),
    {
        App { view: View { notice: None, ..self.view }, ..self }
    }

    pub fn with_notice(self, notice: Notice) -> (r: Self)
        ensures
            r == (App { view: View { notice: Some(notice), ..self.view }, ..self }),
    {
        App { view: View { notice: Some(notice), ..self.view }, ..self }
    }

    /// Say why something cannot be done.
    pub(crate) fn refused(self, text: &str) -> (r: Self)
        ensures
            noticed(self, r, text@, true),
    {
        self.with_notice(Notice::error(text.to_owned()))
    }

    /// Say what was done.
    pub(crate) fn told(self, text: &str) -> (r: Self)
        ensures
            noticed(self, r, text@, false),
    {
        self.with_notice(Notice::info(text.to_owned()))
    }

    pub fn quit(self) -> (r: Self)
        ensures
            r == (App { should_quit: true, ..self }),
    {
        App { should_quit: true, ..self }
    }

    /// Show or hide the blame column.
    ///
    /// Asking happens here rather than at every draw: blame walks history per
    /// line and is the most expensive query there is, so it is read once when
    /// the column is turned on and again only when the diff changes underneath
    /// it.
    pub fn toggle_blame(self) -> (r: Self)
        ensures
            blame_asked(
                App { view: View { show_blame: !self.view.show_blame, ..self.view }, ..self },
                r,
            ),
    {
        App { view: View { show_blame: !self.view.show_blame, ..self.view }, ..self }.ask_blame()
    }

    /// Wait for who last touched each line of the selected file.
    ///
    /// Nothing to do when the column is off — which is what keeps the cost off
    /// every selection move for the readers who never turn it on.
    fn ask_blame(self) -> (r: Self)
        ensures
            blame_asked(self, r),
    {
        if self.is_blamable() {
            App { pending: Pending { blame: true, ..self.pending }, ..self }
        } else {
            App {
                data: Data { blame: Vec::new(), ..self.data },
                pending: Pending { blame: false, ..self.pending },
                ..self
            }
        }
    }

    fn is_blamable(&self) -> (r: bool)
        ensures
            r == blamable(*self),
    {
        if !self.view.show_blame {
            return false;
        }
        match self.selected_stray() {
            Some((_, stray)) => match stray.status {
                StrayStatus::Untracked => false,
                _ => true,
            },
            None => false,
        }
    }

    /// Take in who last touched each line of the selected file, as git
    /// answered. What is no longer shown is dropped.
    pub fn with_blame_loaded(self, answer: &Result<Vec<u8>, GitError>) -> (r: Self)
        ensures
            r == (App {
                data: Data { blame: r.data.blame, ..self.data },
                pending: Pending { blame: false, ..self.pending },
                ..self
            }),
            match (blamable(self), *answer) {
                (true, Ok(buf)) => crate::git::blame::blame_view(r.data.blame@)
                    == crate::git::blame::blame_in(crate::bytes::lossy_text(buf@)),
                _ => r.data.blame@.len() == 0,
            },
    {
        let blame = if self.is_blamable() {
            crate::git::blame::blame(answer)
        } else {
            Vec::new()
        };
        App {
            data: Data { blame, ..self.data },
            pending: Pending { blame: false, ..self.pending },
            ..self
        }
    }

    /// Take in the diff of the current selection, turning failure into a notice
    /// instead of tearing the app down.
    ///
    /// The words are compared here, with the one place the diff itself is taken
    /// in, so the two can never be out of step: words indexed against a
    /// previous diff would shift every highlight.
    pub fn with_diff_loaded(self, answer: Result<Diff, GitError>) -> (r: Self)
        ensures
            diff_shown(self, answer, r),
    {
        if self.selected_stray().is_none() {
            return self.without_diff();
        }
        match answer {
            Ok(diff) => {
                let words = match &diff {
                    Diff::Text(lines) => compute(lines),
                    _ => Vec::new(),
                };
                App {
                    data: Data { diff, words, ..self.data },
                    pending: Pending { diff: false, ..self.pending },
                    ..self
                }.ask_blame()
            },
            Err(e) => {
                let notice = Some(Notice::error(e.message()));
                App { view: View { notice, ..self.view }, ..self }.without_diff()
            },
        }
    }

    /// Split the diff into old beside new, or fold it back into one column.
    pub fn toggle_split_diff(self) -> (r: Self)
        ensures
            r == (App {
                view: View { split_diff: !self.view.split_diff, ..self.view },
                ..self
            }),
    {
        App { view: View { split_diff: !self.view.split_diff, ..self.view }, ..self }
    }

    /// Show or hide the key reference.
    ///
    /// Closing it winds the reference back to the top, so it opens where the
    /// reader expects rather than part-way down from the last time they read it.
    pub fn toggle_help(self) -> (r: Self)
        ensures
            r == (App {
                view: View { show_help: !self.view.show_help, help_scroll: 0, ..self.view },
                ..self
            }),
    {
        App { view: View { show_help: !self.view.show_help, help_scroll: 0, ..self.view }, ..self }
    }

    /// Show every tracked file, or only the ones that strayed.
    ///
    /// Asks for a rescan rather than reading the projects here: git does not
    /// run on the drawing thread, and listing every tracked file is the more
    /// expensive of the two views.
    pub fn toggle_show_all(self) -> (r: Self)
        ensures
            says(
                r.view.notice,
                if self.view.show_all {
                    "showing strays only"@
                } else {
                    "showing all tracked files"@
                },
                false,
            ),
            r == (App {
                data: Data { scanning: true, ..self.data },
                view: View {
                    show_all: !self.view.show_all,
                    diff_scroll: 0,
                    diff_cursor: 0,
                    notice: r.view.notice,
                    ..self.view
                },
                input: Input { annotating: None, ..self.input },
                ..self
            }),
    {
        let show_all = !self.view.show_all;
        let notice = if show_all {
            Notice::info("showing all tracked files".to_owned())
        } else {
            Notice::info("showing strays only".to_owned())
        };
        App {
            data: Data { scanning: true, ..self.data },
            view: View {
                show_all,
                diff_scroll: 0,
                diff_cursor: 0,
                notice: Some(notice),
                ..self.view
            },
            input: Input { annotating: None, ..self.input },
            ..self
        }
    }

    /// The scope that [`Self::toggle_scope`] would change to, so that the
    /// projects open in it can be asked for.
    pub fn next_scope(&self, current_workspace: Option<&str>) -> (r: Scope)
        ensures
            match (self.view.scope, current_workspace) {
                (Scope::AllWorkspaces, Some(id)) => r matches Scope::CurrentWorkspace(now) && now@
                    == id@,
                _ => r is AllWorkspaces,
            },
    {
        self.view.scope.toggled(current_workspace)
    }

    /// Widen to every workspace, or narrow back to the current one, given the
    /// projects that are open in the scope changed to.
    ///
    /// Nothing to show would be a worse outcome than a wider list, so a
    /// narrowing that empties the view is reported and undone.
    ///
    /// Widening or narrowing changes which repositories are listed, so a query
    /// aimed at the old set would be meaningless against the new one.
    pub fn toggle_scope(self, current_workspace: Option<&str>, discovered: Vec<Project>) -> (r: Self)
        ensures
            discovered@.len() == 0 && self.view.scope is AllWorkspaces && current_workspace is Some
                ==> noticed(
                self,
                r,
                "no git project in this workspace — staying on all workspaces"@,
                true,
            ),
            discovered@.len() > 0 || self.view.scope is CurrentWorkspace || current_workspace
                is None ==> rescoped(
                self,
                match current_workspace {
                    Some(id) => Some(id@),
                    None => None,
                },
                discovered@,
                r,
            ),
    {
        let scope = self.next_scope(current_workspace);
        if discovered.len() == 0 && !scope.is_all() {
            return self.refused("no git project in this workspace — staying on all workspaces");
        }
        let notice = if scope.is_all() {
            Notice::info("all workspaces".to_owned())
        } else {
            Notice::info("this workspace only".to_owned())
        };
        let projects = placeholders(discovered);
        let collapsed = auto_folded(&projects, self.data.thresholds.auto_fold);
        let app = App {
            data: Data { projects, scanning: true, ..self.data },
            view: View {
                collapsed,
                scope,
                selected: 0,
                diff_scroll: 0,
                diff_cursor: 0,
                notice: Some(notice),
                ..self.view
            },
            input: Input {
                annotating: None,
                search: Search::default(),
                filter: Filter::default(),
                ..self.input
            },
            ..self
        }.rebuilt();
        assert(app.input.filter.query@ =~= Seq::<char>::empty());
        app.ask_diff_and_notes()
    }

    /// Every worktree root currently listed, for the filesystem watch.
    pub fn roots(&self) -> (r: Vec<String>)
        ensures
            r@ == self.data.projects@.map_values(|p: ProjectStrays| p.project.root),
    {
        let ghost all = self.data.projects@.map_values(|p: ProjectStrays| p.project.root);
        let mut out: Vec<String> = Vec::new();
        for i in 0..self.data.projects.len()
            invariant
                all == self.data.projects@.map_values(|p: ProjectStrays| p.project.root),
                out@ =~= all.take(i as int),
        {
            out.push(self.data.projects[i].project.root.clone());
        }
        assert(all.take(all.len() as int) =~= all);
        out
    }

    /// Find the row index showing `path` inside the project rooted at `root`.
    pub(crate) fn row_of(&self, root: &str, path: &str) -> (r: Option<usize>)
        ensures
            r == row_showing(self.data.projects@, self.view.rows@, root@, path@, 0),
            r matches Some(i) ==> i < self.view.rows@.len(),
    {
        for i in 0..self.view.rows.len()
            invariant
                row_showing(self.data.projects@, self.view.rows@, root@, path@, 0) == row_showing(
                    self.data.projects@,
                    self.view.rows@,
                    root@,
                    path@,
                    i as int,
                ),
        {
            match self.view.rows[i] {
                Row::File { project, stray, .. } => {
                    if project < self.data.projects.len() {
                        let entry = &self.data.projects[project];
                        if same_as(entry.project.root.as_str(), root) && stray < entry.strays.len()
                            && same_as(entry.strays[stray].path.as_str(), path) {
                            return Some(i);
                        }
                    }
                },
                _ => {},
            }
        }
        None
    }

    fn select(self, selected: usize) -> (r: Self)
        ensures
            moved(self, selected, r),
    {
        if selected == self.view.selected {
            return self;
        }
        App {
            view: View { selected, diff_scroll: 0, diff_cursor: 0, ..self.view },
            input: Input { annotating: None, ..self.input },
            ..self
        }.ask_diff_and_notes()
    }
}

} // verus!
