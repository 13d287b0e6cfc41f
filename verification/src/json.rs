//! The machine-readable view of what the viewer knows.
//!
//! # Why these types exist beside the real ones
//!
//! [`ProjectStrays`], [`Stray`] and [`Base`] are shaped for the pane that draws
//! them, and they change when the drawing changes. Writing them down as they are
//! would make the field names of an internal struct the promise made to every
//! script parsing this output, so renaming one to read better in the UI would
//! silently break somebody's pipeline.
//!
//! The types here are that promise, written down separately, and
//! [`Report::document`] says under which keys each field stands.

use vstd::prelude::*;
use vstd::string::*;

use crate::annotate::{kind_word, Annotation, Annotations};
use crate::document::{
    add_member, doc, docs, member_docs, number_value, optional_doc, optional_value, reads_as,
    text_value, writable, write_document, written, Doc, Json, MAX_LEVELS,
};
use crate::forge::{Ci, ForgeStatus, PrComment, Tests};
use crate::git::base::Base;
use crate::model::{Stray, StrayStatus};
use crate::paths::{components, parts, slash_join, slashed};
use crate::text::{same, text_view, texts};
use crate::tree::ProjectStrays;

pub use crate::forge::ForgeAnswers;

pub mod telling;

verus! {

/// What the reader asked `--json` for.
///
/// The switches are additive: `--annotations` and `--agents` each turn on a
/// section that is otherwise absent, rather than replacing the report.
#[derive(Debug, Clone, Copy, PartialEq, Eq, Structural)]
pub struct Options {
    /// Include the notes recorded against each project.
    pub annotations: bool,
    /// Include what herdr's agents are doing.
    pub agents: bool,
    /// Include what the hosting forge says about each project.
    ///
    /// The one switch here that reaches the network, which is why it is off by
    /// default like the rest rather than following the viewer's `[forge]`
    /// config: a script that did not ask for it should not wait on `gh`.
    pub forge: bool,
}

impl Default for Options {
    fn default() -> (r: Self)
        ensures
            r == (Options { annotations: false, agents: false, forge: false }),
    {
        Options { annotations: false, agents: false, forge: false }
    }
}

/// Whether an argument is one that is known.
pub open spec fn known_argument(arg: Seq<char>) -> bool {
    arg == "--json"@ || arg == "--annotations"@ || arg == "--agents"@ || arg == "--forge"@
}

/// The first argument from the `i`-th on that is not known.
pub open spec fn stranger(args: Seq<Seq<char>>, i: int) -> Option<Seq<char>>
    decreases args.len() - i,
{
    if i < 0 || i >= args.len() {
        None
    } else if known_argument(args[i]) {
        stranger(args, i + 1)
    } else {
        Some(args[i])
    }
}

/// What the arguments ask for.
pub open spec fn asked_for(args: Seq<Seq<char>>) -> Result<Option<Options>, Seq<char>> {
    let options = Options {
        annotations: args.contains("--annotations"@),
        agents: args.contains("--agents"@),
        forge: args.contains("--forge"@),
    };
    match stranger(args, 0) {
        Some(arg) => Err("unknown argument: "@ + arg),
        None => if args.contains("--json"@) {
            Ok(Some(options))
        } else if options.annotations || options.agents || options.forge {
            Err("--annotations, --agents and --forge need --json"@)
        } else {
            Ok(None)
        },
    }
}

proof fn lemma_contains_push(args: Seq<Seq<char>>, i: int, w: Seq<char>)
    requires
        0 <= i < args.len(),
    ensures
        args.take(i + 1).contains(w) <==> args.take(i).contains(w) || args[i] == w,
{
    let before = args.take(i);
    let after = args.take(i + 1);
    if before.contains(w) {
        let k = before.index_of(w);
        assert(after[k] == w);
    }
    if args[i] == w {
        assert(after[i] == w);
    }
    if after.contains(w) && args[i] != w {
        let k = after.index_of(w);
        assert(before[k] == w);
    }
}

impl Options {
    /// Read the switches out of an argument list.
    ///
    /// Returns `None` when `--json` is absent — the caller then starts the TUI,
    /// which is what running the binary with no arguments has always done.
    ///
    /// An unknown argument is an error rather than being ignored: a typo like
    /// `--annotation` would otherwise print a report quietly missing the very
    /// section it was asked for, and a script would have no way to notice.
    ///
    /// The section switches only mean something alongside `--json`. On their own
    /// they are a mistake worth naming, not a silent TUI start.
    pub fn parse(args: &Vec<String>) -> (r: Result<Option<Self>, String>)
        ensures
            match (r, asked_for(texts(args@))) {
                (Ok(options), Ok(asked)) => options == asked,
                (Err(e), Err(said)) => e@ == said,
                _ => false,
            },
    {
        let ghost all = texts(args@);
        let mut wanted = false;
        let mut options = Options { annotations: false, agents: false, forge: false };
        for i in 0..args.len()
            invariant
                all == texts(args@),
                stranger(all, 0) == stranger(all, i as int),
                wanted == all.take(i as int).contains("--json"@),
                options.annotations == all.take(i as int).contains("--annotations"@),
                options.agents == all.take(i as int).contains("--agents"@),
                options.forge == all.take(i as int).contains("--forge"@),
        {
            proof {
                lemma_contains_push(all, i as int, "--json"@);
                lemma_contains_push(all, i as int, "--annotations"@);
                lemma_contains_push(all, i as int, "--agents"@);
                lemma_contains_push(all, i as int, "--forge"@);
                lemma_switches();
            }
            let arg = args[i].as_str();
            assert(all[i as int] == arg@);
            if same(arg, "--json") {
                wanted = true;
            } else if same(arg, "--annotations") {
                options.annotations = true;
            } else if same(arg, "--agents") {
                options.agents = true;
            } else if same(arg, "--forge") {
                options.forge = true;
            } else {
                return Err("unknown argument: ".to_owned().concat(arg));
            }
        }
        assert(all.take(all.len() as int) =~= all);
        if !wanted {
            if options.annotations || options.agents || options.forge {
                return Err("--annotations, --agents and --forge need --json".to_owned());
            }
            return Ok(None);
        }
        Ok(Some(options))
    }
}

/// The switches are four different words.
proof fn lemma_switches()
    ensures
        "--json"@ != "--annotations"@,
        "--json"@ != "--agents"@,
        "--json"@ != "--forge"@,
        "--annotations"@ != "--agents"@,
        "--annotations"@ != "--forge"@,
        "--agents"@ != "--forge"@,
{
    reveal_strlit("--json");
    reveal_strlit("--annotations");
    reveal_strlit("--agents");
    reveal_strlit("--forge");
    assert("--json"@.len() == 6);
    assert("--forge"@.len() == 7);
    assert("--agents"@.len() == 8);
    assert("--annotations"@.len() == 13);
}

/// One `--json` run.
#[derive(Debug)]
pub struct Report {
    /// The shape of this document, so a consumer can refuse one it cannot read.
    ///
    /// Bumped only when an existing field changes meaning or disappears. Adding
    /// a section leaves it alone: a parser that ignores unknown keys is
    /// unaffected, and one that does not was already going to break.
    pub version: u32,
    /// What the strays were read against — `"HEAD"` unless asked otherwise.
    pub base: String,
    /// Whether every tracked file is listed, or only the ones that strayed.
    pub show_all: bool,
    pub projects: Vec<ProjectReport>,
}

/// One repository, as git last answered.
#[derive(Debug)]
pub struct ProjectReport {
    pub name: String,
    pub root: String,
    /// The branch, or a short commit when detached. `null` when it could not be
    /// read.
    pub branch: Option<String>,
    /// How far the branch is from what it tracks, when it tracks anything.
    pub upstream: Option<UpstreamReport>,
    pub strays: Vec<StrayReport>,
    /// Why this repository could not be read. `null` when it was read fine —
    /// present either way, so "clean" is never confused with "never looked at".
    pub error: Option<String>,
    /// Present only under `--agents`.
    pub agent: Option<AgentReport>,
    /// Present only under `--annotations`.
    pub annotations: Option<Vec<AnnotationReport>>,
    /// Present only under `--forge`, and `null` inside it for a repository the
    /// forge said nothing about.
    ///
    /// Two layers of `Option` for two different facts: the outer one is "was
    /// this asked for", the inner one "was there an answer". Collapsing them
    /// would make an unanswered question look like an unasked one.
    pub forge: Option<Option<ForgeReport>>,
}

#[derive(Debug, Clone, Copy, PartialEq, Eq, Structural)]
pub struct UpstreamReport {
    pub ahead: usize,
    pub behind: usize,
}

/// One file that strayed.
#[derive(Debug)]
pub struct StrayReport {
    /// Relative to the repository root, so it means the same thing on any
    /// machine. Printed with `/` separators on every platform.
    pub path: String,
    /// One of `modified`, `added`, `deleted`, `untracked`, `renamed`,
    /// `unchanged`, `submodule`, `conflicted`.
    pub status: &'static str,
    /// Where a rename came from. Absent for every other status.
    pub renamed_from: Option<String>,
    /// Whether this actually differs from the base.
    ///
    /// Spelled out rather than left to be derived from `status`, because the
    /// only status it is false for is `unchanged`, and a consumer would have to
    /// know that to filter the `--json` equivalent of the default view.
    pub changed: bool,
    pub agent_note: Option<String>,
}

/// What the forge said about one repository.
///
/// Every field the panel draws from, and nothing it does not: a consumer that
/// wants to know why a branch is red should not have to ask `gh` a second time
/// to find out what this already read.
#[derive(Debug)]
pub struct ForgeReport {
    /// `passed`, `failed`, `running`, `neutral` or `unknown`. `neutral` is a
    /// run that ended without passing or failing — cancelled, skipped, timed
    /// out — and says nothing about the code.
    pub ci: &'static str,
    /// What the last run said about the tests specifically: `passed`, `failed`
    /// or `unknown`. `unknown` means the steps could not be classified, which
    /// is not the same as passing.
    pub tests: &'static str,
    /// How many pull requests are open. `null` when unanswerable — a different
    /// thing from `0`.
    pub open_prs: Option<usize>,
    /// The review on the checked-out branch's own pull request. `null` when the
    /// branch has no pull request, which is the ordinary case.
    pub review: Option<ReviewReport>,
    /// What commenters wrote against individual lines. An empty list when
    /// nobody wrote anything, matching the panel, which draws nothing either
    /// way.
    pub comments: Vec<PrCommentReport>,
}

#[derive(Debug, Clone, Copy, PartialEq, Eq, Structural)]
pub struct ReviewReport {
    pub comments: usize,
    /// Whether a commenter asked for changes and has not since approved. This
    /// blocks the merge; the count beside it does not.
    pub changes_requested: bool,
}

/// One remark a commenter left on one line.
#[derive(Debug)]
pub struct PrCommentReport {
    /// Relative to the repository root, `/`-separated, like every other path
    /// here.
    pub file: String,
    pub line: u32,
    pub author: String,
    pub body: String,
}

#[derive(Debug)]
pub struct AgentReport {
    /// `working`, `idle`, or whatever herdr called it if this version does not
    /// model it.
    pub status: String,
}

/// One note recorded against a line.
#[derive(Debug)]
pub struct AnnotationReport {
    pub file: String,
    /// The line as it was when the note was written. Whether it is still there
    /// is a question for the viewer, which re-anchors by content; this reports
    /// what was recorded.
    pub line: u32,
    /// `issue`, `suggestion`, `question` or `note`.
    pub kind: &'static str,
    pub text: String,
}

/// The word for a status in the output.
pub open spec fn word_for_status(status: StrayStatus) -> Seq<char> {
    match status {
        StrayStatus::Modified => "modified"@,
        StrayStatus::Added => "added"@,
        StrayStatus::Deleted => "deleted"@,
        StrayStatus::Untracked => "untracked"@,
        StrayStatus::Renamed { .. } => "renamed"@,
        StrayStatus::Unchanged => "unchanged"@,
        StrayStatus::Submodule => "submodule"@,
        StrayStatus::Conflicted => "conflicted"@,
    }
}

/// The word for a status in the output.
///
/// Written out rather than reusing [`StrayStatus::glyph`]: the glyph is a
/// display detail that may change to suit a terminal, while these strings are
/// promised to whoever parses this.
pub fn status_word(status: &StrayStatus) -> (r: &'static str)
    ensures
        r@ == word_for_status(*status),
{
    match status {
        StrayStatus::Modified => "modified",
        StrayStatus::Added => "added",
        StrayStatus::Deleted => "deleted",
        StrayStatus::Untracked => "untracked",
        StrayStatus::Renamed { .. } => "renamed",
        StrayStatus::Unchanged => "unchanged",
        StrayStatus::Submodule => "submodule",
        StrayStatus::Conflicted => "conflicted",
    }
}

/// The word for a CI status in the output.
pub open spec fn word_for_ci(ci: Ci) -> Seq<char> {
    match ci {
        Ci::Unknown => "unknown"@,
        Ci::Running => "running"@,
        Ci::Passed => "passed"@,
        Ci::Failed => "failed"@,
        Ci::Neutral => "neutral"@,
    }
}

/// The word for a CI status in the output.
///
/// Spelled out here rather than reusing the panel's marker, for the same reason
/// as [`status_word`]: the glyph is a display detail, these strings are a
/// promise. `neutral` keeps the model's own name — a cancelled run says nothing
/// about the code, and calling it `failed` would send a consumer after a bug CI
/// never claimed to have found.
pub fn ci_word(ci: &Ci) -> (r: &'static str)
    ensures
        r@ == word_for_ci(*ci),
{
    match ci {
        Ci::Unknown => "unknown",
        Ci::Running => "running",
        Ci::Passed => "passed",
        Ci::Failed => "failed",
        Ci::Neutral => "neutral",
    }
}

/// The word for a test result in the output.
pub open spec fn word_for_tests(tests: Tests) -> Seq<char> {
    match tests {
        Tests::Unknown => "unknown"@,
        Tests::Passed => "passed"@,
        Tests::Failed => "failed"@,
    }
}

/// The word for a test result in the output.
///
/// `unknown` is reported rather than omitted: the panel draws nothing for it,
/// but a consumer needs to tell "the tests passed" from "which step failed
/// could not be worked out", and both are silent on screen.
pub fn tests_word(tests: Tests) -> (r: &'static str)
    ensures
        r@ == word_for_tests(tests),
{
    match tests {
        Tests::Unknown => "unknown",
        Tests::Passed => "passed",
        Tests::Failed => "failed",
    }
}

/// A path as text, with `/` separators whatever the platform.
///
/// A Windows consumer reading `src\main.rs` would have to know which platform
/// wrote the document to split it. Repository paths are `/`-separated in git
/// itself, so this reports them the way git does.
pub fn path_text(path: &str) -> (r: String)
    ensures
        r@ == slashed(parts(path@)),
{
    let cs = components(path);
    assert(parts(path@).skip(0) =~= parts(path@));
    slash_join(&cs, 0)
}

/// Whether a report is of a stray.
pub open spec fn reports_stray(r: StrayReport, stray: Stray) -> bool {
    &&& r.path@ == slashed(parts(stray.path@))
    &&& r.status@ == word_for_status(stray.status)
    &&& text_view(r.renamed_from) == (match stray.status {
        StrayStatus::Renamed { from } => Some(slashed(parts(from@))),
        _ => None,
    })
    &&& r.changed == !(stray.status is Unchanged)
    &&& r.agent_note is None
}

/// Whether a report is of a commenter's remark.
pub open spec fn reports_comment(r: PrCommentReport, comment: PrComment) -> bool {
    &&& r.file@ == slashed(parts(comment.file@))
    &&& r.line == comment.line
    &&& r.author@ == comment.author@
    &&& r.body@ == comment.body@
}

/// Whether a report is of what the forge said.
pub open spec fn reports_forge(r: ForgeReport, status: ForgeStatus) -> bool {
    &&& r.ci@ == word_for_ci(status.ci)
    &&& r.tests@ == word_for_tests(status.tests)
    &&& r.open_prs == status.open_prs
    &&& r.review == (match status.review {
        Some(review) => Some(
            ReviewReport {
                comments: review.comments,
                changes_requested: review.changes_requested,
            },
        ),
        None => None,
    })
    &&& r.comments@.len() == status.comments@.len()
    &&& forall|i: int|
        0 <= i < r.comments@.len() ==> reports_comment(
            #[trigger] r.comments@[i],
            status.comments@[i],
        )
}

/// Whether a report is of a note.
pub open spec fn reports_note(r: AnnotationReport, note: Annotation) -> bool {
    &&& r.file@ == slashed(parts(note.anchor.file@))
    &&& r.line == note.anchor.line
    &&& r.kind@ == kind_word(note.kind)
    &&& r.text@ == note.text@
}

impl PrCommentReport {
    fn of(comment: &PrComment) -> (r: Self)
        ensures
            reports_comment(r, *comment),
    {
        PrCommentReport {
            file: path_text(comment.file.as_str()),
            line: comment.line,
            author: comment.author.clone(),
            body: comment.body.clone(),
        }
    }
}

impl ForgeReport {
    fn of(status: &ForgeStatus) -> (r: Self)
        ensures
            reports_forge(r, *status),
    {
        ForgeReport {
            ci: ci_word(&status.ci),
            tests: tests_word(status.tests),
            open_prs: status.open_prs,
            review: match status.review {
                Some(review) => Some(
                    ReviewReport {
                        comments: review.comments,
                        changes_requested: review.changes_requested,
                    },
                ),
                None => None,
            },
            comments: report_comments(&status.comments),
        }
    }
}

fn report_comments(comments: &Vec<PrComment>) -> (r: Vec<PrCommentReport>)
    ensures
        r@.len() == comments@.len(),
        forall|i: int| 0 <= i < r@.len() ==> reports_comment(#[trigger] r@[i], comments@[i]),
{
    let mut out: Vec<PrCommentReport> = Vec::new();
    for i in 0..comments.len()
        invariant
            out@.len() == i,
            forall|j: int| 0 <= j < i ==> reports_comment(#[trigger] out@[j], comments@[j]),
    {
        out.push(PrCommentReport::of(&comments[i]));
    }
    out
}

impl StrayReport {
    fn of(stray: &Stray) -> (r: Self)
        ensures
            reports_stray(r, *stray),
    {
        StrayReport {
            path: path_text(stray.path.as_str()),
            status: status_word(&stray.status),
            renamed_from: match &stray.status {
                StrayStatus::Renamed { from } => Some(path_text(from.as_str())),
                _ => None,
            },
            changed: stray.status.is_changed(),
            agent_note: None,
        }
    }
}

fn report_strays(strays: &Vec<Stray>) -> (r: Vec<StrayReport>)
    ensures
        r@.len() == strays@.len(),
        forall|i: int| 0 <= i < r@.len() ==> reports_stray(#[trigger] r@[i], strays@[i]),
{
    let mut out: Vec<StrayReport> = Vec::new();
    for i in 0..strays.len()
        invariant
            out@.len() == i,
            forall|j: int| 0 <= j < i ==> reports_stray(#[trigger] out@[j], strays@[j]),
    {
        out.push(StrayReport::of(&strays[i]));
    }
    out
}

impl AnnotationReport {
    fn of(note: &Annotation) -> (r: Self)
        ensures
            reports_note(r, *note),
    {
        AnnotationReport {
            file: path_text(note.anchor.file.as_str()),
            line: note.anchor.line,
            kind: note.kind.label(),
            text: note.text.clone(),
        }
    }
}

fn report_notes(notes: &Vec<Annotation>) -> (r: Vec<AnnotationReport>)
    ensures
        r@.len() == notes@.len(),
        forall|i: int| 0 <= i < r@.len() ==> reports_note(#[trigger] r@[i], notes@[i]),
{
    let mut out: Vec<AnnotationReport> = Vec::new();
    for i in 0..notes.len()
        invariant
            out@.len() == i,
            forall|j: int| 0 <= j < i ==> reports_note(#[trigger] out@[j], notes@[j]),
    {
        out.push(AnnotationReport::of(&notes[i]));
    }
    out
}

/// Whether a section is of the notes of a project: there only where it was asked
/// for, and a list that holds every note where there are any.
pub open spec fn reports_notes(
    r: Option<Vec<AnnotationReport>>,
    asked: bool,
    notes: Seq<Annotation>,
) -> bool {
    match r {
        None => !asked,
        Some(list) => asked && list@.len() == notes.len() && forall|i: int|
            0 <= i < list@.len() ==> reports_note(#[trigger] list@[i], notes[i]),
    }
}

/// Whether a report is of a project, with the sections that were asked for.
pub open spec fn reports_project(
    r: ProjectReport,
    scanned: ProjectStrays,
    notes: Seq<Annotation>,
    options: Options,
    forge: ForgeAnswers,
) -> bool {
    &&& r.name@ == scanned.project.name@
    &&& r.root@ == scanned.project.root@
    &&& text_view(r.branch) == text_view(scanned.branch)
    &&& r.upstream == (match scanned.upstream {
        Some(u) => Some(UpstreamReport { ahead: u.ahead, behind: u.behind }),
        None => None,
    })
    &&& r.strays@.len() == scanned.strays@.len()
    &&& forall|i: int|
        0 <= i < r.strays@.len() ==> reports_stray(#[trigger] r.strays@[i], scanned.strays@[i])
    &&& text_view(r.error) == text_view(scanned.error)
    &&& match (r.agent, scanned.agent) {
        (Some(agent), Some(status)) => options.agents && agent.status@ == status.word(),
        (None, Some(_)) => !options.agents,
        (None, None) => true,
        (Some(_), None) => false,
    }
    &&& reports_notes(r.annotations, options.annotations, notes)
    &&& match r.forge {
        None => !options.forge,
        Some(None) => options.forge && !forge@.contains_key(parts(scanned.project.root@)),
        Some(Some(said)) => options.forge && forge@.contains_key(parts(scanned.project.root@))
            && reports_forge(said, forge@[parts(scanned.project.root@)]),
    }
}

/// The notes of the `i`-th project, or none where none were read for it.
pub open spec fn notes_at(annotations: Seq<Annotations>, i: int) -> Seq<Annotation> {
    if 0 <= i < annotations.len() {
        annotations[i]@
    } else {
        Seq::empty()
    }
}

impl ProjectReport {
    fn of(
        scanned: &ProjectStrays,
        notes: Option<&Annotations>,
        options: Options,
        forge: &ForgeAnswers,
    ) -> (r: Self)
        ensures
            reports_project(
                r,
                *scanned,
                match notes {
                    Some(held) => held@,
                    None => Seq::empty(),
                },
                options,
                *forge,
            ),
    {
        ProjectReport {
            name: scanned.project.name.clone(),
            root: scanned.project.root.clone(),
            branch: scanned.branch.clone(),
            upstream: match scanned.upstream {
                Some(u) => Some(UpstreamReport { ahead: u.ahead, behind: u.behind }),
                None => None,
            },
            strays: report_strays(&scanned.strays),
            error: scanned.error.clone(),
            agent: match &scanned.agent {
                Some(status) => if options.agents {
                    Some(AgentReport { status: status.label().to_owned() })
                } else {
                    None
                },
                None => None,
            },
            annotations: if options.annotations {
                match notes {
                    Some(held) => Some(report_notes(held.iter())),
                    None => Some(Vec::new()),
                }
            } else {
                None
            },
            forge: if options.forge {
                match forge.get(scanned.project.root.as_str()) {
                    Some(status) => Some(Some(ForgeReport::of(status))),
                    None => Some(None),
                }
            } else {
                None
            },
        }
    }
}

impl Report {
    /// Build the report from projects already read.
    ///
    /// Under `--forge` the key is present for every project, `null` where
    /// nothing came back. Absent-when-unasked and null-when-unanswered are
    /// different facts, and a consumer that cannot tell them apart would read
    /// silence as health.
    pub fn of(
        projects: &Vec<ProjectStrays>,
        annotations: &Vec<Annotations>,
        base: &Base,
        show_all: bool,
        options: Options,
        forge: &ForgeAnswers,
    ) -> (r: Self)
        ensures
            r.version == 1,
            r.base@ == base.title(),
            r.show_all == show_all,
            r.projects@.len() == projects@.len(),
            forall|i: int|
                0 <= i < r.projects@.len() ==> reports_project(
                    #[trigger] r.projects@[i],
                    projects@[i],
                    notes_at(annotations@, i),
                    options,
                    *forge,
                ),
    {
        let mut out: Vec<ProjectReport> = Vec::new();
        for i in 0..projects.len()
            invariant
                out@.len() == i,
                forall|j: int|
                    0 <= j < i ==> reports_project(
                        #[trigger] out@[j],
                        projects@[j],
                        notes_at(annotations@, j),
                        options,
                        *forge,
                    ),
        {
            let notes = if i < annotations.len() {
                Some(&annotations[i])
            } else {
                None
            };
            out.push(ProjectReport::of(&projects[i], notes, options, forge));
        }
        Report { version: 1, base: base.label().to_owned(), show_all, projects: out }
    }
}

/// What a stray's report says in the document.
pub open spec fn stray_doc(r: StrayReport) -> Doc {
    let head = seq![("path"@, Doc::Text(r.path@)), ("status"@, Doc::Text(r.status@))];
    let renamed = match text_view(r.renamed_from) {
        Some(from) => head.push(("renamed_from"@, Doc::Text(from))),
        None => head,
    };
    let changed = renamed.push(("changed"@, Doc::Bool(r.changed)));
    Doc::Object(
        match text_view(r.agent_note) {
            Some(note) => changed.push(("agent_note"@, Doc::Text(note))),
            None => changed,
        },
    )
}

/// What a commenter's remark says in the document.
pub open spec fn comment_doc(r: PrCommentReport) -> Doc {
    Doc::Object(
        seq![
            ("file"@, Doc::Text(r.file@)),
            ("line"@, Doc::Number(Some(r.line as u64))),
            ("author"@, Doc::Text(r.author@)),
            ("body"@, Doc::Text(r.body@)),
        ],
    )
}

/// What a note says in the document.
pub open spec fn note_doc(r: AnnotationReport) -> Doc {
    Doc::Object(
        seq![
            ("file"@, Doc::Text(r.file@)),
            ("line"@, Doc::Number(Some(r.line as u64))),
            ("kind"@, Doc::Text(r.kind@)),
            ("text"@, Doc::Text(r.text@)),
        ],
    )
}

/// What the forge said, in the document.
pub open spec fn forge_doc(r: ForgeReport) -> Doc {
    Doc::Object(
        seq![
            ("ci"@, Doc::Text(r.ci@)),
            ("tests"@, Doc::Text(r.tests@)),
            ("open_prs"@, count_doc(r.open_prs)),
            ("review"@, maybe_review_doc(r.review)),
            ("comments"@, Doc::List(r.comments@.map_values(|c: PrCommentReport| comment_doc(c)))),
        ],
    )
}

/// What a project's report says in the document. What was not asked for is
/// absent; what was asked for and not answered is null.
pub open spec fn project_doc(r: ProjectReport) -> Doc {
    let head = seq![
        ("name"@, Doc::Text(r.name@)),
        ("root"@, Doc::Text(r.root@)),
        ("branch"@, optional_doc(text_view(r.branch))),
    ];
    let tracked_by = match r.upstream {
        Some(u) => head.push(("upstream"@, upstream_doc(u))),
        None => head,
    };
    let read = tracked_by.push(
        ("strays"@, Doc::List(r.strays@.map_values(|s: StrayReport| stray_doc(s)))),
    ).push(("error"@, optional_doc(text_view(r.error))));
    let worked = match r.agent {
        Some(agent) => read.push(("agent"@, agent_doc(agent))),
        None => read,
    };
    let noted = match r.annotations {
        Some(notes) => worked.push(
            (
                "annotations"@,
                Doc::List(notes@.map_values(|n: AnnotationReport| note_doc(n))),
            ),
        ),
        None => worked,
    };
    Doc::Object(
        match r.forge {
            Some(Some(said)) => noted.push(("forge"@, forge_doc(said))),
            Some(None) => noted.push(("forge"@, Doc::Null)),
            None => noted,
        },
    )
}

/// What a report says, as a document.
pub open spec fn report_doc(r: Report) -> Doc {
    Doc::Object(
        seq![
            ("version"@, Doc::Number(Some(r.version as u64))),
            ("base"@, Doc::Text(r.base@)),
            ("show_all"@, Doc::Bool(r.show_all)),
            ("projects"@, Doc::List(r.projects@.map_values(|p: ProjectReport| project_doc(p)))),
        ],
    )
}

/// A value that says the same however far down it is looked at, from `levels`
/// on.
pub open spec fn says_doc(j: Json, d: Doc, levels: nat) -> bool {
    forall|depth: nat| depth >= levels ==> #[trigger] doc(j, depth) == d
}

/// The members of an object say the same however far down they are looked at.
spec fn say_docs(members: Seq<(String, Json)>, ds: Seq<(Seq<char>, Doc)>, levels: nat) -> bool {
    forall|depth: nat| depth >= levels ==> #[trigger] member_docs(members, depth) == ds
}

/// Add a member to an object, and say what the members then are.
fn member(
    members: &mut Vec<(String, Json)>,
    key: &str,
    value: Json,
    Ghost(said): Ghost<Doc>,
    Ghost(ds): Ghost<Seq<(Seq<char>, Doc)>>,
    Ghost(levels): Ghost<nat>,
)
    requires
        say_docs(old(members)@, ds, levels),
        says_doc(value, said, levels),
    ensures
        say_docs(final(members)@, ds.push((key@, said)), levels),
{
    add_member(members, key, value);
    assert forall|depth: nat| depth >= levels implies #[trigger] member_docs(members@, depth)
        == ds.push((key@, said)) by {
        assert(member_docs(old(members)@, depth) == ds);
        assert(doc(value, depth) == said);
    }
}

/// An object without members.
fn no_members(Ghost(levels): Ghost<nat>) -> (r: Vec<(String, Json)>)
    ensures
        say_docs(r@, Seq::empty(), levels),
{
    let r: Vec<(String, Json)> = Vec::new();
    assert forall|depth: nat| depth >= levels implies #[trigger] member_docs(r@, depth)
        == Seq::<(Seq<char>, Doc)>::empty() by {
        assert(member_docs(r@, depth) =~= Seq::<(Seq<char>, Doc)>::empty());
    }
    r
}

/// The members as an object.
fn object(
    members: Vec<(String, Json)>,
    Ghost(ds): Ghost<Seq<(Seq<char>, Doc)>>,
    Ghost(levels): Ghost<nat>,
) -> (r: Json)
    requires
        say_docs(members@, ds, levels),
    ensures
        says_doc(r, Doc::Object(ds), levels + 1),
{
    let ghost held = members@;
    let r = Json::Object(members);
    assert forall|depth: nat| depth >= levels + 1 implies #[trigger] doc(r, depth)
        == Doc::Object(ds) by {
        assert(member_docs(held, (depth - 1) as nat) == ds);
    }
    r
}

/// The items as a list.
fn list(items: Vec<Json>, Ghost(ds): Ghost<Seq<Doc>>, Ghost(levels): Ghost<nat>) -> (r: Json)
    requires
        items@.len() == ds.len(),
        forall|i: int| 0 <= i < ds.len() ==> says_doc(#[trigger] items@[i], ds[i], levels),
    ensures
        says_doc(r, Doc::List(ds), levels + 1),
{
    let ghost held = items@;
    let r = Json::List(items);
    assert forall|depth: nat| depth >= levels + 1 implies #[trigger] doc(r, depth) == Doc::List(ds) by {
        let under = (depth - 1) as nat;
        assert forall|i: int| 0 <= i < ds.len() implies doc(held[i], under) == ds[i] by {
            assert(says_doc(held[i], ds[i], levels));
        }
        assert(docs(held, under) =~= ds);
    }
    r
}

/// A commenter's remark as a value.
fn comment_value(c: &PrCommentReport) -> (r: Json)
    ensures
        says_doc(r, comment_doc(*c), 1),
{
    let mut members = no_members(Ghost(0));
    let ghost d0: Seq<(Seq<char>, Doc)> = Seq::empty();
    member(
        &mut members,
        "file",
        text_value(c.file.as_str()),
        Ghost(Doc::Text(c.file@)),
        Ghost(d0),
        Ghost(0),
    );
    let ghost d1 = d0.push(("file"@, Doc::Text(c.file@)));
    member(
        &mut members,
        "line",
        number_value(c.line as u64),
        Ghost(Doc::Number(Some(c.line as u64))),
        Ghost(d1),
        Ghost(0),
    );
    let ghost d2 = d1.push(("line"@, Doc::Number(Some(c.line as u64))));
    member(
        &mut members,
        "author",
        text_value(c.author.as_str()),
        Ghost(Doc::Text(c.author@)),
        Ghost(d2),
        Ghost(0),
    );
    let ghost d3 = d2.push(("author"@, Doc::Text(c.author@)));
    member(
        &mut members,
        "body",
        text_value(c.body.as_str()),
        Ghost(Doc::Text(c.body@)),
        Ghost(d3),
        Ghost(0),
    );
    let ghost d4 = d3.push(("body"@, Doc::Text(c.body@)));
    assert(Doc::Object(d4) == comment_doc(*c)) by {
        assert(d4 =~= comment_doc(*c)->Object_0);
    }
    object(members, Ghost(d4), Ghost(0))
}

/// A note as a value.
fn note_value(c: &AnnotationReport) -> (r: Json)
    ensures
        says_doc(r, note_doc(*c), 1),
{
    let mut members = no_members(Ghost(0));
    let ghost d0: Seq<(Seq<char>, Doc)> = Seq::empty();
    member(
        &mut members,
        "file",
        text_value(c.file.as_str()),
        Ghost(Doc::Text(c.file@)),
        Ghost(d0),
        Ghost(0),
    );
    let ghost d1 = d0.push(("file"@, Doc::Text(c.file@)));
    member(
        &mut members,
        "line",
        number_value(c.line as u64),
        Ghost(Doc::Number(Some(c.line as u64))),
        Ghost(d1),
        Ghost(0),
    );
    let ghost d2 = d1.push(("line"@, Doc::Number(Some(c.line as u64))));
    member(
        &mut members,
        "kind",
        text_value(c.kind),
        Ghost(Doc::Text(c.kind@)),
        Ghost(d2),
        Ghost(0),
    );
    let ghost d3 = d2.push(("kind"@, Doc::Text(c.kind@)));
    member(
        &mut members,
        "text",
        text_value(c.text.as_str()),
        Ghost(Doc::Text(c.text@)),
        Ghost(d3),
        Ghost(0),
    );
    let ghost d4 = d3.push(("text"@, Doc::Text(c.text@)));
    assert(Doc::Object(d4) == note_doc(*c)) by {
        assert(d4 =~= note_doc(*c)->Object_0);
    }
    object(members, Ghost(d4), Ghost(0))
}

fn comment_values(comments: &Vec<PrCommentReport>) -> (r: Json)
    ensures
        says_doc(r, Doc::List(comments@.map_values(|c: PrCommentReport| comment_doc(c))), 2),
{
    let ghost ds = comments@.map_values(|c: PrCommentReport| comment_doc(c));
    let mut items: Vec<Json> = Vec::new();
    for i in 0..comments.len()
        invariant
            ds == comments@.map_values(|c: PrCommentReport| comment_doc(c)),
            items@.len() == i,
            forall|j: int| 0 <= j < i ==> says_doc(#[trigger] items@[j], ds[j], 1),
    {
        items.push(comment_value(&comments[i]));
    }
    list(items, Ghost(ds), Ghost(1))
}

fn note_values(notes: &Vec<AnnotationReport>) -> (r: Json)
    ensures
        says_doc(r, Doc::List(notes@.map_values(|n: AnnotationReport| note_doc(n))), 2),
{
    let ghost ds = notes@.map_values(|n: AnnotationReport| note_doc(n));
    let mut items: Vec<Json> = Vec::new();
    for i in 0..notes.len()
        invariant
            ds == notes@.map_values(|n: AnnotationReport| note_doc(n)),
            items@.len() == i,
            forall|j: int| 0 <= j < i ==> says_doc(#[trigger] items@[j], ds[j], 1),
    {
        items.push(note_value(&notes[i]));
    }
    list(items, Ghost(ds), Ghost(1))
}

/// A stray as a value.
fn stray_value(s: &StrayReport) -> (r: Json)
    ensures
        says_doc(r, stray_doc(*s), 1),
{
    let mut members = no_members(Ghost(0));
    let ghost mut ds: Seq<(Seq<char>, Doc)> = Seq::empty();
    member(
        &mut members,
        "path",
        text_value(s.path.as_str()),
        Ghost(Doc::Text(s.path@)),
        Ghost(ds),
        Ghost(0),
    );
    proof {
        ds = ds.push(("path"@, Doc::Text(s.path@)));
    }
    member(
        &mut members,
        "status",
        text_value(s.status),
        Ghost(Doc::Text(s.status@)),
        Ghost(ds),
        Ghost(0),
    );
    proof {
        ds = ds.push(("status"@, Doc::Text(s.status@)));
        assert(ds =~= seq![("path"@, Doc::Text(s.path@)), ("status"@, Doc::Text(s.status@))]);
    }
    if let Some(from) = &s.renamed_from {
        member(
            &mut members,
            "renamed_from",
            text_value(from.as_str()),
            Ghost(Doc::Text(from@)),
            Ghost(ds),
            Ghost(0),
        );
        proof {
            ds = ds.push(("renamed_from"@, Doc::Text(from@)));
        }
    }
    member(
        &mut members,
        "changed",
        Json::Bool(s.changed),
        Ghost(Doc::Bool(s.changed)),
        Ghost(ds),
        Ghost(0),
    );
    proof {
        ds = ds.push(("changed"@, Doc::Bool(s.changed)));
    }
    if let Some(note) = &s.agent_note {
        member(
            &mut members,
            "agent_note",
            text_value(note.as_str()),
            Ghost(Doc::Text(note@)),
            Ghost(ds),
            Ghost(0),
        );
        proof {
            ds = ds.push(("agent_note"@, Doc::Text(note@)));
        }
    }
    object(members, Ghost(ds), Ghost(0))
}

fn stray_values(strays: &Vec<StrayReport>) -> (r: Json)
    ensures
        says_doc(r, Doc::List(strays@.map_values(|s: StrayReport| stray_doc(s))), 2),
{
    let ghost ds = strays@.map_values(|s: StrayReport| stray_doc(s));
    let mut items: Vec<Json> = Vec::new();
    for i in 0..strays.len()
        invariant
            ds == strays@.map_values(|s: StrayReport| stray_doc(s)),
            items@.len() == i,
            forall|j: int| 0 <= j < i ==> says_doc(#[trigger] items@[j], ds[j], 1),
    {
        items.push(stray_value(&strays[i]));
    }
    list(items, Ghost(ds), Ghost(1))
}

/// What a review says in the document.
pub open spec fn review_doc(r: ReviewReport) -> Doc {
    Doc::Object(
        seq![
            ("comments"@, Doc::Number(Some(r.comments as u64))),
            ("changes_requested"@, Doc::Bool(r.changes_requested)),
        ],
    )
}

/// How far a branch is from what it tracks, in the document.
pub open spec fn upstream_doc(u: UpstreamReport) -> Doc {
    Doc::Object(
        seq![
            ("ahead"@, Doc::Number(Some(u.ahead as u64))),
            ("behind"@, Doc::Number(Some(u.behind as u64))),
        ],
    )
}

/// What an agent is doing, in the document.
pub open spec fn agent_doc(a: AgentReport) -> Doc {
    Doc::Object(seq![("status"@, Doc::Text(a.status@))])
}

/// How many pull requests are open, in the document.
pub open spec fn count_doc(n: Option<usize>) -> Doc {
    match n {
        Some(n) => Doc::Number(Some(n as u64)),
        None => Doc::Null,
    }
}

/// The review, in the document, where there is one.
pub open spec fn maybe_review_doc(r: Option<ReviewReport>) -> Doc {
    match r {
        Some(review) => review_doc(review),
        None => Doc::Null,
    }
}

fn count_value(n: Option<usize>) -> (r: Json)
    ensures
        says_doc(r, count_doc(n), 0),
{
    match n {
        Some(n) => number_value(n as u64),
        None => Json::Null,
    }
}

/// A review as a value.
fn review_value(c: &ReviewReport) -> (r: Json)
    ensures
        says_doc(r, review_doc(*c), 1),
{
    let mut members = no_members(Ghost(0));
    let ghost d0: Seq<(Seq<char>, Doc)> = Seq::empty();
    member(
        &mut members,
        "comments",
        number_value(c.comments as u64),
        Ghost(Doc::Number(Some(c.comments as u64))),
        Ghost(d0),
        Ghost(0),
    );
    let ghost d1 = d0.push(("comments"@, Doc::Number(Some(c.comments as u64))));
    member(
        &mut members,
        "changes_requested",
        Json::Bool(c.changes_requested),
        Ghost(Doc::Bool(c.changes_requested)),
        Ghost(d1),
        Ghost(0),
    );
    let ghost d2 = d1.push(("changes_requested"@, Doc::Bool(c.changes_requested)));
    assert(Doc::Object(d2) == review_doc(*c)) by {
        assert(d2 =~= review_doc(*c)->Object_0);
    }
    object(members, Ghost(d2), Ghost(0))
}

/// The distance from an upstream as a value.
fn upstream_value(c: &UpstreamReport) -> (r: Json)
    ensures
        says_doc(r, upstream_doc(*c), 1),
{
    let mut members = no_members(Ghost(0));
    let ghost d0: Seq<(Seq<char>, Doc)> = Seq::empty();
    member(
        &mut members,
        "ahead",
        number_value(c.ahead as u64),
        Ghost(Doc::Number(Some(c.ahead as u64))),
        Ghost(d0),
        Ghost(0),
    );
    let ghost d1 = d0.push(("ahead"@, Doc::Number(Some(c.ahead as u64))));
    member(
        &mut members,
        "behind",
        number_value(c.behind as u64),
        Ghost(Doc::Number(Some(c.behind as u64))),
        Ghost(d1),
        Ghost(0),
    );
    let ghost d2 = d1.push(("behind"@, Doc::Number(Some(c.behind as u64))));
    assert(Doc::Object(d2) == upstream_doc(*c)) by {
        assert(d2 =~= upstream_doc(*c)->Object_0);
    }
    object(members, Ghost(d2), Ghost(0))
}

/// What an agent is doing as a value.
fn agent_value(c: &AgentReport) -> (r: Json)
    ensures
        says_doc(r, agent_doc(*c), 1),
{
    let mut members = no_members(Ghost(0));
    let ghost d0: Seq<(Seq<char>, Doc)> = Seq::empty();
    member(
        &mut members,
        "status",
        text_value(c.status.as_str()),
        Ghost(Doc::Text(c.status@)),
        Ghost(d0),
        Ghost(0),
    );
    let ghost d1 = d0.push(("status"@, Doc::Text(c.status@)));
    assert(Doc::Object(d1) == agent_doc(*c)) by {
        assert(d1 =~= agent_doc(*c)->Object_0);
    }
    object(members, Ghost(d1), Ghost(0))
}

fn maybe_review_value(r: &Option<ReviewReport>) -> (v: Json)
    ensures
        says_doc(v, maybe_review_doc(*r), 1),
{
    match r {
        Some(review) => review_value(review),
        None => Json::Null,
    }
}

/// What the forge said as a value.
fn forge_value(c: &ForgeReport) -> (r: Json)
    ensures
        says_doc(r, forge_doc(*c), 3),
{
    let mut members = no_members(Ghost(2));
    let ghost d0: Seq<(Seq<char>, Doc)> = Seq::empty();
    member(&mut members, "ci", text_value(c.ci), Ghost(Doc::Text(c.ci@)), Ghost(d0), Ghost(2));
    let ghost d1 = d0.push(("ci"@, Doc::Text(c.ci@)));
    member(
        &mut members,
        "tests",
        text_value(c.tests),
        Ghost(Doc::Text(c.tests@)),
        Ghost(d1),
        Ghost(2),
    );
    let ghost d2 = d1.push(("tests"@, Doc::Text(c.tests@)));
    member(
        &mut members,
        "open_prs",
        count_value(c.open_prs),
        Ghost(count_doc(c.open_prs)),
        Ghost(d2),
        Ghost(2),
    );
    let ghost d3 = d2.push(("open_prs"@, count_doc(c.open_prs)));
    member(
        &mut members,
        "review",
        maybe_review_value(&c.review),
        Ghost(maybe_review_doc(c.review)),
        Ghost(d3),
        Ghost(2),
    );
    let ghost d4 = d3.push(("review"@, maybe_review_doc(c.review)));
    member(
        &mut members,
        "comments",
        comment_values(&c.comments),
        Ghost(Doc::List(c.comments@.map_values(|c: PrCommentReport| comment_doc(c)))),
        Ghost(d4),
        Ghost(2),
    );
    let ghost d5 = d4.push(
        (
            "comments"@,
            Doc::List(c.comments@.map_values(|c: PrCommentReport| comment_doc(c))),
        ),
    );
    assert(Doc::Object(d5) == forge_doc(*c)) by {
        assert(d5 =~= forge_doc(*c)->Object_0);
    }
    object(members, Ghost(d5), Ghost(2))
}

/// A project as a value.
fn project_value(p: &ProjectReport) -> (r: Json)
    ensures
        says_doc(r, project_doc(*p), 4),
{
    let mut members = no_members(Ghost(3));
    let ghost mut ds: Seq<(Seq<char>, Doc)> = Seq::empty();
    member(
        &mut members,
        "name",
        text_value(p.name.as_str()),
        Ghost(Doc::Text(p.name@)),
        Ghost(ds),
        Ghost(3),
    );
    proof {
        ds = ds.push(("name"@, Doc::Text(p.name@)));
    }
    member(
        &mut members,
        "root",
        text_value(p.root.as_str()),
        Ghost(Doc::Text(p.root@)),
        Ghost(ds),
        Ghost(3),
    );
    proof {
        ds = ds.push(("root"@, Doc::Text(p.root@)));
    }
    member(
        &mut members,
        "branch",
        optional_value(&p.branch),
        Ghost(optional_doc(text_view(p.branch))),
        Ghost(ds),
        Ghost(3),
    );
    proof {
        ds = ds.push(("branch"@, optional_doc(text_view(p.branch))));
    }
    assert(ds =~= seq![
        ("name"@, Doc::Text(p.name@)),
        ("root"@, Doc::Text(p.root@)),
        ("branch"@, optional_doc(text_view(p.branch))),
    ]);
    if let Some(upstream) = &p.upstream {
        member(
            &mut members,
            "upstream",
            upstream_value(upstream),
            Ghost(upstream_doc(*upstream)),
            Ghost(ds),
            Ghost(3),
        );
        proof {
            ds = ds.push(("upstream"@, upstream_doc(*upstream)));
        }
    }
    member(
        &mut members,
        "strays",
        stray_values(&p.strays),
        Ghost(Doc::List(p.strays@.map_values(|s: StrayReport| stray_doc(s)))),
        Ghost(ds),
        Ghost(3),
    );
    proof {
        ds = ds.push(("strays"@, Doc::List(p.strays@.map_values(|s: StrayReport| stray_doc(s)))));
    }
    member(
        &mut members,
        "error",
        optional_value(&p.error),
        Ghost(optional_doc(text_view(p.error))),
        Ghost(ds),
        Ghost(3),
    );
    proof {
        ds = ds.push(("error"@, optional_doc(text_view(p.error))));
    }
    if let Some(agent) = &p.agent {
        member(
            &mut members,
            "agent",
            agent_value(agent),
            Ghost(agent_doc(*agent)),
            Ghost(ds),
            Ghost(3),
        );
        proof {
            ds = ds.push(("agent"@, agent_doc(*agent)));
        }
    }
    if let Some(notes) = &p.annotations {
        member(
            &mut members,
            "annotations",
            note_values(notes),
            Ghost(Doc::List(notes@.map_values(|n: AnnotationReport| note_doc(n)))),
            Ghost(ds),
            Ghost(3),
        );
        proof {
            ds = ds.push(("annotations"@, Doc::List(notes@.map_values(|n: AnnotationReport| note_doc(n)))));
        }
    }
    match &p.forge {
        Some(Some(said)) => {
            member(
                &mut members,
                "forge",
                forge_value(said),
                Ghost(forge_doc(*said)),
                Ghost(ds),
                Ghost(3),
            );
            proof {
                ds = ds.push(("forge"@, forge_doc(*said)));
            }
        },
        Some(None) => {
            member(
                &mut members,
                "forge",
                Json::Null,
                Ghost(Doc::Null),
                Ghost(ds),
                Ghost(3),
            );
            proof {
                ds = ds.push(("forge"@, Doc::Null));
            }
        },
        None => {},
    }
    assert(Doc::Object(ds) == project_doc(*p));
    object(members, Ghost(ds), Ghost(3))
}

fn project_values(projects: &Vec<ProjectReport>) -> (r: Json)
    ensures
        says_doc(r, Doc::List(projects@.map_values(|p: ProjectReport| project_doc(p))), 5),
{
    let ghost ds = projects@.map_values(|p: ProjectReport| project_doc(p));
    let mut items: Vec<Json> = Vec::new();
    for i in 0..projects.len()
        invariant
            ds == projects@.map_values(|p: ProjectReport| project_doc(p)),
            items@.len() == i,
            forall|j: int| 0 <= j < i ==> says_doc(#[trigger] items@[j], ds[j], 4),
    {
        items.push(project_value(&projects[i]));
    }
    list(items, Ghost(ds), Ghost(4))
}

/// A report as a value.
fn report_value(c: &Report) -> (r: Json)
    ensures
        says_doc(r, report_doc(*c), 6),
{
    let mut members = no_members(Ghost(5));
    let ghost d0: Seq<(Seq<char>, Doc)> = Seq::empty();
    member(
        &mut members,
        "version",
        number_value(c.version as u64),
        Ghost(Doc::Number(Some(c.version as u64))),
        Ghost(d0),
        Ghost(5),
    );
    let ghost d1 = d0.push(("version"@, Doc::Number(Some(c.version as u64))));
    member(
        &mut members,
        "base",
        text_value(c.base.as_str()),
        Ghost(Doc::Text(c.base@)),
        Ghost(d1),
        Ghost(5),
    );
    let ghost d2 = d1.push(("base"@, Doc::Text(c.base@)));
    member(
        &mut members,
        "show_all",
        Json::Bool(c.show_all),
        Ghost(Doc::Bool(c.show_all)),
        Ghost(d2),
        Ghost(5),
    );
    let ghost d3 = d2.push(("show_all"@, Doc::Bool(c.show_all)));
    member(
        &mut members,
        "projects",
        project_values(&c.projects),
        Ghost(Doc::List(c.projects@.map_values(|p: ProjectReport| project_doc(p)))),
        Ghost(d3),
        Ghost(5),
    );
    let ghost d4 = d3.push(
        (
            "projects"@,
            Doc::List(c.projects@.map_values(|p: ProjectReport| project_doc(p))),
        ),
    );
    assert(Doc::Object(d4) == report_doc(*c)) by {
        assert(d4 =~= report_doc(*c)->Object_0);
    }
    object(members, Ghost(d4), Ghost(5))
}

impl Report {
    /// The document that a script is given: under which key each field stands,
    /// and which keys are there at all.
    pub fn document(&self) -> (r: Json)
        ensures
            doc(r, MAX_LEVELS as nat) == report_doc(*self),
    {
        report_value(self)
    }

    /// The text of the document, laid out for a reader.
    pub fn render(&self) -> (r: Result<String, String>)
        ensures
            r matches Ok(text) && text@ == written(report_doc(*self)) && reads_as(
                text@,
                report_doc(*self),
            ),
    {
        let json = self.document();
        proof {
            reports_are_writable(*self);
        }
        match write_document(&json) {
            Ok(text) => Ok(text),
            Err(said) => Err("could not write JSON: ".to_owned().concat(said.as_str())),
        }
    }
}

/// Where the keys of one object can be told apart: their length and their first
/// character.
spec fn mark(key: Seq<char>) -> (nat, char) {
    (key.len(), key[0])
}

proof fn lemma_marks()
    ensures
        mark("path"@) == (4nat, 'p'),
        mark("status"@) == (6nat, 's'),
        mark("renamed_from"@) == (12nat, 'r'),
        mark("changed"@) == (7nat, 'c'),
        mark("agent_note"@) == (10nat, 'a'),
        mark("file"@) == (4nat, 'f'),
        mark("line"@) == (4nat, 'l'),
        mark("author"@) == (6nat, 'a'),
        mark("body"@) == (4nat, 'b'),
        mark("kind"@) == (4nat, 'k'),
        mark("text"@) == (4nat, 't'),
        mark("ci"@) == (2nat, 'c'),
        mark("tests"@) == (5nat, 't'),
        mark("open_prs"@) == (8nat, 'o'),
        mark("review"@) == (6nat, 'r'),
        mark("comments"@) == (8nat, 'c'),
        mark("changes_requested"@) == (17nat, 'c'),
        mark("ahead"@) == (5nat, 'a'),
        mark("behind"@) == (6nat, 'b'),
        mark("name"@) == (4nat, 'n'),
        mark("root"@) == (4nat, 'r'),
        mark("branch"@) == (6nat, 'b'),
        mark("upstream"@) == (8nat, 'u'),
        mark("strays"@) == (6nat, 's'),
        mark("error"@) == (5nat, 'e'),
        mark("agent"@) == (5nat, 'a'),
        mark("annotations"@) == (11nat, 'a'),
        mark("forge"@) == (5nat, 'f'),
        mark("version"@) == (7nat, 'v'),
        mark("base"@) == (4nat, 'b'),
        mark("show_all"@) == (8nat, 's'),
        mark("projects"@) == (8nat, 'p'),
{
    reveal_strlit("path");
    reveal_strlit("status");
    reveal_strlit("renamed_from");
    reveal_strlit("changed");
    reveal_strlit("agent_note");
    reveal_strlit("file");
    reveal_strlit("line");
    reveal_strlit("author");
    reveal_strlit("body");
    reveal_strlit("kind");
    reveal_strlit("text");
    reveal_strlit("ci");
    reveal_strlit("tests");
    reveal_strlit("open_prs");
    reveal_strlit("review");
    reveal_strlit("comments");
    reveal_strlit("changes_requested");
    reveal_strlit("ahead");
    reveal_strlit("behind");
    reveal_strlit("name");
    reveal_strlit("root");
    reveal_strlit("branch");
    reveal_strlit("upstream");
    reveal_strlit("strays");
    reveal_strlit("error");
    reveal_strlit("agent");
    reveal_strlit("annotations");
    reveal_strlit("forge");
    reveal_strlit("version");
    reveal_strlit("base");
    reveal_strlit("show_all");
    reveal_strlit("projects");
}

/// Whether every member can be written, and no two keys have the same mark.
spec fn plain_members(members: Seq<(Seq<char>, Doc)>, depth: nat) -> bool {
    &&& forall|i: int| 0 <= i < members.len() ==> writable((#[trigger] members[i]).1, depth)
    &&& forall|i: int, j: int|
        0 <= i < j < members.len() ==> mark((#[trigger] members[i]).0) != mark(
            (#[trigger] members[j]).0,
        )
}

proof fn lemma_plain(members: Seq<(Seq<char>, Doc)>, depth: nat)
    requires
        plain_members(members, depth),
    ensures
        writable(Doc::Object(members), depth + 1),
{
    assert forall|i: int, j: int| 0 <= i < j < members.len() implies (#[trigger] members[i]).0 != (
    #[trigger] members[j]).0 by {
        assert(mark(members[i].0) != mark(members[j].0));
    }
}

proof fn lemma_comment(r: PrCommentReport, depth: nat)
    requires
        depth >= 1,
    ensures
        writable(comment_doc(r), depth),
{
    lemma_marks();
    lemma_plain(comment_doc(r)->Object_0, (depth - 1) as nat);
}

proof fn lemma_note(r: AnnotationReport, depth: nat)
    requires
        depth >= 1,
    ensures
        writable(note_doc(r), depth),
{
    lemma_marks();
    lemma_plain(note_doc(r)->Object_0, (depth - 1) as nat);
}

proof fn lemma_review(r: ReviewReport, depth: nat)
    requires
        depth >= 1,
    ensures
        writable(review_doc(r), depth),
{
    lemma_marks();
    lemma_plain(review_doc(r)->Object_0, (depth - 1) as nat);
}

proof fn lemma_upstream(r: UpstreamReport, depth: nat)
    requires
        depth >= 1,
    ensures
        writable(upstream_doc(r), depth),
{
    lemma_marks();
    lemma_plain(upstream_doc(r)->Object_0, (depth - 1) as nat);
}

proof fn lemma_agent(r: AgentReport, depth: nat)
    requires
        depth >= 1,
    ensures
        writable(agent_doc(r), depth),
{
    lemma_marks();
    lemma_plain(agent_doc(r)->Object_0, (depth - 1) as nat);
}

proof fn lemma_stray(r: StrayReport, depth: nat)
    requires
        depth >= 1,
    ensures
        writable(stray_doc(r), depth),
{
    lemma_marks();
    lemma_plain(stray_doc(r)->Object_0, (depth - 1) as nat);
}

proof fn lemma_forge(r: ForgeReport, depth: nat)
    requires
        depth >= 3,
    ensures
        writable(forge_doc(r), depth),
{
    lemma_marks();
    let comments = r.comments@.map_values(|c: PrCommentReport| comment_doc(c));
    assert(writable(Doc::List(comments), (depth - 1) as nat)) by {
        assert forall|i: int| 0 <= i < comments.len() implies writable(
            #[trigger] comments[i],
            (depth - 2) as nat,
        ) by {
            lemma_comment(r.comments@[i], (depth - 2) as nat);
        }
    }
    if let Some(review) = r.review {
        lemma_review(review, (depth - 1) as nat);
    }
    lemma_plain(forge_doc(r)->Object_0, (depth - 1) as nat);
}

proof fn lemma_project(r: ProjectReport, depth: nat)
    requires
        depth >= 4,
    ensures
        writable(project_doc(r), depth),
{
    lemma_marks();
    let under = (depth - 1) as nat;
    let strays = r.strays@.map_values(|s: StrayReport| stray_doc(s));
    assert(writable(Doc::List(strays), under)) by {
        assert forall|i: int| 0 <= i < strays.len() implies writable(
            #[trigger] strays[i],
            (under - 1) as nat,
        ) by {
            lemma_stray(r.strays@[i], (under - 1) as nat);
        }
    }
    if let Some(u) = r.upstream {
        lemma_upstream(u, under);
    }
    if let Some(agent) = r.agent {
        lemma_agent(agent, under);
    }
    if let Some(notes) = r.annotations {
        let said = notes@.map_values(|n: AnnotationReport| note_doc(n));
        assert(writable(Doc::List(said), under)) by {
            assert forall|i: int| 0 <= i < said.len() implies writable(
                #[trigger] said[i],
                (under - 1) as nat,
            ) by {
                lemma_note(notes@[i], (under - 1) as nat);
            }
        }
    }
    if let Some(Some(said)) = r.forge {
        lemma_forge(said, under);
    }
    lemma_plain(project_doc(r)->Object_0, under);
}

/// Whatever a report says can be written down so that it is read back as it was:
/// no number is a guess, and no key stands twice in one object.
pub proof fn reports_are_writable(r: Report)
    ensures
        writable(report_doc(r), MAX_LEVELS as nat),
{
    lemma_marks();
    let under = (MAX_LEVELS - 1) as nat;
    let projects = r.projects@.map_values(|p: ProjectReport| project_doc(p));
    assert(writable(Doc::List(projects), under)) by {
        assert forall|i: int| 0 <= i < projects.len() implies writable(
            #[trigger] projects[i],
            (under - 1) as nat,
        ) by {
            lemma_project(r.projects@[i], (under - 1) as nat);
        }
    }
    lemma_plain(report_doc(r)->Object_0, under);
}

/// Whether a report is of projects read against the last commit, strays only:
/// `--json` reports the ordinary question, because a base other than HEAD is
/// something the reader picks interactively, and there is no key to press here.
pub open spec fn ordinary_report(
    r: Report,
    scanned: Seq<ProjectStrays>,
    notes: Seq<Annotations>,
    options: Options,
    forge: ForgeAnswers,
) -> bool {
    &&& r.version == 1
    &&& r.base@ == "HEAD"@
    &&& !r.show_all
    &&& r.projects@.len() == scanned.len()
    &&& forall|i: int|
        0 <= i < r.projects@.len() ==> reports_project(
            #[trigger] r.projects@[i],
            scanned[i],
            notes_at(notes, i),
            options,
            forge,
        )
}

/// Whether a text is what is written for an ordinary report, and reads back as it.
pub open spec fn writes_report(
    text: Seq<char>,
    scanned: Seq<ProjectStrays>,
    notes: Seq<Annotations>,
    options: Options,
    forge: ForgeAnswers,
) -> bool {
    exists|report: Report| #[trigger]
        ordinary_report(report, scanned, notes, options, forge) && text == written(
            report_doc(report),
        ) && reads_as(text, report_doc(report))
}

proof fn lemma_same_strays(a: Seq<StrayReport>, b: Seq<StrayReport>, strays: Seq<Stray>)
    requires
        a.len() == strays.len(),
        b.len() == strays.len(),
        forall|i: int| 0 <= i < a.len() ==> reports_stray(#[trigger] a[i], strays[i]),
        forall|i: int| 0 <= i < b.len() ==> reports_stray(#[trigger] b[i], strays[i]),
    ensures
        a.map_values(|s: StrayReport| stray_doc(s)) == b.map_values(|s: StrayReport| stray_doc(s)),
{
    assert forall|i: int| 0 <= i < a.len() implies stray_doc(a[i]) == stray_doc(b[i]) by {
        assert(reports_stray(a[i], strays[i]) && reports_stray(b[i], strays[i]));
    }
    assert(a.map_values(|s: StrayReport| stray_doc(s)) =~= b.map_values(
        |s: StrayReport| stray_doc(s),
    ));
}

proof fn lemma_same_notes(a: Seq<AnnotationReport>, b: Seq<AnnotationReport>, notes: Seq<Annotation>)
    requires
        a.len() == notes.len(),
        b.len() == notes.len(),
        forall|i: int| 0 <= i < a.len() ==> reports_note(#[trigger] a[i], notes[i]),
        forall|i: int| 0 <= i < b.len() ==> reports_note(#[trigger] b[i], notes[i]),
    ensures
        a.map_values(|n: AnnotationReport| note_doc(n)) == b.map_values(
            |n: AnnotationReport| note_doc(n),
        ),
{
    assert forall|i: int| 0 <= i < a.len() implies note_doc(a[i]) == note_doc(b[i]) by {
        assert(reports_note(a[i], notes[i]) && reports_note(b[i], notes[i]));
    }
    assert(a.map_values(|n: AnnotationReport| note_doc(n)) =~= b.map_values(
        |n: AnnotationReport| note_doc(n),
    ));
}

proof fn lemma_same_forge(a: ForgeReport, b: ForgeReport, status: ForgeStatus)
    requires
        reports_forge(a, status),
        reports_forge(b, status),
    ensures
        forge_doc(a) == forge_doc(b),
{
    let x = a.comments@.map_values(|c: PrCommentReport| comment_doc(c));
    let y = b.comments@.map_values(|c: PrCommentReport| comment_doc(c));
    assert forall|i: int| 0 <= i < x.len() implies x[i] == y[i] by {
        assert(reports_comment(a.comments@[i], status.comments@[i]));
        assert(reports_comment(b.comments@[i], status.comments@[i]));
    }
    assert(x =~= y);
}

proof fn lemma_same_project(
    a: ProjectReport,
    b: ProjectReport,
    scanned: ProjectStrays,
    notes: Seq<Annotation>,
    options: Options,
    forge: ForgeAnswers,
)
    requires
        reports_project(a, scanned, notes, options, forge),
        reports_project(b, scanned, notes, options, forge),
    ensures
        project_doc(a) == project_doc(b),
{
    lemma_same_strays(a.strays@, b.strays@, scanned.strays@);
    if let (Some(x), Some(y)) = (a.annotations, b.annotations) {
        lemma_same_notes(x@, y@, notes);
    }
    if let (Some(Some(x)), Some(Some(y))) = (a.forge, b.forge) {
        lemma_same_forge(x, y, forge@[parts(scanned.project.root@)]);
    }
}

/// Two runs over an unchanged worktree write the same text, so that a diff
/// between runs means something.
pub proof fn unchanged_projects_make_the_same_text(
    first: Seq<char>,
    second: Seq<char>,
    scanned: Seq<ProjectStrays>,
    notes: Seq<Annotations>,
    options: Options,
    forge: ForgeAnswers,
)
    requires
        writes_report(first, scanned, notes, options, forge),
        writes_report(second, scanned, notes, options, forge),
    ensures
        first == second,
{
    let a = choose|report: Report| #[trigger]
        ordinary_report(report, scanned, notes, options, forge) && first == written(
            report_doc(report),
        ) && reads_as(first, report_doc(report));
    let b = choose|report: Report| #[trigger]
        ordinary_report(report, scanned, notes, options, forge) && second == written(
            report_doc(report),
        ) && reads_as(second, report_doc(report));
    let x = a.projects@.map_values(|p: ProjectReport| project_doc(p));
    let y = b.projects@.map_values(|p: ProjectReport| project_doc(p));
    assert forall|i: int| 0 <= i < x.len() implies x[i] == y[i] by {
        assert(reports_project(a.projects@[i], scanned[i], notes_at(notes, i), options, forge));
        assert(reports_project(b.projects@[i], scanned[i], notes_at(notes, i), options, forge));
        lemma_same_project(
            a.projects@[i],
            b.projects@[i],
            scanned[i],
            notes_at(notes, i),
            options,
            forge,
        );
    }
    assert(x =~= y);
}

/// The report on every project herdr has open, given what was read of each, in
/// the order herdr listed them, so that two runs over an unchanged worktree
/// produce byte-identical documents and a diff between runs means something.
pub fn run(
    scanned: &Vec<ProjectStrays>,
    notes: &Vec<Annotations>,
    options: Options,
    forge: &ForgeAnswers,
) -> (r: Result<String, String>)
    ensures
        r matches Ok(text) && writes_report(text@, scanned@, notes@, options, *forge),
{
    let report = Report::of(scanned, notes, &Base::Head, false, options, forge);
    let r = report.render();
    assert(ordinary_report(report, scanned@, notes@, options, *forge));
    r
}

} // verus!
