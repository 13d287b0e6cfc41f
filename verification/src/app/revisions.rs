//! The lists that occupy the diff pane.
//!
//! History, stashes, branches and the commit graph are the same interaction — a
//! list of commits, a cursor, and an Enter that points the diff at one of them —
//! so they share one type and one pane. Only what they hold and what the title
//! says differs.

use vstd::prelude::*;
use vstd::string::*;
use vstd::view::View as _;

use crate::app::scanning::rebased;
use crate::app::{noticed, says, App, Data, Input, Notice, View};
use crate::git::base::{is_revision, resolve, Base};
use crate::git::graph;
use crate::git::query::Query;
use crate::git::run::GitError;
use crate::git::{branch, history, stash};
use crate::model::Upstream;
use crate::text::glue;

verus! {

/// A list of revisions occupying the diff pane, and which one the cursor is on.
///
/// Its own cursor rather than reusing `selected`: that one moves through the
/// file tree, which is still on screen and still where `j`/`k` should land when
/// the list is closed again.
///
/// History and stashes share this because they are the same interaction — a
/// list of commits, a cursor, and an Enter that points the diff at one of them.
/// Only what they hold and what the title says differs.
#[derive(Debug, Clone, PartialEq, Eq)]
pub struct Revisions {
    pub kind: RevisionList,
    pub selected: usize,
}

/// Which list is open, and what it holds.
#[derive(Debug, Clone, PartialEq, Eq)]
pub enum RevisionList {
    /// The commits that touched one file. Carries the path so the title can
    /// name it — a history is always of something.
    History { path: String, entries: Vec<crate::git::history::Entry> },
    /// What has been set aside. Belongs to the repository rather than to any
    /// one file, so there is nothing to name.
    Stash { entries: Vec<crate::git::stash::Entry> },
    /// The local branches. Also a property of the repository rather than of a
    /// file.
    Branches { entries: Vec<crate::git::branch::Branch> },
    /// The shape of the recent history.
    ///
    /// Unlike the others, not every row is a revision: the drawing includes
    /// connector lines that carry no commit, and the cursor skips them.
    Graph { rows: Vec<crate::git::graph::Row> },
}

/// One row of a revision list, reduced to what the renderer needs.
///
/// The lists carry different types; this is what they have in common.
pub struct RevisionRow<'a> {
    pub short: &'a str,
    pub author: &'a str,
    pub author_time: i64,
    pub label: &'a str,
    /// How far this entry has drifted from its upstream, for the lists where
    /// that means anything.
    ///
    /// Only branches have one. `None` covers both "this is not a branch" and
    /// "this branch tracks nothing", which render the same: as nothing.
    pub track: Option<Upstream>,
    /// Whether this row is the branch currently checked out.
    ///
    /// Always false for the other lists, which have no notion of "the one you
    /// are on".
    pub current: bool,
    /// The drawing git computed to place this row, for the graph.
    ///
    /// `None` for the lists that have no shape to draw. When present it is
    /// rendered verbatim and takes the place of the other columns' alignment:
    /// the whole point is that the lanes line up as git drew them.
    pub rail: Option<&'a str>,
}

/// A row of a revision list, with its texts as characters.
pub ghost struct RevisionView {
    pub short: Seq<char>,
    pub author: Seq<char>,
    pub author_time: i64,
    pub label: Seq<char>,
    pub track: Option<Upstream>,
    pub current: bool,
    pub rail: Option<Seq<char>>,
}

impl<'a> RevisionRow<'a> {
    /// The row, with its texts as characters.
    pub open spec fn said(&self) -> RevisionView {
        RevisionView {
            short: self.short@,
            author: self.author@,
            author_time: self.author_time,
            label: self.label@,
            track: self.track,
            current: self.current,
            rail: match self.rail {
                Some(rail) => Some(rail@),
                None => None,
            },
        }
    }
}

/// The rows, with their texts as characters.
pub open spec fn said_rows(rows: Seq<RevisionRow>) -> Seq<RevisionView> {
    rows.map_values(|r: RevisionRow| r.said())
}

/// How a commit of a history is drawn.
pub open spec fn history_row(e: history::Entry) -> RevisionView {
    RevisionView {
        short: e.short@,
        author: e.author@,
        author_time: e.author_time,
        label: e.subject@,
        track: None,
        current: false,
        rail: None,
    }
}

/// How a stash is drawn: by its selector rather than its commit, which is what
/// the reader recognises and what git's own output calls it.
pub open spec fn stash_row(e: stash::Entry) -> RevisionView {
    RevisionView {
        short: e.selector@,
        author: e.author@,
        author_time: e.author_time,
        label: e.message@,
        track: None,
        current: false,
        rail: None,
    }
}

/// How a branch is drawn: by its name, not its commit. A list of hashes would be
/// unreadable, and the name is what anyone would type.
pub open spec fn branch_row(e: branch::Branch) -> RevisionView {
    RevisionView {
        short: e.name@,
        author: e.author@,
        author_time: e.committed,
        label: e.subject@,
        track: e.track,
        current: e.current,
        rail: None,
    }
}

/// How a line of the graph is drawn. A connector has nothing but its drawing.
pub open spec fn graph_row(row: graph::Row) -> RevisionView {
    match row {
        graph::Row::Commit { rail, short, author, author_time, subject, .. } => RevisionView {
            short: short@,
            author: author@,
            author_time,
            label: subject@,
            track: None,
            current: false,
            rail: Some(rail@),
        },
        graph::Row::Connector { rail } => RevisionView {
            short: ""@,
            author: ""@,
            author_time: 0,
            label: ""@,
            track: None,
            current: false,
            rail: Some(rail@),
        },
    }
}

/// The rows of a list.
pub open spec fn rows_in(list: RevisionList) -> Seq<RevisionView> {
    match list {
        RevisionList::History { entries, .. } => entries@.map_values(
            |e: history::Entry| history_row(e),
        ),
        RevisionList::Stash { entries } => entries@.map_values(|e: stash::Entry| stash_row(e)),
        RevisionList::Branches { entries } => entries@.map_values(
            |e: branch::Branch| branch_row(e),
        ),
        RevisionList::Graph { rows } => rows@.map_values(|r: graph::Row| graph_row(r)),
    }
}

/// How many rows a list has.
pub open spec fn list_len(list: RevisionList) -> nat {
    match list {
        RevisionList::History { entries, .. } => entries@.len(),
        RevisionList::Stash { entries } => entries@.len(),
        RevisionList::Branches { entries } => entries@.len(),
        RevisionList::Graph { rows } => rows@.len(),
    }
}

/// Whether the cursor may rest on a row: on every row of every list except the
/// graph, where the connector lines between commits carry no revision.
pub open spec fn selectable(list: RevisionList, at: int) -> bool {
    match list {
        RevisionList::Graph { rows } => 0 <= at < rows@.len() && rows@[at] is Commit,
        _ => 0 <= at < list_len(list),
    }
}

/// The first row from the `at`-th on that the cursor may rest on, or `otherwise`.
pub open spec fn selectable_from(list: RevisionList, at: int, otherwise: usize) -> usize
    decreases list_len(list) - at,
{
    if at < 0 || at >= list_len(list) {
        otherwise
    } else if selectable(list, at) {
        at as usize
    } else {
        selectable_from(list, at + 1, otherwise)
    }
}

/// The last of the first `at` rows that the cursor may rest on, or `otherwise`.
pub open spec fn selectable_below(list: RevisionList, at: int, otherwise: usize) -> usize
    decreases at,
{
    if at <= 0 {
        otherwise
    } else if selectable(list, at - 1) {
        (at - 1) as usize
    } else {
        selectable_below(list, at - 1, otherwise)
    }
}

fn history_rows<'a>(entries: &'a Vec<history::Entry>) -> (r: Vec<RevisionRow<'a>>)
    ensures
        said_rows(r@) == entries@.map_values(|e: history::Entry| history_row(e)),
{
    let ghost all = entries@.map_values(|e: history::Entry| history_row(e));
    let mut out: Vec<RevisionRow<'a>> = Vec::new();
    for i in 0..entries.len()
        invariant
            all == entries@.map_values(|e: history::Entry| history_row(e)),
            said_rows(out@) =~= all.take(i as int),
    {
        let e = &entries[i];
        let ghost before = said_rows(out@);
        let row = RevisionRow {
            short: e.short.as_str(),
            author: e.author.as_str(),
            author_time: e.author_time,
            label: e.subject.as_str(),
            track: None,
            current: false,
            rail: None,
        };
        assert(all[i as int] == row.said());
        out.push(row);
        assert(said_rows(out@) =~= before.push(row.said()));
    }
    assert(all.take(all.len() as int) =~= all);
    out
}

fn stash_rows<'a>(entries: &'a Vec<stash::Entry>) -> (r: Vec<RevisionRow<'a>>)
    ensures
        said_rows(r@) == entries@.map_values(|e: stash::Entry| stash_row(e)),
{
    let ghost all = entries@.map_values(|e: stash::Entry| stash_row(e));
    let mut out: Vec<RevisionRow<'a>> = Vec::new();
    for i in 0..entries.len()
        invariant
            all == entries@.map_values(|e: stash::Entry| stash_row(e)),
            said_rows(out@) =~= all.take(i as int),
    {
        let e = &entries[i];
        let ghost before = said_rows(out@);
        let row = RevisionRow {
            short: e.selector.as_str(),
            author: e.author.as_str(),
            author_time: e.author_time,
            label: e.message.as_str(),
            track: None,
            current: false,
            rail: None,
        };
        assert(all[i as int] == row.said());
        out.push(row);
        assert(said_rows(out@) =~= before.push(row.said()));
    }
    assert(all.take(all.len() as int) =~= all);
    out
}

fn branch_rows<'a>(entries: &'a Vec<branch::Branch>) -> (r: Vec<RevisionRow<'a>>)
    ensures
        said_rows(r@) == entries@.map_values(|e: branch::Branch| branch_row(e)),
{
    let ghost all = entries@.map_values(|e: branch::Branch| branch_row(e));
    let mut out: Vec<RevisionRow<'a>> = Vec::new();
    for i in 0..entries.len()
        invariant
            all == entries@.map_values(|e: branch::Branch| branch_row(e)),
            said_rows(out@) =~= all.take(i as int),
    {
        let e = &entries[i];
        let ghost before = said_rows(out@);
        let row = RevisionRow {
            short: e.name.as_str(),
            author: e.author.as_str(),
            author_time: e.committed,
            label: e.subject.as_str(),
            track: e.track,
            current: e.current,
            rail: None,
        };
        assert(all[i as int] == row.said());
        out.push(row);
        assert(said_rows(out@) =~= before.push(row.said()));
    }
    assert(all.take(all.len() as int) =~= all);
    out
}

fn drawn<'a>(row: &'a graph::Row) -> (r: RevisionRow<'a>)
    ensures
        r.said() == graph_row(*row),
{
    match row {
        graph::Row::Commit { rail, short, author, author_time, subject, .. } => RevisionRow {
            short: short.as_str(),
            author: author.as_str(),
            author_time: *author_time,
            label: subject.as_str(),
            track: None,
            current: false,
            rail: Some(rail.as_str()),
        },
        graph::Row::Connector { rail } => RevisionRow {
            short: "",
            author: "",
            author_time: 0,
            label: "",
            track: None,
            current: false,
            rail: Some(rail.as_str()),
        },
    }
}

fn graph_rows<'a>(rows: &'a Vec<graph::Row>) -> (r: Vec<RevisionRow<'a>>)
    ensures
        said_rows(r@) == rows@.map_values(|r: graph::Row| graph_row(r)),
{
    let ghost all = rows@.map_values(|r: graph::Row| graph_row(r));
    let mut out: Vec<RevisionRow<'a>> = Vec::new();
    for i in 0..rows.len()
        invariant
            all == rows@.map_values(|r: graph::Row| graph_row(r)),
            said_rows(out@) =~= all.take(i as int),
    {
        let ghost before = said_rows(out@);
        let row = drawn(&rows[i]);
        assert(all[i as int] == row.said());
        out.push(row);
        assert(said_rows(out@) =~= before.push(row.said()));
    }
    assert(all.take(all.len() as int) =~= all);
    out
}

/// The title of the pane that a list is in.
pub open spec fn title_of(list: RevisionList) -> Seq<char> {
    match list {
        RevisionList::History { path, .. } => " history of "@ + path@ + " "@,
        RevisionList::Stash { .. } => " stashes "@,
        RevisionList::Branches { .. } => " branches "@,
        RevisionList::Graph { .. } => " history "@,
    }
}

/// What is said of the diff once it is pointed at an entry, where the entry is
/// one that a diff can be pointed at.
pub open spec fn summary_of(list: RevisionList, at: int) -> Option<Seq<char>> {
    match list {
        RevisionList::History { entries, .. } => if 0 <= at < entries@.len() {
            Some(entries@[at].short@ + " — "@ + entries@[at].subject@)
        } else {
            None
        },
        RevisionList::Stash { entries } => if 0 <= at < entries@.len() {
            Some(entries@[at].selector@ + " — "@ + entries@[at].message@)
        } else {
            None
        },
        RevisionList::Branches { entries } => if 0 <= at < entries@.len() {
            Some("what "@ + entries@[at].name@ + " does not have"@)
        } else {
            None
        },
        RevisionList::Graph { rows } => if 0 <= at < rows@.len() {
            match rows@[at] {
                graph::Row::Commit { short, subject, .. } => Some(short@ + " — "@ + subject@),
                graph::Row::Connector { .. } => None,
            }
        } else {
            None
        },
    }
}

/// Whether a base, or why there is none, is what git's answers make of an entry:
/// compare against the chosen commit's *parent*, so that the pane shows what
/// that commit or stash holds, and against where a branch diverged.
pub open spec fn base_chosen(
    list: RevisionList,
    at: int,
    parent: Result<Vec<u8>, GitError>,
    resolved: Result<Vec<u8>, GitError>,
    base: Result<Base, GitError>,
) -> bool {
    match list {
        RevisionList::History { entries, .. } => history::is_base_for(
            entries@[at],
            parent,
            resolved,
            base,
        ),
        RevisionList::Stash { entries } => stash::is_base_for(entries@[at], resolved, base),
        RevisionList::Branches { entries } => branch::is_base_for(entries@[at], resolved, base),
        RevisionList::Graph { rows } => rows@[at] matches graph::Row::Commit { commit, .. }
            && is_revision(commit@ + "^"@, resolved, base),
    }
}

/// Whether a question is the one that asks what a name stands for.
pub open spec fn asks_what(question: Option<Query>, name: Seq<char>) -> bool {
    question matches Some(Query::Verify { name: asked }) && asked@ == name
}

/// Whether two questions are those that an entry raises: whether its commit has
/// a parent, where only a history asks that, and what the revision to compare
/// against resolves to. The branch that is checked out raises none: comparing it
/// with itself is refused without asking. Nor does a row without a revision.
pub open spec fn raises(
    list: RevisionList,
    at: int,
    parent: Option<Query>,
    resolved: Option<Query>,
) -> bool {
    match list {
        RevisionList::History { entries, .. } => if 0 <= at < entries@.len() {
            let name = entries@[at].commit@ + "^"@;
            &&& parent matches Some(Query::Parent { name: asked }) && asked@ == name
            &&& asks_what(resolved, name)
        } else {
            parent is None && resolved is None
        },
        RevisionList::Stash { entries } => parent is None && if 0 <= at < entries@.len() {
            asks_what(resolved, entries@[at].commit@ + "^"@)
        } else {
            resolved is None
        },
        RevisionList::Branches { entries } => parent is None && if 0 <= at < entries@.len()
            && !entries@[at].current {
            resolved matches Some(Query::MeetingBranch { name }) && name@ == entries@[at].name@
        } else {
            resolved is None
        },
        RevisionList::Graph { rows } => parent is None && if 0 <= at < rows@.len() {
            match rows@[at] {
                graph::Row::Commit { commit, .. } => asks_what(resolved, commit@ + "^"@),
                graph::Row::Connector { .. } => resolved is None,
            }
        } else {
            resolved is None
        },
    }
}

impl Revisions {
    /// How many entries the list holds.
    pub fn len(&self) -> (r: usize)
        ensures
            r == list_len(self.kind),
    {
        match &self.kind {
            RevisionList::History { entries, .. } => entries.len(),
            RevisionList::Stash { entries } => entries.len(),
            RevisionList::Branches { entries } => entries.len(),
            RevisionList::Graph { rows } => rows.len(),
        }
    }

    pub fn is_empty(&self) -> (r: bool)
        ensures
            r == (list_len(self.kind) == 0),
    {
        self.len() == 0
    }

    /// What the pane's title should say.
    pub fn title(&self) -> (r: String)
        ensures
            r@ == title_of(self.kind),
    {
        match &self.kind {
            RevisionList::History { path, .. } => glue(" history of ", path.as_str(), " "),
            RevisionList::Stash { .. } => " stashes ".to_owned(),
            RevisionList::Branches { .. } => " branches ".to_owned(),
            RevisionList::Graph { .. } => " history ".to_owned(),
        }
    }

    /// The history entry under the cursor, when this is a history list.
    ///
    /// `None` for the other lists — they hold different types, and a caller
    /// asking for one has a specific kind in mind.
    pub fn current_commit(&self) -> (r: Option<&history::Entry>)
        ensures
            match (self.kind, r) {
                (RevisionList::History { entries, .. }, Some(e)) => self.selected < entries@.len()
                    && *e == entries@[self.selected as int],
                (RevisionList::History { entries, .. }, None) => self.selected >= entries@.len(),
                (_, Some(_)) => false,
                (_, None) => true,
            },
    {
        match &self.kind {
            RevisionList::History { entries, .. } => if self.selected < entries.len() {
                Some(&entries[self.selected])
            } else {
                None
            },
            _ => None,
        }
    }

    /// The stash entry under the cursor, when this is a stash list.
    pub fn current_stash(&self) -> (r: Option<&stash::Entry>)
        ensures
            match (self.kind, r) {
                (RevisionList::Stash { entries }, Some(e)) => self.selected < entries@.len() && *e
                    == entries@[self.selected as int],
                (RevisionList::Stash { entries }, None) => self.selected >= entries@.len(),
                (_, Some(_)) => false,
                (_, None) => true,
            },
    {
        match &self.kind {
            RevisionList::Stash { entries } => if self.selected < entries.len() {
                Some(&entries[self.selected])
            } else {
                None
            },
            _ => None,
        }
    }

    /// Whether the cursor may rest on this row.
    ///
    /// Every row of every list except the graph, where the connector lines
    /// between commits carry no revision to point a diff at.
    pub fn is_selectable(&self, at: usize) -> (r: bool)
        ensures
            r == selectable(self.kind, at as int),
    {
        match &self.kind {
            RevisionList::Graph { rows } => at < rows.len() && rows[at].is_commit(),
            _ => at < self.len(),
        }
    }

    /// The next row the cursor may rest on, after `from`.
    ///
    /// Stays where it is when there is nothing selectable further down, so the
    /// cursor stops at the last commit rather than sliding onto the trailing
    /// connectors of a merge.
    fn next_selectable(&self, from: usize) -> (r: usize)
        ensures
            r == selectable_from(self.kind, from + 1, from),
    {
        let len = self.len();
        if from >= len {
            return from;
        }
        let mut at: usize = from + 1;
        while at < len
            invariant
                from + 1 <= at <= len,
                len == list_len(self.kind),
                selectable_from(self.kind, from + 1, from) == selectable_from(
                    self.kind,
                    at as int,
                    from,
                ),
            decreases len - at,
        {
            if self.is_selectable(at) {
                return at;
            }
            at += 1;
        }
        from
    }

    /// The previous row the cursor may rest on, before `from`.
    fn previous_selectable(&self, from: usize) -> (r: usize)
        ensures
            r == selectable_below(self.kind, from as int, from),
    {
        let mut at: usize = from;
        while at > 0
            invariant
                at <= from,
                selectable_below(self.kind, from as int, from) == selectable_below(
                    self.kind,
                    at as int,
                    from,
                ),
            decreases at,
        {
            at -= 1;
            if self.is_selectable(at) {
                return at;
            }
        }
        from
    }

    /// The rows to draw, in order.
    pub fn rows(&self) -> (r: Vec<RevisionRow<'_>>)
        ensures
            said_rows(r@) == rows_in(self.kind),
    {
        match &self.kind {
            RevisionList::History { entries, .. } => history_rows(entries),
            RevisionList::Stash { entries } => stash_rows(entries),
            RevisionList::Branches { entries } => branch_rows(entries),
            RevisionList::Graph { rows } => graph_rows(rows),
        }
    }

    /// What git is to be asked about the entry under the cursor before the diff
    /// can be pointed at it: whether its commit has a parent, and what the
    /// revision to compare against resolves to.
    pub fn questions(&self) -> (r: (Option<Query>, Option<Query>))
        ensures
            raises(self.kind, self.selected as int, r.0, r.1),
    {
        let at = self.selected;
        match &self.kind {
            RevisionList::History { entries, .. } => if at < entries.len() {
                (
                    Some(Query::Parent { name: entries[at].parent() }),
                    Some(Query::Verify { name: entries[at].parent() }),
                )
            } else {
                (None, None)
            },
            RevisionList::Stash { entries } => if at < entries.len() {
                (None, Some(Query::Verify { name: entries[at].parent() }))
            } else {
                (None, None)
            },
            RevisionList::Branches { entries } => if at < entries.len() && !entries[at].current {
                (None, Some(Query::MeetingBranch { name: entries[at].name.clone() }))
            } else {
                (None, None)
            },
            RevisionList::Graph { rows } => if at < rows.len() {
                match &rows[at] {
                    graph::Row::Commit { commit, .. } => (
                        None,
                        Some(Query::Verify { name: commit.clone().concat("^") }),
                    ),
                    graph::Row::Connector { .. } => (None, None),
                }
            } else {
                (None, None)
            },
        }
    }

    /// What the diff is pointed at by the entry under the cursor, and what is
    /// said of it, given what git answered about the entry: whether the commit
    /// has a parent, and what the revision to compare against resolved to.
    ///
    /// A connector of the graph carries no revision. The cursor should never be
    /// on one, but pressing Enter there must do nothing rather than point the
    /// diff somewhere arbitrary.
    pub fn chosen(
        &self,
        parent: &Result<Vec<u8>, GitError>,
        resolved: Result<Vec<u8>, GitError>,
    ) -> (r: Option<(Result<Base, GitError>, String)>)
        ensures
            match (r, summary_of(self.kind, self.selected as int)) {
                (Some((base, summary)), Some(said)) => summary@ == said && base_chosen(
                    self.kind,
                    self.selected as int,
                    *parent,
                    resolved,
                    base,
                ),
                (None, None) => true,
                _ => false,
            },
    {
        let at = self.selected;
        match &self.kind {
            RevisionList::History { entries, .. } => if at < entries.len() {
                let entry = &entries[at];
                Some(
                    (
                        history::base_for(entry, parent, resolved),
                        glue(entry.short.as_str(), " — ", entry.subject.as_str()),
                    ),
                )
            } else {
                None
            },
            RevisionList::Stash { entries } => if at < entries.len() {
                let entry = &entries[at];
                Some(
                    (
                        stash::base_for(entry, resolved),
                        glue(entry.selector.as_str(), " — ", entry.message.as_str()),
                    ),
                )
            } else {
                None
            },
            RevisionList::Branches { entries } => if at < entries.len() {
                let entry = &entries[at];
                Some(
                    (
                        branch::base_for(entry, resolved),
                        glue("what ", entry.name.as_str(), " does not have"),
                    ),
                )
            } else {
                None
            },
            RevisionList::Graph { rows } => if at < rows.len() {
                match &rows[at] {
                    graph::Row::Commit { commit, short, subject, .. } => Some(
                        (
                            resolve(commit.clone().concat("^").as_str(), resolved),
                            glue(short.as_str(), " — ", subject.as_str()),
                        ),
                    ),
                    graph::Row::Connector { .. } => None,
                }
            } else {
                None
            },
        }
    }
}

/// Whether an app is another one with a list opened in the diff pane.
pub open spec fn opened(before: App, after: App, revisions: Revisions) -> bool {
    after == (App { view: View { revisions: Some(revisions), ..before.view }, ..before })
}

/// Whether an app is another one with its list closed, leaving the diff as it
/// was.
pub open spec fn closed(before: App, after: App) -> bool {
    after == (App {
        view: View { revisions: None, ..before.view },
        input: Input { delegating: None, ..before.input },
        ..before
    })
}

/// The first row from the `i`-th on that is a commit, or the first row of all.
pub open spec fn first_commit(rows: Seq<graph::Row>, i: int) -> usize
    decreases rows.len() - i,
{
    if i < 0 || i >= rows.len() {
        0
    } else if rows[i] is Commit {
        i as usize
    } else {
        first_commit(rows, i + 1)
    }
}

fn commit_at(rows: &Vec<graph::Row>) -> (r: usize)
    ensures
        r == first_commit(rows@, 0),
{
    for i in 0..rows.len()
        invariant
            first_commit(rows@, 0) == first_commit(rows@, i as int),
    {
        if rows[i].is_commit() {
            return i;
        }
    }
    0
}

impl App {
    /// Open or close the history of the selected file, given the commits that
    /// touched it.
    ///
    /// The list shares the diff pane, so opening it replaces the diff and
    /// closing it brings the diff back — which is why nothing about the diff is
    /// discarded here.
    ///
    /// An untracked file, or one nobody has committed, has no history. Saying so
    /// is better than opening an empty list that looks broken.
    pub fn toggle_history(self, entries: Vec<history::Entry>) -> (r: Self)
        ensures
            self.view.revisions is Some ==> closed(self, r),
            self.view.revisions is None && self.spot() is None ==> noticed(
                self,
                r,
                "select a file to see its history"@,
                true,
            ),
            self.view.revisions is None && self.spot() is Some && entries@.len() == 0 ==> noticed(
                self,
                r,
                self.stray_here().path@ + " has no commits yet"@,
                false,
            ),
            self.view.revisions is None && self.spot() is Some && entries@.len() > 0 ==> {
                &&& r.view.revisions matches Some(list)
                &&& list.selected == 0
                &&& list.kind matches RevisionList::History { path, entries: held }
                &&& path@ == self.stray_here().path@
                &&& held == entries
                &&& opened(self, r, list)
            },
    {
        if self.view.revisions.is_some() {
            return self.close_revisions();
        }
        let path = match self.selected_stray() {
            Some((_, stray)) => stray.path.clone(),
            None => {
                return self.refused("select a file to see its history");
            },
        };
        if entries.len() == 0 {
            return self.with_notice(Notice::info(path.concat(" has no commits yet")));
        }
        self.with_list(RevisionList::History { path, entries }, 0)
    }

    /// Open or close the list of stashes, given what has been set aside.
    ///
    /// Belongs to the repository rather than to the selected file, so unlike
    /// the history it does not need a file under the cursor.
    pub fn toggle_stashes(self, entries: Vec<stash::Entry>) -> (r: Self)
        ensures
            self.view.revisions is Some ==> closed(self, r),
            self.view.revisions is None && self.data.projects@.len() == 0 ==> r == self,
            self.view.revisions is None && self.data.projects@.len() > 0 && entries@.len() == 0
                ==> noticed(self, r, "nothing stashed"@, false),
            self.view.revisions is None && self.data.projects@.len() > 0 && entries@.len() > 0
                ==> opened(
                self,
                r,
                Revisions { kind: RevisionList::Stash { entries }, selected: 0 },
            ),
    {
        if self.view.revisions.is_some() {
            return self.close_revisions();
        }
        if self.data.projects.len() == 0 {
            return self;
        }
        if entries.len() == 0 {
            return self.told("nothing stashed");
        }
        self.with_list(RevisionList::Stash { entries }, 0)
    }

    /// Open or close the list of branches, given the branches there are.
    ///
    /// Like the stashes and unlike the history, this belongs to the repository
    /// rather than to the selected file.
    pub fn toggle_branches(self, entries: Vec<branch::Branch>) -> (r: Self)
        ensures
            self.view.revisions is Some ==> closed(self, r),
            self.view.revisions is None && self.data.projects@.len() == 0 ==> r == self,
            self.view.revisions is None && self.data.projects@.len() > 0 && entries@.len() == 0
                ==> noticed(self, r, "no branches"@, false),
            self.view.revisions is None && self.data.projects@.len() > 0 && entries@.len() > 0
                ==> opened(
                self,
                r,
                Revisions { kind: RevisionList::Branches { entries }, selected: 0 },
            ),
    {
        if self.view.revisions.is_some() {
            return self.close_revisions();
        }
        if self.data.projects.len() == 0 {
            return self;
        }
        if entries.len() == 0 {
            return self.told("no branches");
        }
        self.with_list(RevisionList::Branches { entries }, 0)
    }

    /// Open or close the graph of recent history, given the drawing of it.
    ///
    /// Starts on the first row that is actually a commit. Opening onto a
    /// connector would put the cursor somewhere Enter cannot act.
    pub fn toggle_graph(self, rows: Vec<graph::Row>) -> (r: Self)
        ensures
            self.view.revisions is Some ==> closed(self, r),
            self.view.revisions is None && self.data.projects@.len() == 0 ==> r == self,
            self.view.revisions is None && self.data.projects@.len() > 0 && rows@.len() == 0
                ==> noticed(self, r, "no commits yet"@, false),
            self.view.revisions is None && self.data.projects@.len() > 0 && rows@.len() > 0
                ==> opened(
                self,
                r,
                Revisions { kind: RevisionList::Graph { rows }, selected: first_commit(rows@, 0) },
            ),
    {
        if self.view.revisions.is_some() {
            return self.close_revisions();
        }
        if self.data.projects.len() == 0 {
            return self;
        }
        if rows.len() == 0 {
            return self.told("no commits yet");
        }
        let selected = commit_at(&rows);
        self.with_list(RevisionList::Graph { rows }, selected)
    }

    fn with_list(self, kind: RevisionList, selected: usize) -> (r: Self)
        ensures
            opened(self, r, Revisions { kind, selected }),
    {
        App {
            view: View { revisions: Some(Revisions { kind, selected }), ..self.view },
            ..self
        }
    }

    /// Close whichever revision list is open, leaving the diff as it was.
    pub(crate) fn close_revisions(self) -> (r: Self)
        ensures
            closed(self, r),
    {
        App {
            view: View { revisions: None, ..self.view },
            input: Input { delegating: None, ..self.input },
            ..self
        }
    }

    /// Move down the open revision list.
    pub fn revisions_next(self) -> (r: Self)
        ensures
            match self.view.revisions {
                None => closed(self, r),
                Some(list) => opened(
                    self,
                    r,
                    Revisions {
                        selected: selectable_from(list.kind, list.selected + 1, list.selected),
                        ..list
                    },
                ),
            },
    {
        let selected = match &self.view.revisions {
            Some(list) => list.next_selectable(list.selected),
            None => {
                return self.close_revisions();
            },
        };
        self.with_cursor(selected)
    }

    /// Move up the open revision list.
    pub fn revisions_previous(self) -> (r: Self)
        ensures
            match self.view.revisions {
                None => closed(self, r),
                Some(list) => opened(
                    self,
                    r,
                    Revisions {
                        selected: selectable_below(
                            list.kind,
                            list.selected as int,
                            list.selected,
                        ),
                        ..list
                    },
                ),
            },
    {
        let selected = match &self.view.revisions {
            Some(list) => list.previous_selectable(list.selected),
            None => {
                return self.close_revisions();
            },
        };
        self.with_cursor(selected)
    }

    fn with_cursor(self, selected: usize) -> (r: Self)
        requires
            self.view.revisions is Some,
        ensures
            opened(self, r, Revisions { selected, ..self.view.revisions->Some_0 }),
    {
        match self.view.revisions {
            Some(list) => App {
                view: View { revisions: Some(Revisions { selected, ..list }), ..self.view },
                ..self
            },
            None => App { view: View { revisions: None, ..self.view }, ..self },
        }
    }

    /// Point the diff at whatever the revision cursor is on, given what git
    /// answered about the entry — see [`Revisions::chosen`].
    ///
    /// The lists mean the same thing by it: the pane shows what that commit or
    /// stash holds rather than everything that has happened since. The list
    /// closes, because the answer it was asked for is now on screen.
    ///
    /// A failure — a root commit with nothing before it — is reported and the
    /// list stays open, so another entry can be chosen without reopening it.
    pub fn show_revision(
        self,
        parent: &Result<Vec<u8>, GitError>,
        resolved: Result<Vec<u8>, GitError>,
    ) -> (r: Self)
        ensures
            self.view.revisions is None || self.data.projects@.len() == 0 ==> r == self,
            self.view.revisions is Some && self.data.projects@.len() > 0 ==> {
                let list = self.view.revisions->Some_0;
                match summary_of(list.kind, list.selected as int) {
                    None => r == self,
                    Some(summary) => exists|base: Result<Base, GitError>| #[trigger]
                        base_chosen(
                            list.kind,
                            list.selected as int,
                            *parent,
                            resolved,
                            base,
                        ) && revision_shown(self, base, summary, r),
                }
            },
    {
        if self.data.projects.len() == 0 {
            return self;
        }
        let (base, summary) = match &self.view.revisions {
            Some(list) => match list.chosen(parent, resolved) {
                Some(found) => found,
                None => {
                    return self;
                },
            },
            None => {
                return self;
            },
        };
        let ghost was = base;
        let r = match base {
            Ok(base) => {
                let rebased = self.with_base(base);
                App {
                    view: View { revisions: None, notice: Some(Notice::info(summary)), ..rebased.view },
                    input: Input { delegating: None, ..rebased.input },
                    ..rebased
                }
            },
            Err(e) => self.with_notice(Notice::error(e.message())),
        };
        assert(revision_shown(self, was, summary@, r));
        r
    }
}

/// Whether an app is another one with its diff pointed at a revision, or that
/// says why it is not.
pub open spec fn revision_shown(
    before: App,
    base: Result<Base, GitError>,
    summary: Seq<char>,
    after: App,
) -> bool {
    match base {
        Ok(base) => {
            &&& says(after.view.notice, summary, false)
            &&& after == (App {
                data: Data { base, scanning: true, ..before.data },
                view: View {
                    diff_scroll: 0,
                    diff_cursor: 0,
                    revisions: None,
                    notice: after.view.notice,
                    ..before.view
                },
                input: Input { annotating: None, delegating: None, ..before.input },
                ..before
            })
        },
        Err(e) => noticed(before, after, e.text(), true),
    }
}

/// The cursor of a list never leaves what it may rest on.
pub proof fn moving_stays_selectable(list: RevisionList, at: usize)
    requires
        selectable(list, at as int),
        list_len(list) <= usize::MAX,
    ensures
        selectable(list, selectable_from(list, at + 1, at) as int),
        selectable(list, selectable_below(list, at as int, at) as int),
{
    lemma_from(list, at + 1, at);
    lemma_below(list, at as int, at);
}

proof fn lemma_from(list: RevisionList, at: int, otherwise: usize)
    requires
        0 <= at,
        selectable(list, otherwise as int),
        list_len(list) <= usize::MAX,
    ensures
        selectable(list, selectable_from(list, at, otherwise) as int),
    decreases list_len(list) - at,
{
    if at < list_len(list) && !selectable(list, at) {
        lemma_from(list, at + 1, otherwise);
    }
}

proof fn lemma_below(list: RevisionList, at: int, otherwise: usize)
    requires
        at <= otherwise,
        selectable(list, otherwise as int),
    ensures
        selectable(list, selectable_below(list, at, otherwise) as int),
    decreases at,
{
    if at > 0 && !selectable(list, at - 1) {
        lemma_below(list, at - 1, otherwise);
    }
}

} // verus!
