//! What the viewer keeps, and what it finds again.

use vstd::prelude::*;
use vstd::view::View as _;

use crate::annotate::{found, Annotation, Kind};
use crate::app::annotating::{located_in, number_here, orphans_in, recorded, remaining};
use crate::app::delegating::begun;
use crate::app::drilling::{entered, trail};
use crate::app::filtering::file_count;
use crate::app::loading::latest;
use crate::app::revisions::{
    list_len, rows_in, selectable, selectable_below, selectable_from, RevisionList,
};
use crate::app::scanning::{folded_in, rooted_at, same_request, ScanRequest};
use crate::app::scroll::wound;
use crate::app::{clamp, diff_shown, stray_count, with_fallback, App, Layer};
use crate::delegate::Scope;
use crate::discover::{directory_name, Project};
use crate::git::base::Base;
use crate::git::graph;
use crate::git::run::GitError;
use crate::model::{Diff, DiffLine, Stray};
use crate::paths::same_path;
use crate::text::reading::{blank, trimming_leaves_the_middle};
use crate::text::trimmed;
use crate::tree::{ProjectStrays, Row};

verus! {

proof fn lemma_rooted(projects: Seq<ProjectStrays>, root: Seq<char>, i: int)
    requires
        0 <= i <= projects.len(),
    ensures
        match rooted_at(projects, root, i) {
            Some(at) => i <= at < projects.len() && same_path(projects[at].project.root@, root)
                && forall|j: int|
                i <= j < at ==> !same_path((#[trigger] projects[j]).project.root@, root),
            None => forall|j: int|
                i <= j < projects.len() ==> !same_path(
                    (#[trigger] projects[j]).project.root@,
                    root,
                ),
        },
    decreases projects.len() - i,
{
    if i < projects.len() && !same_path(projects[i].project.root@, root) {
        lemma_rooted(projects, root, i + 1);
    }
}

/// What was read of a project replaces what was known of it and of no other, and
/// changes neither what is folded nor what is noted nor what is compared against. A
/// project that is no longer listed is not put back.
pub proof fn a_scan_changes_one_project(before: App, scanned: ProjectStrays, after: App, i: int)
    requires
        folded_in(before, scanned, after),
        0 <= i < before.data.projects@.len(),
    ensures
        after.data.projects@.len() == before.data.projects@.len(),
        !same_path(before.data.projects@[i].project.root@, scanned.project.root@)
            ==> after.data.projects@[i] == before.data.projects@[i],
        same_path(before.data.projects@[i].project.root@, scanned.project.root@) ==> exists|j: int|
            0 <= j <= i && #[trigger] after.data.projects@[j] == scanned,
        after.view.collapsed == before.view.collapsed,
        after.data.annotations == before.data.annotations,
        after.data.base == before.data.base,
        after.input == before.input,
{
    lemma_rooted(before.data.projects@, scanned.project.root@, 0);
    match rooted_at(before.data.projects@, scanned.project.root@, 0) {
        Some(at) => {
            assert(after.data.projects@[at] == scanned);
        },
        None => {},
    }
}

/// Whether two bases are compared against the same commit under the same name.
pub open spec fn compares_alike(a: Base, b: Base) -> bool {
    a.title() == b.title() && a.revision() == b.revision()
}

/// A request is the one that is being read only where it is for the same projects,
/// of the same files, against the same commit, and asked for as often.
pub proof fn a_request_for_other_work_is_another(a: ScanRequest, b: ScanRequest, i: int)
    ensures
        same_request(a, a),
        same_request(a, b) ==> same_request(b, a),
        same_request(a, b) ==> a.show_all == b.show_all && a.refreshes == b.refreshes
            && compares_alike(a.base, b.base) && a.projects@.len() == b.projects@.len(),
        same_request(a, b) && 0 <= i < a.projects@.len() ==> same_path(
            a.projects@[i].root@,
            b.projects@[i].root@,
        ) && a.projects@[i].name@ == b.projects@[i].name@,
{
    if same_request(a, b) {
        assert forall|j: int| 0 <= j < b.projects@.len() implies same_path(
            (#[trigger] b.projects@[j]).root@,
            a.projects@[j].root@,
        ) && b.projects@[j].name@ == a.projects@[j].name@ by {
            assert(same_path(a.projects@[j].root@, b.projects@[j].root@));
        }
    }
}

/// How many of the first `n` notes are on a file.
pub open spec fn notes_on(notes: Seq<Annotation>, file: Seq<char>, n: int) -> int
    decreases n,
{
    if n <= 0 || n > notes.len() {
        0
    } else {
        notes_on(notes, file, n - 1) + (if same_path(notes[n - 1].anchor.file@, file) {
            1int
        } else {
            0
        })
    }
}

/// Whether a note on a file is found again at a line.
pub open spec fn found_at(
    notes: Seq<Annotation>,
    file: Seq<char>,
    lines: Seq<DiffLine>,
    i: int,
    at: u32,
    kind: Kind,
) -> bool {
    &&& 0 <= i < notes.len()
    &&& same_path(notes[i].anchor.file@, file)
    &&& found(lines, notes[i].anchor.line, notes[i].anchor.hash).place() == Some(at)
    &&& notes[i].kind == kind
}

/// Every note on a file is shown where it is found again, with its kind, and counted
/// as lost where it is not; and nothing else is shown.
pub proof fn every_note_is_shown_or_lost(
    notes: Seq<Annotation>,
    file: Seq<char>,
    lines: Seq<DiffLine>,
    n: int,
)
    requires
        0 <= n <= notes.len(),
    ensures
        located_in(notes, file, lines, n).len() + orphans_in(notes, file, lines, n) == notes_on(
            notes,
            file,
            n,
        ),
        forall|at: u32, kind: Kind|
            #[trigger] located_in(notes, file, lines, n).contains((at, kind)) <==> exists|i: int|
                i < n && #[trigger] found_at(notes, file, lines, i, at, kind),
    decreases n,
{
    if n > 0 {
        every_note_is_shown_or_lost(notes, file, lines, n - 1);
        let before = located_in(notes, file, lines, n - 1);
        let now = located_in(notes, file, lines, n);
        assert forall|at: u32, kind: Kind| #[trigger]
            now.contains((at, kind)) <==> exists|i: int|
                i < n && #[trigger] found_at(notes, file, lines, i, at, kind) by {
            if now.contains((at, kind)) {
                let k = now.index_of((at, kind));
                if k < before.len() {
                    assert(before[k] == (at, kind));
                    assert(before.contains((at, kind)));
                    let i = choose|i: int|
                        i < n - 1 && #[trigger] found_at(notes, file, lines, i, at, kind);
                    assert(i < n && found_at(notes, file, lines, i, at, kind));
                } else {
                    assert(found_at(notes, file, lines, n - 1, at, kind));
                }
            }
            if exists|i: int| i < n && #[trigger] found_at(notes, file, lines, i, at, kind) {
                let i = choose|i: int| i < n && #[trigger] found_at(notes, file, lines, i, at, kind);
                if i < n - 1 {
                    assert(before.contains((at, kind)));
                    let k = before.index_of((at, kind));
                    assert(now[k] == (at, kind));
                } else {
                    assert(now[now.len() - 1] == (at, kind));
                }
            }
        }
    } else {
        assert forall|at: u32, kind: Kind| #[trigger]
            located_in(notes, file, lines, n).contains((at, kind)) <==> exists|i: int|
                i < n && #[trigger] found_at(notes, file, lines, i, at, kind) by {}
    }
}

/// Moving on in a list goes to the very next entry that the cursor can rest on, and
/// moving back to the one right before; where there is none the cursor stays.
pub proof fn the_cursor_moves_to_its_neighbour(list: RevisionList, at: int, otherwise: usize)
    requires
        0 <= at <= list_len(list),
        list_len(list) <= usize::MAX,
    ensures
        ({
            let next = selectable_from(list, at, otherwise);
            ||| at <= next < list_len(list) && selectable(list, next as int) && forall|j: int|
                at <= j < next ==> !#[trigger] selectable(list, j)
            ||| next == otherwise && forall|j: int|
                at <= j < list_len(list) ==> !#[trigger] selectable(list, j)
        }),
        ({
            let previous = selectable_below(list, at, otherwise);
            ||| 0 <= previous < at && selectable(list, previous as int) && forall|j: int|
                previous < j < at ==> !#[trigger] selectable(list, j)
            ||| previous == otherwise && forall|j: int|
                0 <= j < at ==> !#[trigger] selectable(list, j)
        }),
{
    lemma_next(list, at, otherwise);
    lemma_previous(list, at, otherwise);
}

proof fn lemma_next(list: RevisionList, at: int, otherwise: usize)
    requires
        0 <= at <= list_len(list),
        list_len(list) <= usize::MAX,
    ensures
        ({
            let next = selectable_from(list, at, otherwise);
            ||| at <= next < list_len(list) && selectable(list, next as int) && forall|j: int|
                at <= j < next ==> !#[trigger] selectable(list, j)
            ||| next == otherwise && forall|j: int|
                at <= j < list_len(list) ==> !#[trigger] selectable(list, j)
        }),
    decreases list_len(list) - at,
{
    if at < list_len(list) && !selectable(list, at) {
        lemma_next(list, at + 1, otherwise);
    }
}

proof fn lemma_previous(list: RevisionList, at: int, otherwise: usize)
    requires
        0 <= at <= list_len(list),
        list_len(list) <= usize::MAX,
    ensures
        ({
            let previous = selectable_below(list, at, otherwise);
            ||| 0 <= previous < at && selectable(list, previous as int) && forall|j: int|
                previous < j < at ==> !#[trigger] selectable(list, j)
            ||| previous == otherwise && forall|j: int|
                0 <= j < at ==> !#[trigger] selectable(list, j)
        }),
    decreases at,
{
    if at > 0 && !selectable(list, at - 1) {
        lemma_previous(list, at - 1, otherwise);
    }
}

/// A project was last touched when the last of the files in it that changed was, of
/// those whose time is known.
pub proof fn the_latest_change_counts(strays: Seq<Stray>, times: Seq<Option<u64>>, n: int)
    requires
        0 <= n <= strays.len(),
        times.len() == strays.len(),
    ensures
        match latest(strays, times, n) {
            Some(t) => {
                &&& exists|i: int|
                    0 <= i < n && !((#[trigger] strays[i]).status is Unchanged) && times[i] == Some(t)
                &&& forall|i: int|
                    0 <= i < n && !((#[trigger] strays[i]).status is Unchanged) && times[i] is Some
                        ==> times[i]->0 <= t
            },
            None => forall|i: int|
                0 <= i < n && !((#[trigger] strays[i]).status is Unchanged) ==> times[i] is None,
        },
    decreases n,
{
    if n > 0 {
        the_latest_change_counts(strays, times, n - 1);
        let rest = latest(strays, times, n - 1);
        let now = latest(strays, times, n);
        if let Some(t) = now {
            if rest == now {
                let i = choose|i: int|
                    0 <= i < n - 1 && !((#[trigger] strays[i]).status is Unchanged) && times[i]
                        == Some(t);
                assert(0 <= i < n && !(strays[i].status is Unchanged) && times[i] == Some(t));
            } else {
                assert(!(strays[n - 1].status is Unchanged) && times[n - 1] == Some(t));
            }
        }
    }
}

/// Scrolling goes as far as it is asked to and no further than the ends, and
/// scrolling back undoes it where it did not come to an end.
pub proof fn scrolling_back_undoes_scrolling(at: u16, by: int, max: u16)
    requires
        at <= max,
    ensures
        wound(at, by, max) <= max,
        0 <= at + by <= max ==> wound(at, by, max) == at + by && wound(
            wound(at, by, max),
            -by,
            max,
        ) == at,
        at + by > max ==> wound(at, by, max) == max,
        at + by < 0 ==> wound(at, by, max) == 0,
{
}

/// A place in a list is kept while the list still has it, and is the last one else.
pub proof fn a_place_is_kept_while_it_is_there(selected: usize, len: nat)
    requires
        len <= usize::MAX,
    ensures
        selected < len ==> clamp(selected, len) == selected,
        len > 0 ==> clamp(selected, len) < len,
        selected >= len && len > 0 ==> clamp(selected, len) == len - 1,
{
}

/// Every entry of a list has its row, in its place, and the row shows the entry: the
/// name it goes by, who made it, when, and what it is about.
pub proof fn rows_show_their_entries(list: RevisionList, i: int)
    requires
        0 <= i < list_len(list),
    ensures
        rows_in(list).len() == list_len(list),
        ({
            let row = rows_in(list)[i];
            match list {
                RevisionList::History { entries, .. } => row.short == entries@[i].short@
                    && row.author == entries@[i].author@ && row.author_time
                    == entries@[i].author_time && row.label == entries@[i].subject@,
                RevisionList::Stash { entries } => row.short == entries@[i].selector@ && row.author
                    == entries@[i].author@ && row.author_time == entries@[i].author_time && row.label
                    == entries@[i].message@,
                RevisionList::Branches { entries } => row.short == entries@[i].name@ && row.author
                    == entries@[i].author@ && row.author_time == entries@[i].committed && row.label
                    == entries@[i].subject@ && row.track == entries@[i].track && row.current
                    == entries@[i].current,
                RevisionList::Graph { rows } => row.rail == Some(rows@[i].drawing()) && (
                rows@[i] matches graph::Row::Commit { short, author, author_time, subject, .. }
                    ==> row.short == short@ && row.author == author@ && row.author_time
                    == author_time && row.label == subject@),
            }
        }),
{
}

/// The strays of all projects are counted, project by project.
pub proof fn every_stray_is_counted(a: Seq<ProjectStrays>, b: Seq<ProjectStrays>, p: ProjectStrays)
    ensures
        stray_count(Seq::empty()) == 0,
        stray_count(seq![p]) == p.strays@.len(),
        stray_count(a + b) == stray_count(a) + stray_count(b),
    decreases b.len(),
{
    assert(seq![p].drop_last() =~= Seq::<ProjectStrays>::empty());
    assert(stray_count(seq![p].drop_last()) == 0);
    if b.len() == 0 {
        assert(a + b =~= a);
    } else {
        assert((a + b).drop_last() =~= a + b.drop_last());
        assert((a + b).last() == b.last());
        every_stray_is_counted(a, b.drop_last(), p);
    }
}

/// A diff that arrives is the one that is shown, with the words that changed in it,
/// and one that does not arrive leaves nothing on show and says why.
pub proof fn what_arrives_is_what_is_shown(before: App, answer: Result<Diff, GitError>, after: App)
    requires
        diff_shown(before, answer, after),
        before.spot() is Some,
    ensures
        match answer {
            Ok(diff) => after.data.diff == diff && !after.pending.diff && (diff is Text
                ==> after.data.words@.len() == diff.lines().len()),
            Err(e) => after.data.diff is Empty && !after.pending.diff && (after.view.notice matches Some(
                n,
            ) && n.text@ == e.text() && n.is_error),
        },
        after.view.selected == before.view.selected,
        after.data.projects == before.data.projects,
        after.data.annotations == before.data.annotations,
        after.input == before.input,
{
}

/// Stepping into a submodule lists that submodule alone, at its place below the
/// project that it is in, yet to be read; and the trail is one step longer.
pub proof fn stepping_in_lists_the_submodule_alone(before: App, after: App, standing: Seq<bool>)
    requires
        entered(before, after),
    ensures
        after.data.projects@.len() == 1,
        after.data.scanning,
        after.data.projects@[0].strays@.len() == 0,
        ({
            let root = after.data.projects@[0].project.root@;
            let outer = before.root_here();
            let at = before.stray_here().path@;
            &&& at.len() > 0 && at[0] != '/' && outer.len() > 0 && outer.last() != '/' ==> root == outer
                + seq!['/'] + at
            &&& trail(after.view.drilled@, standing).len() > 0 && trail(
                after.view.drilled@,
                standing,
            ).last() == directory_name(at)
            &&& before.view.drilled@.len() > 0 ==> trail(after.view.drilled@, standing).drop_last()
                == trail(before.view.drilled@, standing)
        }),
{
    let (a, b) = (before.view.drilled@, after.view.drilled@);
    let f = |layer: Layer| directory_name(layer.at@);
    assert(b =~= a.push(b.last()));
    assert(b.map_values(f) =~= a.map_values(f).push(f(b.last())));
    if a.len() > 0 {
        assert(b[0] == a[0]);
        assert(trail(b, standing).drop_last() =~= trail(a, standing));
    }
}

/// A note that says anything is kept behind those that were made before, on the line
/// it was written on, of the kind that was chosen, and without the white space around
/// it; one that says nothing is not kept. Either way the line closes.
pub proof fn a_note_is_kept_as_it_was_written(before: App, after: App)
    requires
        recorded(before, after),
        before.input.annotating is Some,
    ensures
        after.input.annotating is None,
        ({
            let line = before.input.annotating->0;
            let (was, now) = (before.data.annotations@, after.data.annotations@);
            if blank(line.text@) {
                now == was
            } else {
                &&& now.len() == was.len() + 1
                &&& forall|i: int| 0 <= i < was.len() ==> now[i] == was[i]
                &&& now.last().anchor == line.anchor
                &&& now.last().kind == line.kind
                &&& now.last().text@ == trimmed(line.text@)
            }
        }),
{
    let line = before.input.annotating->0;
    trimming_leaves_the_middle(line.text@);
    let (was, now) = (before.data.annotations@, after.data.annotations@);
    if !blank(line.text@) {
        assert forall|i: int| 0 <= i < was.len() implies now[i] == was[i] by {
            assert(now.drop_last()[i] == was[i]);
        }
    }
}

/// Taking the notes off a line takes every note on it and no other.
pub proof fn only_the_notes_on_the_line_go(app: App, note: Annotation)
    requires
        app.data.annotations@.contains(note),
        number_here(app) is Some,
    ensures
        remaining(app).contains(note) <==> !(same_path(
            note.anchor.file@,
            app.stray_here().path@,
        ) && Some(note.anchor.line) == number_here(app)),
        remaining(app).len() <= app.data.annotations@.len(),
{
    let notes = app.data.annotations@;
    let f = |a: Annotation|
        !(same_path(a.anchor.file@, app.stray_here().path@) && a.anchor.line
            == number_here(app)->Some_0);
    let i = notes.index_of(note);
    if f(note) {
        notes.lemma_filter_contains(f, i);
    }
    if notes.filter(f).contains(note) {
        let k = notes.filter(f).index_of(note);
        notes.lemma_filter_pred(f, k);
    }
    notes.lemma_filter_len(f);
}

/// Files are counted among the rows, and nothing else is.
pub proof fn only_files_are_counted(a: Seq<Row>, b: Seq<Row>, row: Row)
    ensures
        file_count(Seq::empty()) == 0,
        file_count(seq![row]) == (if row is File {
            1nat
        } else {
            0nat
        }),
        file_count(a + b) == file_count(a) + file_count(b),
    decreases b.len(),
{
    assert(seq![row].drop_last() =~= Seq::<Row>::empty());
    assert(file_count(seq![row].drop_last()) == 0);
    assert(seq![row].last() == row);
    if b.len() == 0 {
        assert(a + b =~= a);
    } else {
        assert((a + b).drop_last() =~= a + b.drop_last());
        assert((a + b).last() == b.last());
        only_files_are_counted(a, b.drop_last(), row);
    }
}

/// What the cursor is on is what an action applies to: the file, or everything where
/// it is on no file.
pub proof fn an_action_applies_to_what_the_cursor_is_on(before: App, after: App)
    requires
        begun(before, after),
    ensures
        after.input.delegating matches Some(d) && (before.spot() is Some ==> (d.scope matches Scope::File(
            path,
        ) && path@ == before.stray_here().path@)) && (before.spot() is None ==> d.scope is Everything),
        after.view == before.view,
        after.data == before.data,
{
}

/// Without a project that herdr has open the repository stood in is listed, and
/// nothing else is ever added.
pub proof fn the_repository_stood_in_is_the_last_resort(
    discovered: Seq<Project>,
    fallback: Option<Seq<char>>,
    projects: Seq<Project>,
)
    requires
        with_fallback(discovered, fallback, projects),
    ensures
        discovered.len() > 0 ==> projects == discovered,
        discovered.len() == 0 && fallback is None ==> projects.len() == 0,
        discovered.len() == 0 && fallback is Some ==> projects.len() == 1 && projects[0].root@
            == fallback->0,
{
}

} // verus!
