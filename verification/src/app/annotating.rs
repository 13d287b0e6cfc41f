//! Writing annotations on diff lines, and handing the collected review over.
//!
//! The cursor in the diff pane is separate from the scroll offset: the reader
//! scrolls to see, and marks where they are looking. While the annotation line
//! is open it owns the keyboard, exactly as the prompt line does, so a note
//! containing `q` cannot quit the viewer.

use vstd::prelude::*;
use vstd::string::*;
use vstd::view::View as _;

use crate::agent::{address, compose, composed, parcel_is, pick, Agent, Parcel, SendError};
use crate::annotate::review::{any_quoted, quoted_text, review_text};
use crate::annotate::store::{notes_in, StoreError};
use crate::annotate::{
    compose_with_comments, found, line_hash, load, note_views, Anchor, Annotation, Annotations,
    Kind, Located,
};
use crate::app::prompt::agent_in;
use crate::app::scroll::{cap, capped, row_of_cursor};
use crate::app::{noticed, says, Annotating, App, Data, Input, Notice, Pending, View};
use crate::forge::PrComment;
use crate::model::{Diff, DiffLine};
use crate::paths::{parts, same_as, same_path};
use crate::text::{
    decimal, decimal_of, lines_of, push_char, trim, trimmed, without_last,
};

verus! {

/// Where the diff is scrolled to so that a row is on screen.
pub open spec fn brought(row: int, scroll: u16, viewport: u16) -> u16 {
    let cursor = capped(row);
    let height = if viewport < 1 {
        1
    } else {
        viewport
    };
    if cursor < scroll {
        cursor
    } else if cursor >= capped(scroll + height) {
        if cursor >= height {
            (cursor - (height - 1)) as u16
        } else {
            0
        }
    } else {
        scroll
    }
}

/// Whether an app is another one scrolled so that its mark is on screen.
pub open spec fn in_view(before: App, viewport: u16, after: App) -> bool {
    after == (App {
        view: View {
            diff_scroll: brought(row_of_cursor(before), before.view.diff_scroll, viewport),
            ..before.view
        },
        ..before
    })
}

impl App {
    /// Keep the cursor inside the visible window as it moves.
    ///
    /// Called after a cursor move with the pane height, so marking a line never
    /// requires scrolling to it first.
    ///
    /// Measured in drawn rows rather than diff lines: while the split is up the
    /// two differ, and comparing a line number against a row offset would scroll
    /// to somewhere the cursor is not.
    pub fn cursor_into_view(self, viewport: u16) -> (r: Self)
        ensures
            in_view(self, viewport, r),
    {
        let cursor = cap(self.cursor_row());
        let height = if viewport < 1 {
            1
        } else {
            viewport
        };
        let diff_scroll = if cursor < self.view.diff_scroll {
            cursor
        } else if cursor >= self.view.diff_scroll.saturating_add(height) {
            cursor.saturating_sub(height - 1)
        } else {
            self.view.diff_scroll
        };
        App { view: View { diff_scroll, ..self.view }, ..self }
    }
}

/// The line of the diff under the cursor.
pub open spec fn line_here(app: App) -> Option<DiffLine> {
    if app.view.diff_cursor < app.data.diff.lines().len() {
        Some(app.data.diff.lines()[app.view.diff_cursor as int])
    } else {
        None
    }
}

/// The number in the file of the line under the cursor, where it has one.
pub open spec fn number_here(app: App) -> Option<u32> {
    match line_here(app) {
        Some(line) => line.new_line,
        None => None,
    }
}

/// Whether an app is another one with something changed about the note being
/// written, and nothing else.
pub open spec fn writing(before: App, after: App, now: Annotating) -> bool {
    &&& after.input.annotating == Some(now)
    &&& after == (App {
        input: Input { annotating: after.input.annotating, ..before.input },
        ..before
    })
}

/// Whether there is something to record: a note being written that is not
/// blank.
pub open spec fn worth_recording(app: App) -> bool {
    app.input.annotating matches Some(a) && trimmed(a.text@).len() > 0
}

/// Whether notes are those of an app and the one being written.
pub open spec fn noted(app: App, notes: Seq<Annotation>) -> bool {
    let a = app.input.annotating->Some_0;
    &&& notes.len() == app.data.annotations@.len() + 1
    &&& notes.drop_last() == app.data.annotations@
    &&& notes.last().anchor == a.anchor
    &&& notes.last().kind == a.kind
    &&& notes.last().text@ == trimmed(a.text@)
}

/// Whether an app is another one with the note being written recorded. A blank
/// note is discarded rather than kept: pressing Enter on an empty line reads as
/// "never mind", not as a note saying nothing.
pub open spec fn recorded(before: App, after: App) -> bool {
    &&& before.input.annotating is None ==> after == before
    &&& before.input.annotating is Some ==> {
        &&& if worth_recording(before) {
            noted(before, after.data.annotations@)
        } else {
            after.data.annotations == before.data.annotations
        }
        &&& after == (App {
            data: Data { annotations: after.data.annotations, ..before.data },
            input: Input { annotating: None, ..before.input },
            ..before
        })
    }
}

/// The notes that stay when those on the line under the cursor go.
pub open spec fn remaining(app: App) -> Seq<Annotation> {
    app.data.annotations@.filter(
        |a: Annotation|
            !(same_path(a.anchor.file@, app.stray_here().path@) && a.anchor.line
                == number_here(app)->Some_0),
    )
}

/// Whether there is a line of a file under the cursor that a note could be on.
pub open spec fn on_a_line(app: App) -> bool {
    app.spot() is Some && number_here(app) is Some
}

/// Where the first `n` notes on a file sit in a diff.
pub open spec fn located_in(
    notes: Seq<Annotation>,
    file: Seq<char>,
    lines: Seq<DiffLine>,
    n: int,
) -> Seq<(u32, Kind)>
    decreases n,
{
    if n <= 0 || n > notes.len() {
        Seq::empty()
    } else {
        let rest = located_in(notes, file, lines, n - 1);
        let note = notes[n - 1];
        if same_path(note.anchor.file@, file) {
            match found(lines, note.anchor.line, note.anchor.hash).place() {
                Some(at) => rest.push((at, note.kind)),
                None => rest,
            }
        } else {
            rest
        }
    }
}

/// How many of the first `n` notes are on a file and no longer in its diff.
pub open spec fn orphans_in(
    notes: Seq<Annotation>,
    file: Seq<char>,
    lines: Seq<DiffLine>,
    n: int,
) -> int
    decreases n,
{
    if n <= 0 || n > notes.len() {
        0
    } else {
        let note = notes[n - 1];
        orphans_in(notes, file, lines, n - 1) + (if same_path(note.anchor.file@, file) && found(
            lines,
            note.anchor.line,
            note.anchor.hash,
        ) is Orphaned {
            1int
        } else {
            0
        })
    }
}

/// Every review comment left in the selected project.
pub open spec fn project_comments(app: App) -> Seq<PrComment> {
    if app.spot() is Some && app.data.forge@.contains_key(parts(app.root_here())) {
        app.data.forge@[parts(app.root_here())].comments@
    } else {
        Seq::empty()
    }
}

/// Every review comment left on the selected file.
pub open spec fn comments_of(app: App) -> Seq<PrComment> {
    project_comments(app).filter(|c: PrComment| same_path(c.file@, app.stray_here().path@))
}

/// The review that an app would hand over: its notes, and what commenters already
/// said on the lines they are on.
pub open spec fn review_of(app: App) -> Seq<char> {
    let notes = app.data.annotations@;
    let comments = project_comments(app);
    review_text(notes) + (if any_quoted(notes, comments) {
        "\nReview comments already on those lines:\n"@ + quoted_text(notes, comments)
    } else {
        Seq::empty()
    })
}

fn locate_notes(notes: &Vec<Annotation>, file: &str, lines: &Vec<DiffLine>) -> (r: Vec<(u32, Kind)>)
    ensures
        r@ == located_in(notes@, file@, lines@, notes@.len() as int),
{
    let mut out: Vec<(u32, Kind)> = Vec::new();
    for n in 0..notes.len()
        invariant
            out@ == located_in(notes@, file@, lines@, n as int),
    {
        if same_as(notes[n].anchor.file.as_str(), file) {
            match notes[n].anchor.locate(lines).line() {
                Some(at) => out.push((at, notes[n].kind)),
                None => {},
            }
        }
    }
    out
}

fn count_orphans(notes: &Vec<Annotation>, file: &str, lines: &Vec<DiffLine>) -> (r: usize)
    ensures
        r == orphans_in(notes@, file@, lines@, notes@.len() as int),
{
    let mut count: usize = 0;
    for n in 0..notes.len()
        invariant
            count == orphans_in(notes@, file@, lines@, n as int),
            count <= n,
    {
        if same_as(notes[n].anchor.file.as_str(), file) {
            match notes[n].anchor.locate(lines) {
                Located::Orphaned => {
                    count += 1;
                },
                _ => {},
            }
        }
    }
    count
}

impl App {
    /// The line the annotation cursor is on.
    pub fn cursor_line(&self) -> (r: Option<&DiffLine>)
        ensures
            match (r, line_here(*self)) {
                (Some(line), Some(here)) => *line == here,
                (None, None) => true,
                _ => false,
            },
    {
        match &self.data.diff {
            Diff::Text(lines) => if self.view.diff_cursor < lines.len() {
                Some(&lines[self.view.diff_cursor])
            } else {
                None
            },
            _ => None,
        }
    }

    /// Move the annotation cursor down one line.
    pub fn cursor_down(self) -> (r: Self)
        ensures
            r == (App {
                view: View {
                    diff_cursor: if self.view.diff_cursor + 1 < self.data.diff.lines().len() {
                        (self.view.diff_cursor + 1) as usize
                    } else if self.data.diff.lines().len() > 0 {
                        (self.data.diff.lines().len() - 1) as usize
                    } else {
                        0
                    },
                    ..self.view
                },
                ..self
            }),
    {
        let count: usize = match &self.data.diff {
            Diff::Text(lines) => lines.len(),
            _ => 0,
        };
        let diff_cursor = if count == 0 {
            0
        } else if self.view.diff_cursor < count - 1 {
            self.view.diff_cursor + 1
        } else {
            count - 1
        };
        App { view: View { diff_cursor, ..self.view }, ..self }
    }

    /// Move the annotation cursor up one line.
    pub fn cursor_up(self) -> (r: Self)
        ensures
            r == (App {
                view: View {
                    diff_cursor: if self.view.diff_cursor > 0 {
                        (self.view.diff_cursor - 1) as usize
                    } else {
                        0
                    },
                    ..self.view
                },
                ..self
            }),
    {
        App {
            view: View { diff_cursor: self.view.diff_cursor.saturating_sub(1), ..self.view },
            ..self
        }
    }

    /// Open the annotation line for the line under the cursor.
    ///
    /// Refuses where there is nothing to pin a note to: a removed line, a hunk
    /// header, or a row that is not a file.
    pub fn begin_annotation(self) -> (r: Self)
        ensures
            self.spot() is None ==> noticed(self, r, "select a file to annotate"@, true),
            self.spot() is Some && line_here(self) is None ==> noticed(
                self,
                r,
                "no diff line under the cursor"@,
                true,
            ),
            self.spot() is Some && line_here(self) is Some && number_here(self) is None ==> noticed(
                self,
                r,
                "only lines in the new file can be annotated"@,
                true,
            ),
            on_a_line(self) ==> {
                &&& r.input.annotating matches Some(a)
                &&& a.anchor.file@ == self.stray_here().path@
                &&& Some(a.anchor.line) == number_here(self)
                &&& a.anchor.hash == line_hash(line_here(self)->Some_0.text@)
                &&& a.kind == Kind::Issue
                &&& a.text@.len() == 0
                &&& writing(self, r, a)
            },
    {
        let anchor = match self.selected_stray() {
            Some((_, stray)) => match self.cursor_line() {
                Some(line) => match Anchor::of(stray.path.as_str(), line) {
                    Some(anchor) => anchor,
                    None => {
                        return self.refused("only lines in the new file can be annotated");
                    },
                },
                None => {
                    return self.refused("no diff line under the cursor");
                },
            },
            None => {
                return self.refused("select a file to annotate");
            },
        };
        let annotating = Some(Annotating { anchor, kind: Kind::Issue, text: String::new() });
        App { input: Input { annotating, ..self.input }, ..self }
    }

    pub fn annotation_push(self, c: char) -> (r: Self)
        ensures
            match self.input.annotating {
                Some(a) => r.input.annotating matches Some(now) && now.text@ == a.text@.push(c)
                    && now == (Annotating { text: now.text, ..a }) && writing(self, r, now),
                None => r == self,
            },
    {
        let next = match &self.input.annotating {
            Some(a) => Annotating {
                anchor: a.anchor.clone(),
                kind: a.kind,
                text: push_char(a.text.as_str(), c),
            },
            None => {
                return self;
            },
        };
        App { input: Input { annotating: Some(next), ..self.input }, ..self }
    }

    pub fn annotation_backspace(self) -> (r: Self)
        ensures
            match self.input.annotating {
                Some(a) => r.input.annotating matches Some(now) && now.text@ == (if a.text@.len()
                    > 0 {
                    a.text@.drop_last()
                } else {
                    a.text@
                }) && now == (Annotating { text: now.text, ..a }) && writing(self, r, now),
                None => r == self,
            },
    {
        let next = match &self.input.annotating {
            Some(a) => Annotating {
                anchor: a.anchor.clone(),
                kind: a.kind,
                text: without_last(a.text.as_str()),
            },
            None => {
                return self;
            },
        };
        App { input: Input { annotating: Some(next), ..self.input }, ..self }
    }

    /// Step the kind of the annotation being written.
    pub fn annotation_next_kind(self) -> (r: Self)
        ensures
            match self.input.annotating {
                Some(a) => r.input.annotating matches Some(now) && now == (Annotating {
                    kind: match a.kind {
                        Kind::Issue => Kind::Suggestion,
                        Kind::Suggestion => Kind::Question,
                        Kind::Question => Kind::Note,
                        Kind::Note => Kind::Issue,
                    },
                    ..a
                }) && writing(self, r, now),
                None => r == self,
            },
    {
        let next = match &self.input.annotating {
            Some(a) => Annotating {
                anchor: a.anchor.clone(),
                kind: a.kind.next(),
                text: a.text.clone(),
            },
            None => {
                return self;
            },
        };
        App { input: Input { annotating: Some(next), ..self.input }, ..self }
    }

    pub fn cancel_annotation(self) -> (r: Self)
        ensures
            r == (App { input: Input { annotating: None, ..self.input }, ..self }),
    {
        App { input: Input { annotating: None, ..self.input }, ..self }
    }

    /// Record the annotation being written, without touching the disk.
    ///
    /// Split from persisting so that a note is held in memory even when writing
    /// it down fails. The failure costs persistence, not the note.
    pub fn annotation_recorded(self) -> (r: Self)
        ensures
            recorded(self, r),
    {
        let annotations = match &self.input.annotating {
            Some(pending) => {
                let text = trim(pending.text.as_str());
                if text.is_empty() {
                    return self.cancel_annotation();
                }
                self.data.annotations.with(
                    Annotation { anchor: pending.anchor.clone(), kind: pending.kind, text },
                )
            },
            None => {
                return self;
            },
        };
        assert(annotations@.drop_last() =~= self.data.annotations@);
        App {
            data: Data { annotations, ..self.data },
            input: Input { annotating: None, ..self.input },
            ..self
        }
    }

    /// What has to be written down for the annotation being written to be kept,
    /// and for which repository. Nothing where there is nothing to record, or no
    /// file it would belong to.
    pub fn notes_to_save(&self) -> (r: Option<(String, Annotations)>)
        ensures
            match r {
                Some((root, notes)) => worth_recording(*self) && self.spot() is Some && root@
                    == self.root_here() && noted(*self, notes@),
                None => !worth_recording(*self) || self.spot() is None,
            },
    {
        match (&self.input.annotating, self.selected_stray()) {
            (Some(pending), Some((root, _))) => {
                let text = trim(pending.text.as_str());
                if text.is_empty() {
                    return None;
                }
                let notes = self.data.annotations.with(
                    Annotation { anchor: pending.anchor.clone(), kind: pending.kind, text },
                );
                assert(notes@.drop_last() =~= self.data.annotations@);
                Some((root.clone(), notes))
            },
            _ => None,
        }
    }

    /// Record the annotation being written, given how writing the collection
    /// down went.
    pub fn save_annotation(self, saved: Result<(), StoreError>) -> (r: Self)
        ensures
            !worth_recording(self) ==> recorded(self, r),
            worth_recording(self) ==> {
                &&& recorded(self, App { view: View { notice: self.view.notice, ..r.view }, ..r })
                &&& if self.spot() is None {
                    says(r.view.notice, "noted"@, false)
                } else {
                    match saved {
                        Ok(_) => says(
                            r.view.notice,
                            decimal_of(self.data.annotations@.len() + 1) + " noted"@,
                            false,
                        ),
                        Err(e) => says(r.view.notice, e.text(), true),
                    }
                }
            },
    {
        let before = self.data.annotations.len();
        let app = self.annotation_recorded();
        if app.data.annotations.len() == before {
            return app;
        }
        let notice = match app.selected_stray() {
            Some(_) => match saved {
                Ok(_) => Notice::info(
                    decimal(app.data.annotations.len() as u64).concat(" noted"),
                ),
                Err(e) => Notice::error(e.message()),
            },
            None => Notice::info("noted".to_owned()),
        };
        App { view: View { notice: Some(notice), ..app.view }, ..app }
    }

    /// What has to be written down for the annotations on the line under the
    /// cursor to be gone, and for which repository. Nothing where there are
    /// none.
    pub fn notes_without_line(&self) -> (r: Option<(String, Annotations)>)
        ensures
            match r {
                Some((root, notes)) => on_a_line(*self) && root@ == self.root_here() && notes@
                    == remaining(*self) && notes@.len() != self.data.annotations@.len(),
                None => !on_a_line(*self) || remaining(*self).len()
                    == self.data.annotations@.len(),
            },
    {
        let line = match self.cursor_line() {
            Some(line) => line.new_line,
            None => None,
        };
        match (self.selected_stray(), line) {
            (Some((root, stray)), Some(line)) => {
                let notes = self.data.annotations.without_line(stray.path.as_str(), line);
                assert(notes@ =~= remaining(*self));
                if notes.len() == self.data.annotations.len() {
                    None
                } else {
                    Some((root.clone(), notes))
                }
            },
            _ => None,
        }
    }

    /// Drop every annotation on the line under the cursor, given how writing
    /// down the rest went.
    pub fn remove_annotation_here(self, saved: Result<(), StoreError>) -> (r: Self)
        ensures
            !on_a_line(self) ==> r == self,
            on_a_line(self) && remaining(self).len() == self.data.annotations@.len() ==> noticed(
                self,
                r,
                "no annotation on this line"@,
                true,
            ),
            on_a_line(self) && remaining(self).len() != self.data.annotations@.len() ==> {
                &&& r.data.annotations@ == remaining(self)
                &&& match saved {
                    Ok(_) => says(r.view.notice, "annotation removed"@, false),
                    Err(e) => says(r.view.notice, e.text(), true),
                }
                &&& r == (App {
                    data: Data { annotations: r.data.annotations, ..self.data },
                    view: View { notice: r.view.notice, ..self.view },
                    ..self
                })
            },
    {
        let line = match self.cursor_line() {
            Some(line) => line.new_line,
            None => None,
        };
        if self.selected_stray().is_none() || line.is_none() {
            return self;
        }
        let annotations = match self.notes_without_line() {
            Some((_, notes)) => notes,
            None => {
                return self.refused("no annotation on this line");
            },
        };
        let notice = match saved {
            Ok(_) => Notice::info("annotation removed".to_owned()),
            Err(e) => Notice::error(e.message()),
        };
        App {
            data: Data { annotations, ..self.data },
            view: View { notice: Some(notice), ..self.view },
            ..self
        }
    }

    /// Where each annotation on the current file sits in the current diff.
    ///
    /// Recomputed per draw rather than stored: the diff is regenerated on every
    /// refresh, and a cached position would be the stale thing the anchor
    /// exists to avoid.
    pub fn located_annotations(&self) -> (r: Vec<(u32, Kind)>)
        ensures
            r@ == (if self.spot() is Some {
                located_in(
                    self.data.annotations@,
                    self.stray_here().path@,
                    self.data.diff.lines(),
                    self.data.annotations@.len() as int,
                )
            } else {
                Seq::empty()
            }),
    {
        let none: Vec<DiffLine> = Vec::new();
        assert(none@ =~= Seq::<DiffLine>::empty());
        match self.selected_stray() {
            Some((_, stray)) => match &self.data.diff {
                Diff::Text(lines) => locate_notes(
                    self.data.annotations.iter(),
                    stray.path.as_str(),
                    lines,
                ),
                _ => locate_notes(self.data.annotations.iter(), stray.path.as_str(), &none),
            },
            None => Vec::new(),
        }
    }

    /// Every review comment left on the selected file.
    fn file_comments(&self) -> (r: Vec<&PrComment>)
        ensures
            r@.unref() == comments_of(*self),
    {
        let none: Vec<&PrComment> = Vec::new();
        assert(none@.unref() =~= Seq::<PrComment>::empty());
        proof {
            reveal(Seq::filter);
        }
        match self.selected_stray() {
            Some((root, stray)) => match self.data.forge.get(root.as_str()) {
                Some(status) => {
                    let r = status.comments_on(stray.path.as_str());
                    let ghost path = stray.path@;
                    assert(r@.unref() == status.comments@.filter(
                        |c: PrComment| same_path(c.file@, path),
                    ));
                    r
                },
                None => none,
            },
            None => none,
        }
    }

    /// Which lines of the current file a commenter has written against.
    ///
    /// The forge reports a line number and nothing else, so unlike the reader's
    /// own notes these cannot be re-found by content once the code moves. That
    /// is the honest limit of the data: a comment is drawn where the forge said
    /// it was, and a local edit above it drifts it, exactly as it drifts on the
    /// forge's own page until the branch is pushed again.
    pub fn commented_lines(&self) -> (r: Vec<u32>)
        ensures
            r@ == comments_of(*self).map_values(|c: PrComment| c.line),
    {
        let comments = self.file_comments();
        let ghost all = comments_of(*self).map_values(|c: PrComment| c.line);
        let mut out: Vec<u32> = Vec::new();
        for i in 0..comments.len()
            invariant
                comments@.unref() == comments_of(*self),
                all == comments_of(*self).map_values(|c: PrComment| c.line),
                out@ =~= all.take(i as int),
        {
            assert(comments@.unref()[i as int] == *comments@[i as int]);
            out.push(comments[i].line);
        }
        assert(comments@.unref().len() == comments@.len());
        assert(all.take(all.len() as int) =~= all);
        out
    }

    /// What commenters wrote against the line under the cursor.
    ///
    /// Empty on almost every line, which is the point: the panel showing this
    /// draws nothing rather than an empty box.
    pub fn comments_here(&self) -> (r: Vec<&PrComment>)
        ensures
            r@.unref() == (match number_here(*self) {
                Some(line) => comments_of(*self).filter(|c: PrComment| c.line == line),
                None => Seq::empty(),
            }),
    {
        let mut out: Vec<&PrComment> = Vec::new();
        assert(out@.unref() =~= Seq::<PrComment>::empty());
        let line: u32 = match self.cursor_line() {
            Some(here) => match here.new_line {
                Some(line) => line,
                None => {
                    return out;
                },
            },
            None => {
                return out;
            },
        };
        let comments = self.file_comments();
        let ghost all = comments_of(*self);
        let ghost p = |c: PrComment| c.line == line;
        assert(all.take(0).filter(p) =~= Seq::<PrComment>::empty()) by {
            reveal(Seq::filter);
        }
        for i in 0..comments.len()
            invariant
                comments@.unref() == all,
                p == (|c: PrComment| c.line == line),
                out@.unref() == all.take(i as int).filter(p),
        {
            let ghost before = out@.unref();
            assert(all[i as int] == *comments@[i as int]);
            assert(comments@.unref().len() == comments@.len());
            proof {
                let upto = all.take(i + 1);
                assert(upto.drop_last() =~= all.take(i as int));
                reveal(Seq::filter);
            }
            if comments[i].line == line {
                out.push(comments[i]);
                assert(out@.unref() =~= before.push(all[i as int]));
            }
        }
        assert(comments@.unref().len() == comments@.len());
        assert(all.take(all.len() as int) =~= all);
        out
    }

    /// Annotations whose line no longer exists in the current diff.
    pub fn orphaned_count(&self) -> (r: usize)
        ensures
            r == (if self.spot() is Some {
                orphans_in(
                    self.data.annotations@,
                    self.stray_here().path@,
                    self.data.diff.lines(),
                    self.data.annotations@.len() as int,
                )
            } else {
                0
            }),
    {
        let none: Vec<DiffLine> = Vec::new();
        assert(none@ =~= Seq::<DiffLine>::empty());
        match self.selected_stray() {
            Some((_, stray)) => match &self.data.diff {
                Diff::Text(lines) => count_orphans(
                    self.data.annotations.iter(),
                    stray.path.as_str(),
                    lines,
                ),
                _ => count_orphans(self.data.annotations.iter(), stray.path.as_str(), &none),
            },
            None => 0,
        }
    }

    /// The review to hand over, if there is anything to say.
    ///
    /// Whatever commenters already said on the lines being sent travels with
    /// them: the agent is about to change the exact line somebody objected to,
    /// and the objection is the context for the instruction.
    fn review(&self) -> (r: Option<String>)
        ensures
            match r {
                Some(text) => self.data.annotations@.len() > 0 && text@ == review_of(*self),
                None => self.data.annotations@.len() == 0,
            },
    {
        let none: Vec<PrComment> = Vec::new();
        assert(none@ =~= Seq::<PrComment>::empty());
        match self.selected_stray() {
            Some((root, _)) => match self.data.forge.get(root.as_str()) {
                Some(status) => compose_with_comments(&self.data.annotations, &status.comments),
                None => compose_with_comments(&self.data.annotations, &none),
            },
            None => compose_with_comments(&self.data.annotations, &none),
        }
    }

    /// What to type into the agent's input, and into whose, to hand over every
    /// collected annotation. The review carries paths from the worktree, and a
    /// newline in one would submit on the user's behalf, so it is composed like
    /// every other hand-off.
    pub fn review_parcel(&self, agents: &Vec<Agent>) -> (r: Option<Parcel>)
        ensures
            self.data.annotations@.len() == 0 || self.spot() is None ==> r is None,
            self.data.annotations@.len() > 0 && self.spot() is Some ==> parcel_is(
                r,
                agents@,
                self.root_here(),
                composed(Seq::empty(), review_of(*self)),
            ),
    {
        proof {
            reveal_strlit("");
            assert(""@ =~= Seq::<char>::empty());
        }
        match (self.review(), self.selected_stray()) {
            (Some(text), Some((root, _))) => address(
                agents,
                root.as_str(),
                compose("", text.as_str()),
            ),
            _ => None,
        }
    }

    /// Clear the collected annotations once they have been handed to the agent
    /// in this repository, given the agents running, how the hand-off went, and
    /// how clearing the stored copy went.
    ///
    /// The text is typed into the agent's input and not submitted, like the
    /// prompt line: the commenter reads what is about to be sent and presses
    /// Enter themselves.
    ///
    /// The collection is cleared only once the hand-off succeeded. A review
    /// that never arrived must not be lost along the way. What can still fail
    /// is clearing the stored copy, and saying so matters: the file is read
    /// again on the next move of the cursor, so a failed write means the notes
    /// the reader just watched disappear will come back.
    pub fn send_review(
        self,
        agents: &Vec<Agent>,
        sent: Result<(), SendError>,
        stored: Result<(), StoreError>,
    ) -> (r: Self)
        ensures
            self.data.annotations@.len() == 0 ==> noticed(self, r, "no annotations to send"@, true),
            self.data.annotations@.len() > 0 && self.spot() is None ==> noticed(
                self,
                r,
                "select a file in the project to send"@,
                true,
            ),
            self.data.annotations@.len() > 0 && self.spot() is Some ==> {
                if !agent_in(agents@, self.root_here()) {
                    noticed(self, r, SendError::NoAgent.text(), true)
                } else {
                    match sent {
                        Err(e) => noticed(self, r, e.text(), true),
                        Ok(_) => {
                            &&& r.data.annotations@.len() == 0
                            &&& match stored {
                                Ok(_) => says(
                                    r.view.notice,
                                    "review sent to the agent — press Enter there to run it"@,
                                    false,
                                ),
                                Err(e) => says(
                                    r.view.notice,
                                    "review sent, but clearing the notes failed: "@ + e.text(),
                                    true,
                                ),
                            }
                            &&& r == (App {
                                data: Data { annotations: r.data.annotations, ..self.data },
                                view: View { notice: r.view.notice, ..self.view },
                                ..self
                            })
                        },
                    }
                }
            },
    {
        if self.data.annotations.is_empty() {
            return self.refused("no annotations to send");
        }
        let nobody = match self.selected_stray() {
            Some((root, _)) => pick(agents, root.as_str()).is_none(),
            None => {
                return self.refused("select a file in the project to send");
            },
        };
        if nobody {
            return self.with_notice(Notice::error(SendError::NoAgent.message()));
        }
        match sent {
            Err(e) => {
                return self.with_notice(Notice::error(e.message()));
            },
            Ok(_) => {},
        }
        let annotations = self.data.annotations.cleared();
        let notice = match stored {
            Ok(_) => Notice::info(
                "review sent to the agent — press Enter there to run it".to_owned(),
            ),
            Err(e) => Notice::error(
                "review sent, but clearing the notes failed: ".to_owned().concat(
                    e.message().as_str(),
                ),
            ),
        };
        App {
            data: Data { annotations, ..self.data },
            view: View { notice: Some(notice), ..self.view },
            ..self
        }
    }

    /// Take in the notes stored for this project, replacing what is held.
    pub fn with_annotations_loaded(self, stored: Option<&str>) -> (r: Self)
        ensures
            r == (App {
                data: Data { annotations: r.data.annotations, ..self.data },
                pending: Pending { notes: false, ..self.pending },
                ..self
            }),
            self.spot() is None ==> r.data.annotations == self.data.annotations,
            self.spot() is Some ==> match stored {
                Some(text) => note_views(r.data.annotations@) == notes_in(lines_of(text@)),
                None => r.data.annotations@.len() == 0,
            },
    {
        if self.selected_stray().is_none() {
            return App { pending: Pending { notes: false, ..self.pending }, ..self };
        }
        let annotations = load(stored);
        App {
            data: Data { annotations, ..self.data },
            pending: Pending { notes: false, ..self.pending },
            ..self
        }
    }
}

/// A row that was brought into view is on screen.
pub proof fn a_brought_row_is_on_screen(row: int, scroll: u16, viewport: u16)
    requires
        0 <= row <= u16::MAX,
    ensures
        brought(row, scroll, viewport) <= row,
        row < brought(row, scroll, viewport) + (if viewport < 1 {
            1
        } else {
            viewport as int
        }),
{
}

} // verus!
