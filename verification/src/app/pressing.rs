//! What a keypress does.
//!
//! Two decisions, kept apart: which step a key asks for, given what is on
//! screen, and what that step does to the state. Steps that need something from
//! outside — git, herdr, the disk, the reader's editor — are handed back as a
//! [`Task`] for the program to perform.

use vstd::prelude::*;
use vstd::string::*;
use vstd::view::View as _;

use crate::annotate::{line_hash, Kind};
use crate::app::annotating::{in_view, line_here, number_here, writing};
use crate::app::delegating::{retyped, typed};
use crate::app::filtering::{file_count, narrowed};
use crate::app::revisions::{closed, opened, selectable_below, selectable_from};
use crate::app::scanning::refreshed;
use crate::app::scroll::{capped, furthest, page, row_count, wound};
use crate::app::searching::{jumped, searching, Direction};
use crate::app::{
    blame_asked, fold_toggled, moved, noticed, says, Annotating, App, Data, Filter, Input, Notice,
    Search, View,
};
use crate::config::keys::{Action, Chord, Key, Modifiers, ACTION_COUNT};
use crate::editor::OpenError;
use crate::text::{decimal_i32, decimal_int, decimal_of};

pub mod meaning;

verus! {

/// A key that was pressed.
#[derive(Debug, Clone, Copy, PartialEq, Eq, Structural)]
pub enum Press {
    /// The key that backs out of whatever covers the list.
    Esc,
    /// A key that can be bound.
    Key { code: Key, modifiers: Modifiers },
    /// Any other key.
    Other,
}

/// What a keypress asks for.
#[derive(Debug, Clone, Copy, PartialEq, Eq, Structural)]
pub enum Step {
    Nothing,
    Quit,
    CancelSearch,
    AcceptSearch,
    SearchBackspace,
    SearchPush(char),
    ClearFilter,
    AcceptFilter,
    FilterBackspace,
    FilterPush(char),
    CancelAnnotation,
    SaveAnnotation,
    AnnotationBackspace,
    AnnotationNextKind,
    AnnotationPush(char),
    CancelPrompt,
    SendPrompt,
    PromptBackspace,
    PromptPush(char),
    CancelDelegating,
    SendDelegating,
    DelegateBackspace,
    DelegatePush(char),
    CloseRevisions,
    RevisionsNext,
    RevisionsPrevious,
    ShowRevision,
    ToggleHelp,
    /// Wind the key reference by so many rows.
    ScrollHelp(i32),
    /// Jump to the bottom of the key reference, or to its top.
    ScrollHelpTo(bool),
    Do(Action),
}

/// Something a step needs done outside.
#[derive(Debug, Clone, Copy, PartialEq, Eq, Structural)]
pub enum Task {
    SaveAnnotation,
    SendPrompt,
    SendDelegating,
    ShowRevision,
    ToggleBase,
    ToggleScope,
    ToggleHistory,
    ToggleStashes,
    ToggleBranches,
    ToggleGraph,
    RemoveAnnotation,
    SendReview,
    OpenEditor,
    BeginPrompt,
    GitMenu,
}

/// Whether a keypress is Ctrl-C.
pub open spec fn is_interrupt(press: Press) -> bool {
    press matches Press::Key { code, modifiers } && code == Key::Char('c') && modifiers.control
}

/// What a keypress asks for in a line that takes text.
#[derive(Debug, Clone, Copy, PartialEq, Eq, Structural)]
pub enum Typing {
    Cancel,
    Accept,
    Backspace,
    Push(char),
    Nothing,
}

/// What a keypress asks for while a line that takes text is open: leaving it,
/// accepting it, taking back a character, or typing one.
pub open spec fn typing_of(press: Press) -> Typing {
    match press {
        Press::Esc => Typing::Cancel,
        Press::Key { code, modifiers } => match code {
            Key::Char(c) => if c == 'c' && modifiers.control {
                Typing::Cancel
            } else {
                Typing::Push(c)
            },
            Key::Enter => Typing::Accept,
            Key::Backspace => Typing::Backspace,
            _ => Typing::Nothing,
        },
        Press::Other => Typing::Nothing,
    }
}

/// What a keypress asks for while a revision list is open: the list owns
/// navigation, and the keys that open a list close whichever one is open. `q`
/// still quits: a list is a view, not an input line, and there is no text here
/// for a `q` to belong to.
pub open spec fn revision_step(press: Press) -> Step {
    match press {
        Press::Esc => Step::CloseRevisions,
        Press::Key { code, modifiers } => match code {
            Key::Char(c) => if c == 'H' || c == 'S' || c == 'W' || c == 'L' {
                Step::CloseRevisions
            } else if c == 'q' || (c == 'c' && modifiers.control) {
                Step::Quit
            } else if c == 'j' {
                Step::RevisionsNext
            } else if c == 'k' {
                Step::RevisionsPrevious
            } else {
                Step::Nothing
            },
            Key::Down => Step::RevisionsNext,
            Key::Up => Step::RevisionsPrevious,
            Key::Enter => Step::ShowRevision,
            _ => Step::Nothing,
        },
        Press::Other => Step::Nothing,
    }
}

/// What an action comes to: while the key reference is up the scrolling keys
/// move it rather than the diff hidden behind it, and anything else still means
/// what it always does.
pub open spec fn action_step(action: Action, show_help: bool, viewport: u16) -> Step {
    if !show_help {
        Step::Do(action)
    } else {
        match action {
            Action::ScrollDiffDown => Step::ScrollHelp(1),
            Action::ScrollDiffUp => Step::ScrollHelp((-1) as i32),
            Action::PageDiffDown => Step::ScrollHelp(page(viewport) as i32),
            Action::PageDiffUp => Step::ScrollHelp((-page(viewport)) as i32),
            Action::ScrollDiffHome => Step::ScrollHelpTo(false),
            Action::ScrollDiffEnd => Step::ScrollHelpTo(true),
            _ => Step::Do(action),
        }
    }
}

/// Whether a line that takes text is open. It owns the keyboard.
pub open spec fn line_open(input: Input) -> bool {
    input.search.editing || input.filter.editing || input.annotating is Some || input.prompt is Some
        || input.delegating is Some
}

/// What a keypress asks for, given what is on screen.
pub open spec fn step_of(app: App, press: Press, viewport: u16) -> Step {
    if app.input.search.editing {
        match typing_of(press) {
            Typing::Cancel => Step::CancelSearch,
            Typing::Accept => Step::AcceptSearch,
            Typing::Backspace => Step::SearchBackspace,
            Typing::Push(c) => Step::SearchPush(c),
            Typing::Nothing => Step::Nothing,
        }
    } else if app.input.filter.editing {
        match typing_of(press) {
            Typing::Cancel => Step::ClearFilter,
            Typing::Accept => Step::AcceptFilter,
            Typing::Backspace => Step::FilterBackspace,
            Typing::Push(c) => Step::FilterPush(c),
            Typing::Nothing => Step::Nothing,
        }
    } else if app.input.annotating is Some {
        if press matches Press::Key { code, .. } && code == Key::Tab {
            Step::AnnotationNextKind
        } else {
            match typing_of(press) {
                Typing::Cancel => Step::CancelAnnotation,
                Typing::Accept => Step::SaveAnnotation,
                Typing::Backspace => Step::AnnotationBackspace,
                Typing::Push(c) => Step::AnnotationPush(c),
                Typing::Nothing => Step::Nothing,
            }
        }
    } else if app.input.prompt is Some {
        match typing_of(press) {
            Typing::Cancel => Step::CancelPrompt,
            Typing::Accept => Step::SendPrompt,
            Typing::Backspace => Step::PromptBackspace,
            Typing::Push(c) => Step::PromptPush(c),
            Typing::Nothing => Step::Nothing,
        }
    } else if app.input.delegating is Some {
        match typing_of(press) {
            Typing::Cancel => Step::CancelDelegating,
            Typing::Accept => Step::SendDelegating,
            Typing::Backspace => Step::DelegateBackspace,
            Typing::Push(c) => Step::DelegatePush(c),
            Typing::Nothing => Step::Nothing,
        }
    } else if app.view.revisions is Some {
        revision_step(press)
    } else {
        match press {
            Press::Esc => if app.view.show_help {
                Step::ToggleHelp
            } else if app.input.filter.query@.len() > 0 {
                Step::ClearFilter
            } else {
                Step::Quit
            },
            Press::Other => Step::Nothing,
            Press::Key { code, modifiers } => {
                let chord = Chord { code, control: modifiers.control };
                if is_interrupt(press) {
                    Step::Quit
                } else if app.data.bindings@.contains_key(chord) {
                    action_step(app.data.bindings@[chord], app.view.show_help, viewport)
                } else {
                    Step::Nothing
                }
            },
        }
    }
}

/// What has to be done outside for a step, if anything.
pub open spec fn task_of(step: Step) -> Option<Task> {
    match step {
        Step::SaveAnnotation => Some(Task::SaveAnnotation),
        Step::SendPrompt => Some(Task::SendPrompt),
        Step::SendDelegating => Some(Task::SendDelegating),
        Step::ShowRevision => Some(Task::ShowRevision),
        Step::Do(action) => match action {
            Action::ToggleBase => Some(Task::ToggleBase),
            Action::ToggleScope => Some(Task::ToggleScope),
            Action::ToggleHistory => Some(Task::ToggleHistory),
            Action::ToggleStashes => Some(Task::ToggleStashes),
            Action::ToggleBranches => Some(Task::ToggleBranches),
            Action::ToggleGraph => Some(Task::ToggleGraph),
            Action::RemoveAnnotation => Some(Task::RemoveAnnotation),
            Action::SendReview => Some(Task::SendReview),
            Action::OpenEditor => Some(Task::OpenEditor),
            Action::BeginPrompt => Some(Task::BeginPrompt),
            Action::GitMenu => Some(Task::GitMenu),
            _ => None,
        },
        _ => None,
    }
}

/// What a keypress asks for while a line that takes text is open.
fn typing(press: Press) -> (r: Typing)
    ensures
        r == typing_of(press),
{
    match press {
        Press::Esc => Typing::Cancel,
        Press::Key { code, modifiers } => match code {
            Key::Char(c) => if c == 'c' && modifiers.control {
                Typing::Cancel
            } else {
                Typing::Push(c)
            },
            Key::Enter => Typing::Accept,
            Key::Backspace => Typing::Backspace,
            _ => Typing::Nothing,
        },
        Press::Other => Typing::Nothing,
    }
}

fn step_in_revisions(press: Press) -> (r: Step)
    ensures
        r == revision_step(press),
{
    match press {
        Press::Esc => Step::CloseRevisions,
        Press::Key { code, modifiers } => match code {
            Key::Char(c) => if c == 'H' || c == 'S' || c == 'W' || c == 'L' {
                Step::CloseRevisions
            } else if c == 'q' || (c == 'c' && modifiers.control) {
                Step::Quit
            } else if c == 'j' {
                Step::RevisionsNext
            } else if c == 'k' {
                Step::RevisionsPrevious
            } else {
                Step::Nothing
            },
            Key::Down => Step::RevisionsNext,
            Key::Up => Step::RevisionsPrevious,
            Key::Enter => Step::ShowRevision,
            _ => Step::Nothing,
        },
        Press::Other => Step::Nothing,
    }
}

fn step_for_action(action: Action, show_help: bool, viewport: u16) -> (r: Step)
    ensures
        r == action_step(action, show_help, viewport),
{
    if !show_help {
        return Step::Do(action);
    }
    let by: i32 = if viewport > 3 {
        viewport as i32 - 2
    } else {
        1
    };
    match action {
        Action::ScrollDiffDown => Step::ScrollHelp(1),
        Action::ScrollDiffUp => Step::ScrollHelp(-1),
        Action::PageDiffDown => Step::ScrollHelp(by),
        Action::PageDiffUp => Step::ScrollHelp(-by),
        Action::ScrollDiffHome => Step::ScrollHelpTo(false),
        Action::ScrollDiffEnd => Step::ScrollHelpTo(true),
        _ => Step::Do(action),
    }
}

impl App {
    /// What a keypress asks for, given what is on screen.
    ///
    /// While an input line is open it owns the keyboard: text containing the
    /// letter `q` must not quit the viewer. A revision list is a mode too: while
    /// one is open, moving and selecting belong to it rather than to the file
    /// tree behind it.
    ///
    /// Esc is answered before the bindings and is not one of them. It means
    /// "back out of what is covering the list", in order: the key reference,
    /// then a filter narrowing it — three meanings for one key, which a table
    /// mapping a key to a single action cannot express. Only with neither does
    /// it quit: losing a query to a stray Esc would be worse than a keypress.
    ///
    /// Ctrl-C quits whatever is bound, for the same reason a terminal program
    /// always has: a reader who has lost their way should not have to consult
    /// their own config to leave.
    pub fn step_for(&self, press: Press, viewport: u16) -> (r: Step)
        ensures
            r == step_of(*self, press, viewport),
    {
        let line = typing(press);
        if self.input.search.editing {
            return match line {
                Typing::Cancel => Step::CancelSearch,
                Typing::Accept => Step::AcceptSearch,
                Typing::Backspace => Step::SearchBackspace,
                Typing::Push(c) => Step::SearchPush(c),
                Typing::Nothing => Step::Nothing,
            };
        }
        if self.input.filter.editing {
            return match line {
                Typing::Cancel => Step::ClearFilter,
                Typing::Accept => Step::AcceptFilter,
                Typing::Backspace => Step::FilterBackspace,
                Typing::Push(c) => Step::FilterPush(c),
                Typing::Nothing => Step::Nothing,
            };
        }
        if self.input.annotating.is_some() {
            if let Press::Key { code, .. } = press {
                if code == Key::Tab {
                    return Step::AnnotationNextKind;
                }
            }
            return match line {
                Typing::Cancel => Step::CancelAnnotation,
                Typing::Accept => Step::SaveAnnotation,
                Typing::Backspace => Step::AnnotationBackspace,
                Typing::Push(c) => Step::AnnotationPush(c),
                Typing::Nothing => Step::Nothing,
            };
        }
        if self.input.prompt.is_some() {
            return match line {
                Typing::Cancel => Step::CancelPrompt,
                Typing::Accept => Step::SendPrompt,
                Typing::Backspace => Step::PromptBackspace,
                Typing::Push(c) => Step::PromptPush(c),
                Typing::Nothing => Step::Nothing,
            };
        }
        if self.input.delegating.is_some() {
            return match line {
                Typing::Cancel => Step::CancelDelegating,
                Typing::Accept => Step::SendDelegating,
                Typing::Backspace => Step::DelegateBackspace,
                Typing::Push(c) => Step::DelegatePush(c),
                Typing::Nothing => Step::Nothing,
            };
        }
        if self.view.revisions.is_some() {
            return step_in_revisions(press);
        }
        match press {
            Press::Esc => if self.view.show_help {
                Step::ToggleHelp
            } else if self.input.filter.is_active() {
                Step::ClearFilter
            } else {
                Step::Quit
            },
            Press::Other => Step::Nothing,
            Press::Key { code, modifiers } => {
                if code == Key::Char('c') && modifiers.control {
                    return Step::Quit;
                }
                match self.data.bindings.action(code, modifiers) {
                    Some(action) => step_for_action(action, self.view.show_help, viewport),
                    None => Step::Nothing,
                }
            },
        }
    }
}

/// What has to be done outside for a step, if anything.
fn task_for(step: Step) -> (r: Option<Task>)
    ensures
        r == task_of(step),
{
    match step {
        Step::SaveAnnotation => Some(Task::SaveAnnotation),
        Step::SendPrompt => Some(Task::SendPrompt),
        Step::SendDelegating => Some(Task::SendDelegating),
        Step::ShowRevision => Some(Task::ShowRevision),
        Step::Do(action) => match action {
            Action::ToggleBase => Some(Task::ToggleBase),
            Action::ToggleScope => Some(Task::ToggleScope),
            Action::ToggleHistory => Some(Task::ToggleHistory),
            Action::ToggleStashes => Some(Task::ToggleStashes),
            Action::ToggleBranches => Some(Task::ToggleBranches),
            Action::ToggleGraph => Some(Task::ToggleGraph),
            Action::RemoveAnnotation => Some(Task::RemoveAnnotation),
            Action::SendReview => Some(Task::SendReview),
            Action::OpenEditor => Some(Task::OpenEditor),
            Action::BeginPrompt => Some(Task::BeginPrompt),
            Action::GitMenu => Some(Task::GitMenu),
            _ => None,
        },
        _ => None,
    }
}

/// A text without its last character, if it has one.
pub open spec fn shortened(text: Seq<char>) -> Seq<char> {
    if text.len() > 0 {
        text.drop_last()
    } else {
        text
    }
}

/// Whether an app is another one after a character was typed into, or taken
/// back from, the line that takes text: the filter, the search, the note, the
/// prompt or the message.
pub open spec fn retyped_line(before: App, step: Step, viewport: u16, after: App) -> bool {
    match step {
        Step::SearchPush(c) => if before.input.search.editing {
            &&& after.input.search.query@ == before.input.search.query@.push(c)
            &&& after.input.search.editing
            &&& searching(before, after.input.search, viewport, after)
        } else {
            after == before
        },
        Step::SearchBackspace => if before.input.search.editing {
            &&& after.input.search.query@ == shortened(before.input.search.query@)
            &&& after.input.search.editing
            &&& searching(before, after.input.search, viewport, after)
        } else {
            after == before
        },
        Step::FilterPush(c) => if before.input.filter.editing {
            &&& after.input.filter.query@ == before.input.filter.query@.push(c)
            &&& after.input.filter.editing
            &&& narrowed(before, after.input.filter, after)
        } else {
            after == before
        },
        Step::FilterBackspace => if before.input.filter.editing {
            &&& after.input.filter.query@ == shortened(before.input.filter.query@)
            &&& after.input.filter.editing
            &&& narrowed(before, after.input.filter, after)
        } else {
            after == before
        },
        Step::AnnotationPush(c) => match before.input.annotating {
            Some(a) => after.input.annotating matches Some(now) && now.text@ == a.text@.push(c)
                && now == (Annotating { text: now.text, ..a }) && writing(before, after, now),
            None => after == before,
        },
        Step::AnnotationBackspace => match before.input.annotating {
            Some(a) => after.input.annotating matches Some(now) && now.text@ == shortened(a.text@)
                && now == (Annotating { text: now.text, ..a }) && writing(before, after, now),
            None => after == before,
        },
        Step::PromptPush(c) => match before.input.prompt {
            Some(text) => {
                &&& after.input.prompt matches Some(now)
                &&& now@ == text@.push(c)
                &&& after == (App {
                    input: Input { prompt: after.input.prompt, ..before.input },
                    ..before
                })
            },
            None => after == before,
        },
        Step::PromptBackspace => match before.input.prompt {
            Some(text) => {
                &&& after.input.prompt matches Some(now)
                &&& now@ == shortened(text@)
                &&& after == (App {
                    input: Input { prompt: after.input.prompt, ..before.input },
                    ..before
                })
            },
            None => after == before,
        },
        Step::DelegatePush(c) => match before.input.delegating {
            Some(d) => {
                &&& after.input.delegating matches Some(now)
                &&& retyped(d.action, typed(d.action).push(c), now.action)
                &&& now.scope == d.scope
                &&& after == (App {
                    input: Input { delegating: after.input.delegating, ..before.input },
                    ..before
                })
            },
            None => after == before,
        },
        Step::DelegateBackspace => match before.input.delegating {
            Some(d) => {
                &&& after.input.delegating matches Some(now)
                &&& retyped(d.action, shortened(typed(d.action)), now.action)
                &&& now.scope == d.scope
                &&& after == (App {
                    input: Input { delegating: after.input.delegating, ..before.input },
                    ..before
                })
            },
            None => after == before,
        },
        _ => false,
    }
}

/// Whether an app is another one after an action that needs nothing from
/// outside.
pub open spec fn acted(before: App, action: Action, viewport: u16, after: App) -> bool {
    let max = furthest(capped(row_count(before)), viewport);
    let at = before.view.diff_scroll;
    match action {
        Action::Quit => after == (App { should_quit: true, ..before }),
        Action::Help => after == (App {
            view: View { show_help: !before.view.show_help, help_scroll: 0, ..before.view },
            ..before
        }),
        Action::Refresh => refreshed(before, after),
        Action::SelectNext => if before.view.rows@.len() == 0 {
            after == before
        } else {
            moved(
                before,
                if before.view.selected < before.view.rows@.len() - 1 {
                    (before.view.selected + 1) as usize
                } else {
                    (before.view.rows@.len() - 1) as usize
                },
                after,
            )
        },
        Action::SelectPrevious => moved(
            before,
            if before.view.selected > 0 {
                (before.view.selected - 1) as usize
            } else {
                0
            },
            after,
        ),
        Action::ToggleCollapsed => fold_toggled(before, after),
        Action::ScrollDiffDown => scrolled(before, wound(at, 1, max), after),
        Action::ScrollDiffUp => scrolled(before, wound(at, -1, u16::MAX), after),
        Action::PageDiffDown => scrolled(before, wound(at, page(viewport), max), after),
        Action::PageDiffUp => scrolled(before, wound(at, -page(viewport), u16::MAX), after),
        Action::ScrollDiffHome => after == (App {
            view: View { diff_scroll: 0, diff_cursor: 0, ..before.view },
            ..before
        }),
        Action::ScrollDiffEnd => scrolled(before, max, after),
        Action::ToggleSplitDiff => after == (App {
            view: View { split_diff: !before.view.split_diff, ..before.view },
            ..before
        }),
        Action::ToggleShowAll => {
            &&& says(
                after.view.notice,
                if before.view.show_all {
                    "showing strays only"@
                } else {
                    "showing all tracked files"@
                },
                false,
            )
            &&& after == (App {
                data: Data { scanning: true, ..before.data },
                view: View {
                    show_all: !before.view.show_all,
                    diff_scroll: 0,
                    diff_cursor: 0,
                    notice: after.view.notice,
                    ..before.view
                },
                input: Input { annotating: None, ..before.input },
                ..before
            })
        },
        Action::ToggleBlame => blame_asked(
            App { view: View { show_blame: !before.view.show_blame, ..before.view }, ..before },
            after,
        ),
        Action::BeginFilter => after == (App {
            input: Input {
                filter: Filter { editing: true, ..before.input.filter },
                ..before.input
            },
            ..before
        }),
        Action::BeginSearch => after == (App {
            input: Input {
                search: Search { editing: true, ..before.input.search },
                ..before.input
            },
            ..before
        }),
        Action::SearchNext => jumped(before, Direction::Forward, viewport, after),
        Action::SearchPrevious => jumped(before, Direction::Backward, viewport, after),
        Action::CursorDown => in_view(
            App {
                view: View {
                    diff_cursor: if before.view.diff_cursor + 1 < before.data.diff.lines().len() {
                        (before.view.diff_cursor + 1) as usize
                    } else if before.data.diff.lines().len() > 0 {
                        (before.data.diff.lines().len() - 1) as usize
                    } else {
                        0
                    },
                    ..before.view
                },
                ..before
            },
            viewport,
            after,
        ),
        Action::CursorUp => in_view(
            App {
                view: View {
                    diff_cursor: if before.view.diff_cursor > 0 {
                        (before.view.diff_cursor - 1) as usize
                    } else {
                        0
                    },
                    ..before.view
                },
                ..before
            },
            viewport,
            after,
        ),
        Action::BeginAnnotation => if before.spot() is None {
            noticed(before, after, "select a file to annotate"@, true)
        } else if line_here(before) is None {
            noticed(before, after, "no diff line under the cursor"@, true)
        } else if number_here(before) is None {
            noticed(before, after, "only lines in the new file can be annotated"@, true)
        } else {
            &&& after.input.annotating matches Some(a)
            &&& a.anchor.file@ == before.stray_here().path@
            &&& Some(a.anchor.line) == number_here(before)
            &&& a.anchor.hash == line_hash(line_here(before)->Some_0.text@)
            &&& a.kind == Kind::Issue
            &&& a.text@.len() == 0
            &&& writing(before, after, a)
        },
        _ => after == before,
    }
}

/// Whether an app is another one with its diff scrolled to a row.
pub open spec fn scrolled(before: App, diff_scroll: u16, after: App) -> bool {
    after == (App { view: View { diff_scroll, ..before.view }, ..before })
}

/// Whether an app is another one after a step, as far as it needs nothing from
/// outside. A step that does leaves the app as it is until the answer comes.
pub open spec fn responds(before: App, step: Step, viewport: u16, after: App) -> bool {
    if task_of(step) is Some {
        after == before
    } else {
        match step {
            Step::Quit => after == (App { should_quit: true, ..before }),
            Step::CancelSearch => {
                &&& after.input.search.at_rest()
                &&& after == (App {
                    input: Input { search: after.input.search, ..before.input },
                    ..before
                })
            },
            Step::AcceptSearch => after == (App {
                input: Input {
                    search: Search { editing: false, ..before.input.search },
                    ..before.input
                },
                ..before
            }),
            Step::ClearFilter => if before.input.filter.at_rest() {
                after == before
            } else {
                &&& after.input.filter.at_rest()
                &&& after.input.search.at_rest()
                &&& narrowed(
                    App {
                        input: Input { search: after.input.search, ..before.input },
                        ..before
                    },
                    after.input.filter,
                    after,
                )
            },
            Step::AcceptFilter => {
                &&& before.input.filter.query@.len() > 0 ==> says(
                    after.view.notice,
                    decimal_of(file_count(before.view.rows@)) + " matching — Esc clears"@,
                    false,
                )
                &&& before.input.filter.query@.len() == 0 ==> after.view.notice is None
                &&& after == (App {
                    view: View { notice: after.view.notice, ..before.view },
                    input: Input {
                        filter: Filter { editing: false, ..before.input.filter },
                        ..before.input
                    },
                    ..before
                })
            },
            Step::CancelAnnotation => after == (App {
                input: Input { annotating: None, ..before.input },
                ..before
            }),
            Step::AnnotationNextKind => match before.input.annotating {
                Some(a) => after.input.annotating matches Some(now) && now == (Annotating {
                    kind: match a.kind {
                        Kind::Issue => Kind::Suggestion,
                        Kind::Suggestion => Kind::Question,
                        Kind::Question => Kind::Note,
                        Kind::Note => Kind::Issue,
                    },
                    ..a
                }) && writing(before, after, now),
                None => after == before,
            },
            Step::CancelPrompt => after == (App {
                input: Input { prompt: None, ..before.input },
                ..before
            }),
            Step::CancelDelegating => after == (App {
                input: Input { delegating: None, ..before.input },
                ..before
            }),
            Step::CloseRevisions => closed(before, after),
            Step::RevisionsNext => match before.view.revisions {
                None => closed(before, after),
                Some(list) => opened(
                    before,
                    after,
                    crate::app::Revisions {
                        selected: selectable_from(list.kind, list.selected + 1, list.selected),
                        ..list
                    },
                ),
            },
            Step::RevisionsPrevious => match before.view.revisions {
                None => closed(before, after),
                Some(list) => opened(
                    before,
                    after,
                    crate::app::Revisions {
                        selected: selectable_below(
                            list.kind,
                            list.selected as int,
                            list.selected,
                        ),
                        ..list
                    },
                ),
            },
            Step::ToggleHelp => acted(before, Action::Help, viewport, after),
            Step::ScrollHelp(by) => after == (App {
                view: View {
                    help_scroll: wound(
                        before.view.help_scroll,
                        by as int,
                        furthest(ACTION_COUNT, viewport),
                    ),
                    ..before.view
                },
                ..before
            }),
            Step::ScrollHelpTo(end) => after == (App {
                view: View {
                    help_scroll: if end {
                        furthest(ACTION_COUNT, viewport)
                    } else {
                        0
                    },
                    ..before.view
                },
                ..before
            }),
            Step::Do(action) => acted(before, action, viewport, after),
            Step::Nothing => after == before,
            _ => retyped_line(before, step, viewport, after),
        }
    }
}

impl App {
    /// Answer a keypress: the state after it, and what has to be done outside
    /// for it, if anything.
    ///
    /// A stale notice is cleared on the next keypress so it does not linger.
    pub fn respond(self, press: Press, viewport: u16) -> (r: (Self, Option<Task>))
        ensures
            ({
                let before = App { view: View { notice: None, ..self.view }, ..self };
                let step = step_of(before, press, viewport);
                responds(before, step, viewport, r.0) && r.1 == task_of(step)
            }),
    {
        let app = self.without_notice();
        let step = app.step_for(press, viewport);
        let task = task_for(step);
        (app.take(step, viewport), task)
    }

    /// Take a step, as far as it needs nothing from outside.
    fn take(self, step: Step, viewport: u16) -> (r: Self)
        ensures
            responds(self, step, viewport, r),
    {
        match step {
            Step::Quit => self.quit(),
            Step::CancelSearch => self.cancel_search(),
            Step::AcceptSearch => self.accept_search(),
            Step::SearchBackspace => self.search_backspace(viewport),
            Step::SearchPush(c) => self.search_push(c, viewport),
            Step::ClearFilter => self.clear_filter(),
            Step::AcceptFilter => self.accept_filter(),
            Step::FilterBackspace => self.filter_backspace(),
            Step::FilterPush(c) => self.filter_push(c),
            Step::CancelAnnotation => self.cancel_annotation(),
            Step::AnnotationBackspace => self.annotation_backspace(),
            Step::AnnotationNextKind => self.annotation_next_kind(),
            Step::AnnotationPush(c) => self.annotation_push(c),
            Step::CancelPrompt => self.cancel_prompt(),
            Step::PromptBackspace => self.prompt_backspace(),
            Step::PromptPush(c) => self.prompt_push(c),
            Step::CancelDelegating => self.cancel_delegating(),
            Step::DelegateBackspace => self.delegate_backspace(),
            Step::DelegatePush(c) => self.delegate_push(c),
            Step::CloseRevisions => self.close_revisions(),
            Step::RevisionsNext => self.revisions_next(),
            Step::RevisionsPrevious => self.revisions_previous(),
            Step::ToggleHelp => self.toggle_help(),
            Step::ScrollHelp(by) => self.scroll_help(by, viewport),
            Step::ScrollHelpTo(end) => self.scroll_help_to(end, viewport),
            Step::Do(action) => self.act(action, viewport),
            Step::SaveAnnotation => self,
            Step::SendPrompt => self,
            Step::SendDelegating => self,
            Step::ShowRevision => self,
            Step::Nothing => self,
        }
    }

    /// Do what an action asks for, as far as it needs nothing from outside.
    fn act(self, action: Action, viewport: u16) -> (r: Self)
        ensures
            acted(self, action, viewport, r),
    {
        match action {
            Action::Quit => self.quit(),
            Action::Help => self.toggle_help(),
            Action::Refresh => self.refresh(),
            Action::SelectNext => self.select_next(),
            Action::SelectPrevious => self.select_previous(),
            Action::ToggleCollapsed => self.toggle_collapsed(),
            Action::ScrollDiffDown => self.scroll_diff_down(viewport),
            Action::ScrollDiffUp => self.scroll_diff_up(),
            Action::PageDiffDown => self.page_diff_down(viewport),
            Action::PageDiffUp => self.page_diff_up(viewport),
            Action::ScrollDiffHome => self.scroll_diff_home(),
            Action::ScrollDiffEnd => self.scroll_diff_end(viewport),
            Action::ToggleSplitDiff => self.toggle_split_diff(),
            Action::ToggleShowAll => self.toggle_show_all(),
            Action::ToggleBlame => self.toggle_blame(),
            Action::BeginFilter => self.begin_filter(),
            Action::BeginSearch => self.begin_search(),
            Action::SearchNext => self.search_next(viewport),
            Action::SearchPrevious => self.search_previous(viewport),
            // The annotation cursor moves through the diff independently of the
            // file cursor in the tree, so marking a line does not disturb either.
            Action::CursorDown => self.cursor_down().cursor_into_view(viewport),
            Action::CursorUp => self.cursor_up().cursor_into_view(viewport),
            Action::BeginAnnotation => self.begin_annotation(),
            _ => self,
        }
    }
}

/// What the second key of the menu of writes asks for.
#[derive(Debug, Clone, Copy, PartialEq, Eq, Structural)]
pub enum Menu {
    Commit,
    Stage,
    Unstage,
    Stash,
    Lazygit,
    /// Anything else abandons the sequence rather than guessing.
    Nothing,
}

/// What the second key of the menu of writes asks for.
pub open spec fn menu_of(press: Press) -> Menu {
    match press {
        Press::Key { code: Key::Char(c), .. } => if c == 'c' {
            Menu::Commit
        } else if c == 's' {
            Menu::Stage
        } else if c == 'u' {
            Menu::Unstage
        } else if c == 't' {
            Menu::Stash
        } else if c == 'l' {
            Menu::Lazygit
        } else {
            Menu::Nothing
        },
        _ => Menu::Nothing,
    }
}

/// What the second key of the menu of writes asks for.
pub fn menu_for(press: Press) -> (r: Menu)
    ensures
        r == menu_of(press),
{
    match press {
        Press::Key { code: Key::Char(c), .. } => if c == 'c' {
            Menu::Commit
        } else if c == 's' {
            Menu::Stage
        } else if c == 'u' {
            Menu::Unstage
        } else if c == 't' {
            Menu::Stash
        } else if c == 'l' {
            Menu::Lazygit
        } else {
            Menu::Nothing
        },
        _ => Menu::Nothing,
    }
}

/// How a program that was given the terminal ended.
#[derive(Debug, Clone, Copy, PartialEq, Eq, Structural)]
pub struct Exit {
    pub success: bool,
    /// The exit status, or nothing where a signal ended it.
    pub code: Option<i32>,
}

/// How running lazygit went.
#[derive(Debug, PartialEq, Eq)]
pub enum Lazygit {
    Ran,
    NotInstalled,
    /// It could not be run, and what the system said about it.
    Failed(String),
}

impl App {
    /// Offer the menu of writes, before waiting for its second key.
    pub fn with_git_menu(self) -> (r: Self)
        ensures
            noticed(self, r, "g — c commit, s stage, u unstage, t stash, l lazygit"@, false),
    {
        self.told("g — c commit, s stage, u unstage, t stash, l lazygit")
    }

    /// The repository to hand to lazygit: the one under the cursor, or the
    /// first listed when the cursor is on a project row — either way lazygit
    /// needs somewhere to open.
    pub fn lazygit_root(&self) -> (r: Option<String>)
        ensures
            match r {
                Some(root) => if self.spot() is Some {
                    root@ == self.root_here()
                } else {
                    self.data.projects@.len() > 0 && root@ == self.data.projects@[0].project.root@
                },
                None => self.spot() is None && self.data.projects@.len() == 0,
            },
    {
        match self.selected_stray() {
            Some((root, _)) => Some(root.clone()),
            None => match self.first_root() {
                Some(root) => Some(root.clone()),
                None => None,
            },
        }
    }

    /// Take the terminal back from lazygit. It can have changed anything, so the
    /// list is re-read rather than trusted.
    pub fn with_lazygit_closed(self, outcome: Lazygit) -> (r: Self)
        ensures
            match outcome {
                Lazygit::Ran => refreshed(self, r),
                Lazygit::NotInstalled => noticed(self, r, "lazygit is not installed"@, true),
                Lazygit::Failed(e) => noticed(self, r, "could not run lazygit: "@ + e@, true),
            },
    {
        match outcome {
            Lazygit::Ran => self.refresh(),
            Lazygit::NotInstalled => self.refused("lazygit is not installed"),
            Lazygit::Failed(e) => self.with_notice(
                Notice::error("could not run lazygit: ".to_owned().concat(e.as_str())),
            ),
        }
    }

    /// Take the terminal back from the editor. What was edited is read again
    /// where it went well.
    pub fn with_editor_closed(self, outcome: Result<Exit, OpenError>) -> (r: Self)
        ensures
            match outcome {
                Ok(exit) => if exit.success {
                    refreshed(self, r)
                } else {
                    noticed(
                        self,
                        r,
                        "editor exited with status "@ + (match exit.code {
                            Some(code) => decimal_int(code as int),
                            None => "signal"@,
                        }),
                        true,
                    )
                },
                Err(e) => noticed(self, r, e.text(), true),
            },
    {
        match outcome {
            Ok(exit) => {
                if exit.success {
                    return self.refresh();
                }
                let code = match exit.code {
                    Some(code) => decimal_i32(code),
                    None => "signal".to_owned(),
                };
                self.with_notice(
                    Notice::error("editor exited with status ".to_owned().concat(code.as_str())),
                )
            },
            Err(e) => self.with_notice(Notice::error(e.message())),
        }
    }
}

/// A line that takes text owns the keyboard: while one is open no key quits.
pub proof fn typing_never_quits(app: App, press: Press, viewport: u16)
    requires
        line_open(app.input),
    ensures
        step_of(app, press, viewport) != Step::Quit,
        !(step_of(app, press, viewport) is Do),
{
}

/// Ctrl-C always backs out: of the line that is open, or of the viewer.
pub proof fn interrupting_backs_out(app: App, press: Press, viewport: u16)
    requires
        is_interrupt(press),
    ensures
        match step_of(app, press, viewport) {
            Step::CancelSearch => app.input.search.editing,
            Step::ClearFilter => app.input.filter.editing,
            Step::CancelAnnotation => app.input.annotating is Some,
            Step::CancelPrompt => app.input.prompt is Some,
            Step::CancelDelegating => app.input.delegating is Some,
            Step::Quit => !line_open(app.input),
            _ => false,
        },
{
}

/// Esc quits only where nothing covers the list: no line, no list, no key
/// reference and no query.
pub proof fn escape_quits_last(app: App, viewport: u16)
    ensures
        step_of(app, Press::Esc, viewport) == Step::Quit <==> !line_open(app.input)
            && app.view.revisions is None && !app.view.show_help && app.input.filter.query@.len()
            == 0,
{
}

} // verus!
