//! What the keys mean.

use vstd::prelude::*;
use vstd::view::View as _;

use crate::app::pressing::{
    acted, action_step, line_open, retyped_line, revision_step, step_of, task_of, Press,
    Step, Task,
};
use crate::app::scroll::{capped, furthest, page, row_count};
use crate::app::App;
use crate::config::keys::{Chord, Key, Modifiers};
use crate::config::Action;

verus! {

/// With no line and no list open, a key does the action that it is bound to, and a
/// key that is bound to none does nothing.
pub proof fn a_key_does_its_action(app: App, code: Key, modifiers: Modifiers, viewport: u16)
    requires
        !line_open(app.input),
        app.view.revisions is None,
        !app.view.show_help,
        !(code == Key::Char('c') && modifiers.control),
    ensures
        ({
            let chord = Chord { code, control: modifiers.control };
            let step = step_of(app, Press::Key { code, modifiers }, viewport);
            if app.data.bindings@.contains_key(chord) {
                step == Step::Do(app.data.bindings@[chord])
            } else {
                step == Step::Nothing
            }
        }),
{
}

/// While a line is open, a character goes into it, whatever the character is bound
/// to; Enter accepts the line, Escape gives it up, and Backspace takes a character
/// back.
pub proof fn an_open_line_takes_what_is_typed(app: App, c: char, m: Modifiers, viewport: u16)
    requires
        !(c == 'c' && m.control),
    ensures
        app.input.search.editing ==> step_of(app, Press::Key { code: Key::Char(c), modifiers: m }, viewport)
            == Step::SearchPush(c) && step_of(
            app,
            Press::Key { code: Key::Enter, modifiers: m },
            viewport,
        ) == Step::AcceptSearch && step_of(app, Press::Esc, viewport) == Step::CancelSearch && step_of(
            app,
            Press::Key { code: Key::Backspace, modifiers: m },
            viewport,
        ) == Step::SearchBackspace,
        !app.input.search.editing && app.input.filter.editing ==> step_of(
            app,
            Press::Key { code: Key::Char(c), modifiers: m },
            viewport,
        ) == Step::FilterPush(c) && step_of(
            app,
            Press::Key { code: Key::Enter, modifiers: m },
            viewport,
        ) == Step::AcceptFilter && step_of(app, Press::Esc, viewport) == Step::ClearFilter && step_of(
            app,
            Press::Key { code: Key::Backspace, modifiers: m },
            viewport,
        ) == Step::FilterBackspace,
        !app.input.search.editing && !app.input.filter.editing && app.input.annotating is Some
            ==> step_of(app, Press::Key { code: Key::Char(c), modifiers: m }, viewport)
            == Step::AnnotationPush(c) && step_of(
            app,
            Press::Key { code: Key::Enter, modifiers: m },
            viewport,
        ) == Step::SaveAnnotation && step_of(app, Press::Esc, viewport) == Step::CancelAnnotation
            && step_of(app, Press::Key { code: Key::Backspace, modifiers: m }, viewport)
            == Step::AnnotationBackspace && step_of(
            app,
            Press::Key { code: Key::Tab, modifiers: m },
            viewport,
        ) == Step::AnnotationNextKind,
        !app.input.search.editing && !app.input.filter.editing && app.input.annotating is None
            && app.input.prompt is Some ==> step_of(
            app,
            Press::Key { code: Key::Char(c), modifiers: m },
            viewport,
        ) == Step::PromptPush(c) && step_of(
            app,
            Press::Key { code: Key::Enter, modifiers: m },
            viewport,
        ) == Step::SendPrompt && step_of(app, Press::Esc, viewport) == Step::CancelPrompt && step_of(
            app,
            Press::Key { code: Key::Backspace, modifiers: m },
            viewport,
        ) == Step::PromptBackspace,
        !app.input.search.editing && !app.input.filter.editing && app.input.annotating is None
            && app.input.prompt is None && app.input.delegating is Some ==> step_of(
            app,
            Press::Key { code: Key::Char(c), modifiers: m },
            viewport,
        ) == Step::DelegatePush(c) && step_of(
            app,
            Press::Key { code: Key::Enter, modifiers: m },
            viewport,
        ) == Step::SendDelegating && step_of(app, Press::Esc, viewport) == Step::CancelDelegating
            && step_of(app, Press::Key { code: Key::Backspace, modifiers: m }, viewport)
            == Step::DelegateBackspace,
{
}

/// A character that is typed and taken back leaves the line as it was.
pub proof fn taking_back_undoes_typing(before: App, typed_one: App, after: App, c: char, viewport: u16)
    ensures
        before.input.search.editing && retyped_line(
            before,
            Step::SearchPush(c),
            viewport,
            typed_one,
        ) && retyped_line(typed_one, Step::SearchBackspace, viewport, after)
            ==> typed_one.input.search.query@ == before.input.search.query@.push(c)
            && after.input.search.query@ == before.input.search.query@,
        before.input.filter.editing && retyped_line(
            before,
            Step::FilterPush(c),
            viewport,
            typed_one,
        ) && retyped_line(typed_one, Step::FilterBackspace, viewport, after)
            ==> typed_one.input.filter.query@ == before.input.filter.query@.push(c)
            && after.input.filter.query@ == before.input.filter.query@,
        before.input.annotating is Some && retyped_line(
            before,
            Step::AnnotationPush(c),
            viewport,
            typed_one,
        ) && retyped_line(typed_one, Step::AnnotationBackspace, viewport, after)
            ==> typed_one.input.annotating->0.text@ == before.input.annotating->0.text@.push(c)
            && after.input.annotating->0.text@ == before.input.annotating->0.text@
            && after.input.annotating->0.anchor == before.input.annotating->0.anchor
            && after.input.annotating->0.kind == before.input.annotating->0.kind,
        before.input.prompt is Some && retyped_line(
            before,
            Step::PromptPush(c),
            viewport,
            typed_one,
        ) && retyped_line(typed_one, Step::PromptBackspace, viewport, after)
            ==> typed_one.input.prompt->0@ == before.input.prompt->0@.push(c)
            && after.input.prompt->0@ == before.input.prompt->0@,
{
    assert(before.input.search.query@.push(c).drop_last() =~= before.input.search.query@);
    assert(before.input.filter.query@.push(c).drop_last() =~= before.input.filter.query@);
    if let Some(a) = before.input.annotating {
        assert(a.text@.push(c).drop_last() =~= a.text@);
    }
    if let Some(text) = before.input.prompt {
        assert(text@.push(c).drop_last() =~= text@);
    }
}

/// Down goes down and up goes up: by one row of the list, one line of the diff, one
/// line or almost a screen of scrolling, and never past the ends.
pub proof fn down_is_down_and_up_is_up(before: App, after: App, viewport: u16)
    requires
        before.view.rows@.len() <= usize::MAX,
        before.data.diff.lines().len() <= usize::MAX,
    ensures
        acted(before, Action::SelectNext, viewport, after) && before.view.selected + 1
            < before.view.rows@.len() ==> after.view.selected == before.view.selected + 1,
        acted(before, Action::SelectPrevious, viewport, after) && before.view.selected > 0
            ==> after.view.selected == before.view.selected - 1,
        acted(before, Action::CursorDown, viewport, after) && before.view.diff_cursor + 1
            < before.data.diff.lines().len() ==> after.view.diff_cursor == before.view.diff_cursor
            + 1,
        acted(before, Action::CursorUp, viewport, after) && before.view.diff_cursor > 0
            ==> after.view.diff_cursor == before.view.diff_cursor - 1,
        ({
            let max = furthest(capped(row_count(before)), viewport);
            let at = before.view.diff_scroll;
            &&& acted(before, Action::ScrollDiffDown, viewport, after) && at < max
                ==> after.view.diff_scroll == at + 1
            &&& acted(before, Action::ScrollDiffUp, viewport, after) && at > 0
                ==> after.view.diff_scroll == at - 1
            &&& acted(before, Action::PageDiffDown, viewport, after) && at + page(viewport) <= max
                ==> after.view.diff_scroll == at + page(viewport)
            &&& acted(before, Action::PageDiffUp, viewport, after) && at >= page(viewport)
                ==> after.view.diff_scroll == at - page(viewport)
            &&& acted(before, Action::ScrollDiffHome, viewport, after) ==> after.view.diff_scroll
                == 0
            &&& acted(before, Action::ScrollDiffEnd, viewport, after) ==> after.view.diff_scroll
                == max
        }),
        viewport > 3 ==> page(viewport) == viewport - 2,
        1 <= page(viewport),
{
}

/// What is switched on by a key is switched off by it again, and nothing else is
/// switched with it.
pub proof fn switching_twice_changes_nothing(before: App, between: App, after: App, viewport: u16)
    ensures
        acted(before, Action::ToggleSplitDiff, viewport, between) && acted(
            between,
            Action::ToggleSplitDiff,
            viewport,
            after,
        ) ==> after == before && between.view.split_diff != before.view.split_diff,
        acted(before, Action::ToggleShowAll, viewport, between) && acted(
            between,
            Action::ToggleShowAll,
            viewport,
            after,
        ) ==> after.view.show_all == before.view.show_all && between.view.show_all
            != before.view.show_all && between.data.scanning && after.data.projects
            == before.data.projects,
        acted(before, Action::ToggleBlame, viewport, between) && acted(
            between,
            Action::ToggleBlame,
            viewport,
            after,
        ) ==> after.view.show_blame == before.view.show_blame && between.view.show_blame
            != before.view.show_blame,
        acted(before, Action::Help, viewport, between) && acted(
            between,
            Action::Help,
            viewport,
            after,
        ) ==> after.view.show_help == before.view.show_help && between.view.show_help
            != before.view.show_help,
{
}

/// In an open list the arrows move, Enter shows the entry, and Escape closes the
/// list.
pub proof fn an_open_list_takes_the_arrows(m: Modifiers)
    ensures
        revision_step(Press::Key { code: Key::Down, modifiers: m }) == Step::RevisionsNext,
        revision_step(Press::Key { code: Key::Up, modifiers: m }) == Step::RevisionsPrevious,
        revision_step(Press::Key { code: Key::Char('j'), modifiers: m }) == Step::RevisionsNext,
        revision_step(Press::Key { code: Key::Char('k'), modifiers: m }) == Step::RevisionsPrevious,
        revision_step(Press::Key { code: Key::Enter, modifiers: m }) == Step::ShowRevision,
        revision_step(Press::Esc) == Step::CloseRevisions,
        task_of(Step::ShowRevision) == Some(Task::ShowRevision),
{
}

/// While the key reference shows, scrolling scrolls it and not the diff, and as far
/// as it would scroll the diff; every other action is what it is.
pub proof fn the_key_reference_scrolls(action: Action, viewport: u16)
    ensures
        action_step(action, false, viewport) == Step::Do(action),
        action_step(Action::ScrollDiffDown, true, viewport) == Step::ScrollHelp(1),
        action_step(Action::ScrollDiffUp, true, viewport) == Step::ScrollHelp((-1) as i32),
        action_step(Action::PageDiffDown, true, viewport) matches Step::ScrollHelp(n) && n == page(
            viewport,
        ),
        action_step(Action::PageDiffUp, true, viewport) matches Step::ScrollHelp(n) && n == -page(
            viewport,
        ),
        action_step(Action::ScrollDiffHome, true, viewport) == Step::ScrollHelpTo(false),
        action_step(Action::ScrollDiffEnd, true, viewport) == Step::ScrollHelpTo(true),
        action_step(Action::Quit, true, viewport) == Step::Do(Action::Quit),
{
}

} // verus!
