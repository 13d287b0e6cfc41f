//! The keys of a reader who has set none.

use vstd::prelude::*;

use crate::config::keys::{default_entries, table, Action, Chord, Key};

verus! {

/// What a key does for a reader who has set none: letters for what they stand for,
/// capitals for what is done more rarely, and the keys that every pager has.
pub open spec fn usual(chord: Chord) -> Option<Action> {
    let code = chord.code;
    if chord.control {
        if code == Key::Char('c') {
            Some(Action::Quit)
        } else {
            None
        }
    } else if code == Key::Char('q') {
        Some(Action::Quit)
    } else if code == Key::Char('?') || code == Key::Char('h') {
        Some(Action::Help)
    } else if code == Key::Char('r') {
        Some(Action::Refresh)
    } else if code == Key::Char('j') || code == Key::Down {
        Some(Action::SelectNext)
    } else if code == Key::Char('k') || code == Key::Up {
        Some(Action::SelectPrevious)
    } else if code == Key::Enter || code == Key::Char(' ') {
        Some(Action::ToggleCollapsed)
    } else if code == Key::Char('J') {
        Some(Action::ScrollDiffDown)
    } else if code == Key::Char('K') {
        Some(Action::ScrollDiffUp)
    } else if code == Key::Char('f') || code == Key::PageDown {
        Some(Action::PageDiffDown)
    } else if code == Key::Char('b') || code == Key::PageUp {
        Some(Action::PageDiffUp)
    } else if code == Key::Char('g') || code == Key::Home {
        Some(Action::ScrollDiffHome)
    } else if code == Key::Char('G') || code == Key::End {
        Some(Action::ScrollDiffEnd)
    } else if code == Key::Char('m') {
        Some(Action::ToggleBase)
    } else if code == Key::Char('a') {
        Some(Action::ToggleShowAll)
    } else if code == Key::Char('w') {
        Some(Action::ToggleScope)
    } else if code == Key::Char('V') {
        Some(Action::ToggleSplitDiff)
    } else if code == Key::Char('B') {
        Some(Action::ToggleBlame)
    } else if code == Key::Char('H') {
        Some(Action::ToggleHistory)
    } else if code == Key::Char('S') {
        Some(Action::ToggleStashes)
    } else if code == Key::Char('W') {
        Some(Action::ToggleBranches)
    } else if code == Key::Char('L') {
        Some(Action::ToggleGraph)
    } else if code == Key::Char('/') {
        Some(Action::BeginFilter)
    } else if code == Key::Char('s') {
        Some(Action::BeginSearch)
    } else if code == Key::Char('n') {
        Some(Action::SearchNext)
    } else if code == Key::Char('N') {
        Some(Action::SearchPrevious)
    } else if code == Key::Tab {
        Some(Action::CursorDown)
    } else if code == Key::BackTab {
        Some(Action::CursorUp)
    } else if code == Key::Char('A') {
        Some(Action::BeginAnnotation)
    } else if code == Key::Char('D') {
        Some(Action::RemoveAnnotation)
    } else if code == Key::Char('R') {
        Some(Action::SendReview)
    } else if code == Key::Char('e') {
        Some(Action::OpenEditor)
    } else if code == Key::Char('c') {
        Some(Action::BeginPrompt)
    } else if code == Key::Char('Y') {
        Some(Action::GitMenu)
    } else {
        None
    }
}

/// The first `n` of the entries.
spec fn first(n: int) -> Seq<(Chord, Action)> {
    default_entries().take(n)
}

proof fn lemma_next(n: int)
    requires
        0 <= n < default_entries().len(),
    ensures
        table(first(n + 1)) == table(first(n)).insert(
            default_entries()[n].0,
            default_entries()[n].1,
        ),
{
    let all = default_entries();
    assert(first(n + 1).drop_last() =~= first(n));
    assert(first(n + 1).last() == all[n]);
}

/// Every key does by default what it usually does, and no other key does anything.
pub proof fn keys_do_the_usual_by_default(chord: Chord)
    ensures
        match usual(chord) {
            Some(action) => table(default_entries()).contains_key(chord) && table(
                default_entries(),
            )[chord] == action,
            None => !table(default_entries()).contains_key(chord),
        },
{
    let all = default_entries();
    assert(first(0) =~= Seq::<(Chord, Action)>::empty());
    lemma_next(0);
    lemma_next(1);
    lemma_next(2);
    lemma_next(3);
    lemma_next(4);
    lemma_next(5);
    lemma_next(6);
    lemma_next(7);
    lemma_next(8);
    lemma_next(9);
    lemma_next(10);
    lemma_next(11);
    lemma_next(12);
    lemma_next(13);
    lemma_next(14);
    lemma_next(15);
    lemma_next(16);
    lemma_next(17);
    lemma_next(18);
    lemma_next(19);
    lemma_next(20);
    lemma_next(21);
    lemma_next(22);
    lemma_next(23);
    lemma_next(24);
    lemma_next(25);
    lemma_next(26);
    lemma_next(27);
    lemma_next(28);
    lemma_next(29);
    lemma_next(30);
    lemma_next(31);
    lemma_next(32);
    lemma_next(33);
    lemma_next(34);
    lemma_next(35);
    lemma_next(36);
    lemma_next(37);
    lemma_next(38);
    lemma_next(39);
    lemma_next(40);
    lemma_next(41);
    assert(first(all.len() as int) =~= all);
}

} // verus!
