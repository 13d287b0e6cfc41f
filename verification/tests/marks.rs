//! The notes a change leaves behind.

use herdr_strays::marks::{marks_in, Mark};
use herdr_strays::model::{number_lines, Diff, DiffLine};

/// Build a diff the way the app does, from raw git output lines.
fn diff_of(raw: &[&str]) -> Diff {
    Diff::Text(number_lines(
        raw.iter().map(|line| DiffLine::parse(line)).collect(),
    ))
}

#[test]
fn a_todo_on_an_added_line_is_counted() {
    let marks = marks_in(&diff_of(&[
        "@@ -1 +1,2 @@",
        " fn alpha() {}",
        "+// TODO: finish",
    ]));

    assert_eq!(marks.count(Mark::Todo), 1);
    assert_eq!(marks.total(), 1);
}

/// Old debt in surrounding code is not this change's doing.
#[test]
fn a_todo_in_a_context_line_belongs_to_somebody_else() {
    let marks = marks_in(&diff_of(&[
        "@@ -1,2 +1,2 @@",
        " // TODO: written years ago",
        "+let widget = 1;",
    ]));

    assert!(marks.is_empty(), "context is not what this change added");
}

/// Deleting a TODO is paying debt off, and must not read as adding it.
#[test]
fn a_todo_being_removed_is_not_counted_against_the_change() {
    let marks = marks_in(&diff_of(&[
        "@@ -1,2 +1 @@",
        "-// TODO: finish",
        " fn alpha() {}",
    ]));

    assert!(marks.is_empty(), "the note is going away, not arriving");
}

#[test]
fn every_kind_is_recognised() {
    for mark in Mark::all() {
        let line = format!("+// {}: something", mark.word());
        let marks = marks_in(&diff_of(&["@@ -1 +1 @@", &line]));
        assert_eq!(marks.count(mark), 1, "{}", mark.word());
    }
}

#[test]
fn a_word_that_merely_contains_the_marker_is_not_one() {
    // `AUTODOC` holds `TODO`; a substring match would flag it.
    let marks = marks_in(&diff_of(&["@@ -1 +1 @@", "+const AUTODOC: bool = true;"]));

    assert!(marks.is_empty(), "matched inside a longer word");
}

#[test]
fn a_marker_followed_by_punctuation_still_counts() {
    // The ordinary shapes: a colon, a name in brackets, end of line.
    for line in ["+// TODO:", "+// TODO(ales) look again", "+// TODO"] {
        let marks = marks_in(&diff_of(&["@@ -1 +1 @@", line]));
        assert_eq!(marks.count(Mark::Todo), 1, "{line}");
    }
}

#[test]
fn a_plural_marker_is_the_same_note() {
    // `TODOS` is bound on the right by a letter, so it is not standalone.
    let marks = marks_in(&diff_of(&["@@ -1 +1 @@", "+// TODOS live here"]));

    assert!(marks.is_empty(), "TODOS is a word, not a marker");
}

#[test]
fn two_markers_on_one_line_are_both_counted() {
    let marks = marks_in(&diff_of(&[
        "@@ -1 +1 @@",
        "+// TODO: split this, FIXME: and check the bound",
    ]));

    assert_eq!(marks.count(Mark::Todo), 1);
    assert_eq!(marks.count(Mark::Fixme), 1);
    assert_eq!(marks.total(), 2);
}

/// A line listing the same word twice means it twice.
#[test]
fn the_same_marker_twice_on_a_line_counts_twice() {
    let marks = marks_in(&diff_of(&["@@ -1 +1 @@", "+// TODO one, TODO two"]));

    assert_eq!(marks.count(Mark::Todo), 2);
}

#[test]
fn a_binary_diff_carries_no_marks_rather_than_failing() {
    assert!(marks_in(&Diff::Binary).is_empty());
    assert!(marks_in(&Diff::Deleted).is_empty());
    assert!(marks_in(&Diff::Empty).is_empty());
}

#[test]
fn nothing_found_has_no_label_rather_than_an_empty_one() {
    assert_eq!(marks_in(&Diff::Empty).label(), None);
}

#[test]
fn the_label_names_each_kind_and_its_count() {
    let marks = marks_in(&diff_of(&[
        "@@ -1 +1,3 @@",
        "+// TODO: one",
        "+// TODO: two",
        "+// FIXME: three",
    ]));

    assert_eq!(marks.label().as_deref(), Some("TODO×2 FIXME×1"));
}

/// The order is fixed so the label does not reshuffle between redraws.
#[test]
fn kinds_are_always_reported_in_the_same_order() {
    let marks = marks_in(&diff_of(&[
        "@@ -1 +1,2 @@",
        "+// XXX: last",
        "+// TODO: first",
    ]));

    let kinds: Vec<Mark> = marks.iter().iter().map(|(mark, _)| *mark).collect();
    assert_eq!(kinds, vec![Mark::Todo, Mark::Xxx]);
}
