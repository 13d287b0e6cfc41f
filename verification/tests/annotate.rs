//! Notes pinned to lines of a diff.

use herdr_strays::annotate::{Anchor, Annotation, Annotations, Kind, Located};
use herdr_strays::model::{number_lines, DiffLine};

fn diff(raw: &[&str]) -> Vec<DiffLine> {
    number_lines(raw.iter().map(|l| DiffLine::parse(l)).collect())
}

#[test]
fn an_anchor_records_the_line_it_was_written_about() {
    let lines = diff(&["@@ -1,2 +1,2 @@", "+let x = 1;", " unchanged"]);
    let anchor = Anchor::of("src/a.rs", &lines[1]).expect("an added line is anchorable");

    assert_eq!(anchor.line, 1);
    assert_eq!(anchor.file, "src/a.rs");
}

#[test]
fn a_removed_line_cannot_be_annotated() {
    // It is not in the new file, so a note on it would have nothing to
    // point at once the diff is regenerated.
    let lines = diff(&["@@ -1,2 +1,1 @@", "-gone", " kept"]);
    assert_eq!(Anchor::of("src/a.rs", &lines[1]), None);
}

#[test]
fn a_hunk_header_cannot_be_annotated() {
    let lines = diff(&["@@ -1,1 +1,1 @@", "+real"]);
    assert_eq!(Anchor::of("src/a.rs", &lines[0]), None);
}

#[test]
fn an_unchanged_diff_locates_the_annotation_exactly() {
    let lines = diff(&["@@ -1,2 +1,2 @@", "+let x = 1;", " unchanged"]);
    let anchor = Anchor::of("src/a.rs", &lines[1]).unwrap();

    assert_eq!(anchor.locate(&lines), Located::Exact(1));
}

#[test]
fn an_edit_above_moves_the_annotation_rather_than_losing_it() {
    let before = diff(&["@@ -1,2 +1,2 @@", "+let x = 1;", " tail"]);
    let anchor = Anchor::of("src/a.rs", &before[1]).unwrap();

    // Two lines inserted above: the annotated line is now at 3.
    let after = diff(&[
        "@@ -1,4 +1,4 @@",
        "+use std::fmt;",
        "+",
        "+let x = 1;",
        " tail",
    ]);

    assert_eq!(
        anchor.locate(&after),
        Located::Moved(3),
        "the note follows its line"
    );
}

#[test]
fn a_deleted_line_orphans_its_annotation_rather_than_reassigning_it() {
    let before = diff(&["@@ -1,2 +1,2 @@", "+let x = 1;", " tail"]);
    let anchor = Anchor::of("src/a.rs", &before[1]).unwrap();

    // The annotated line is gone; something else occupies line 1.
    let after = diff(&["@@ -1,1 +1,1 @@", "+something else entirely", " tail"]);

    assert_eq!(
        anchor.locate(&after),
        Located::Orphaned,
        "a note must not silently transfer to unrelated code"
    );
}

#[test]
fn staging_a_line_does_not_orphan_its_annotation() {
    // `+let x = 1;` becomes ` let x = 1;` once staged. The note is about
    // the code, not about whether it happens to be staged.
    let before = diff(&["@@ -1,1 +1,1 @@", "+let x = 1;"]);
    let anchor = Anchor::of("src/a.rs", &before[1]).unwrap();

    let after = diff(&["@@ -1,1 +1,1 @@", " let x = 1;"]);
    assert_eq!(anchor.locate(&after), Located::Exact(1));
}

#[test]
fn trailing_whitespace_does_not_orphan_an_annotation() {
    let before = diff(&["@@ -1,1 +1,1 @@", "+let x = 1;"]);
    let anchor = Anchor::of("src/a.rs", &before[1]).unwrap();

    let after = diff(&["@@ -1,1 +1,1 @@", "+let x = 1;   "]);
    assert_eq!(anchor.locate(&after), Located::Exact(1));
}

#[test]
fn a_line_that_moved_beyond_the_search_radius_is_orphaned() {
    // Past a point, "the same text somewhere else in the file" is more
    // likely a coincidence than the annotated line having moved.
    let before = diff(&["@@ -1,1 +1,1 @@", "+needle"]);
    let anchor = Anchor::of("src/a.rs", &before[1]).unwrap();

    let mut raw = vec!["@@ -1,200 +1,200 @@".to_string()];
    for _ in 0..100 {
        raw.push(" filler".to_string());
    }
    raw.push("+needle".to_string());
    let borrowed: Vec<&str> = raw.iter().map(String::as_str).collect();

    assert_eq!(anchor.locate(&diff(&borrowed)), Located::Orphaned);
}

#[test]
fn the_nearest_of_several_identical_lines_wins() {
    let before = diff(&["@@ -10,1 +10,1 @@", "+dup"]);
    let anchor = Anchor::of("src/a.rs", &before[1]).unwrap();

    // `dup` at 8 and at 12; 8 is two away, 12 is two away, and the search
    // checks below before above at each distance.
    let after = diff(&["@@ -8,5 +8,5 @@", "+dup", " a", " b", " c", "+dup"]);
    assert_eq!(anchor.locate(&after), Located::Moved(12));
}

#[test]
fn kinds_cycle_back_to_the_start() {
    let mut kind = Kind::Issue;
    for _ in 0..4 {
        kind = kind.next();
    }
    assert_eq!(kind, Kind::Issue);
}

#[test]
fn an_unknown_stored_kind_degrades_to_a_note() {
    // A file written by a later version should lose the kind, not the note.
    assert_eq!(Kind::parse("blocker"), Kind::Note);
    assert_eq!(Kind::parse("issue"), Kind::Issue);
}

fn annotation(file: &str, line: u32, text: &str) -> Annotation {
    Annotation {
        anchor: Anchor {
            file: file.to_string(),
            line,
            hash: 0,
        },
        kind: Kind::Issue,
        text: text.to_string(),
    }
}

#[test]
fn annotations_accumulate_without_mutating_what_came_before() {
    let empty = Annotations::new();
    let one = empty.with(annotation("a.rs", 1, "first"));
    let two = one.with(annotation("b.rs", 2, "second"));

    assert!(empty.is_empty(), "the original is untouched");
    assert_eq!(one.len(), 1);
    assert_eq!(two.len(), 2);
}

#[test]
fn removing_a_line_leaves_annotations_on_other_lines_alone() {
    let notes = Annotations::new()
        .with(annotation("a.rs", 1, "keep"))
        .with(annotation("a.rs", 2, "drop"))
        .with(annotation("b.rs", 2, "keep too"));

    let after = notes.without_line("a.rs", 2);
    assert_eq!(after.len(), 2);
    assert!(after.iter().iter().all(|a| a.text != "drop"));
}

#[test]
fn annotations_can_be_read_back_per_file() {
    let notes = Annotations::new()
        .with(annotation("a.rs", 1, "one"))
        .with(annotation("b.rs", 1, "two"));

    let for_a = notes.for_file("a.rs");
    assert_eq!(for_a.len(), 1);
    assert_eq!(for_a[0].text, "one");
}
