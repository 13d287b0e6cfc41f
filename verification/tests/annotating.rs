//! Writing notes on diff lines, and handing the collected review over.

use herdr_strays::annotate::Kind;
use herdr_strays::app::{App, Data, View};
use herdr_strays::config::Config;
use herdr_strays::discover::{Project, Scope};
use herdr_strays::model::{number_lines, Diff, DiffLine, Stray, StrayStatus};
use herdr_strays::tree::{ProjectStrays, Row};

/// The viewer with nothing open, as it starts.
fn blank() -> App {
    App::load(
        "herdr",
        Vec::new(),
        None,
        Scope::AllWorkspaces,
        &Config::default(),
    )
}

/// An app showing one file whose diff is the given raw lines.
fn app_showing(raw: &[&str]) -> App {
    let lines = number_lines(raw.iter().map(|l| DiffLine::parse(l)).collect());

    App {
        data: Data {
            projects: vec![ProjectStrays {
                project: Project {
                    root: "/nonexistent/herdr-strays-test-repo".to_string(),
                    name: "repo".into(),
                },
                strays: vec![Stray::new(StrayStatus::Modified, "a.rs")],
                branch: Some("main".into()),
                upstream: None,
                touched: None,
                agent: None,
                error: None,
            }],
            diff: Diff::Text(lines),
            ..blank().data
        },
        view: View {
            rows: vec![Row::File {
                project: 0,
                stray: 0,
                depth: 0,
            }],
            ..blank().view
        },
        ..blank()
    }
}

const DIFF: &[&str] = &["@@ -1,3 +1,3 @@", "+let x = 1;", " context", "-gone"];

#[test]
fn the_cursor_stops_at_the_ends_of_the_diff() {
    let app = app_showing(DIFF);
    assert_eq!(
        app.clone().cursor_up().view.diff_cursor,
        0,
        "already at the top"
    );

    let mut at_end = app;
    for _ in 0..20 {
        at_end = at_end.cursor_down();
    }
    assert_eq!(at_end.view.diff_cursor, 3, "four lines, last index is 3");
}

#[test]
fn an_added_line_can_be_annotated() {
    let app = app_showing(DIFF).cursor_down().begin_annotation();

    let pending = app.input.annotating.expect("the input opened");
    assert_eq!(pending.anchor.line, 1);
    assert_eq!(pending.kind, Kind::Issue, "issue is the starting kind");
}

#[test]
fn a_removed_line_refuses_the_annotation_with_a_reason() {
    // Index 3 is `-gone`, which is not in the new file.
    let mut app = app_showing(DIFF);
    for _ in 0..3 {
        app = app.cursor_down();
    }
    let app = app.begin_annotation();

    assert!(app.input.annotating.is_none(), "nothing to pin a note to");
    assert!(app.view.notice.expect("a reason is given").is_error);
}

#[test]
fn a_hunk_header_refuses_the_annotation() {
    let app = app_showing(DIFF).begin_annotation();
    assert!(app.input.annotating.is_none());
}

#[test]
fn typing_builds_the_note_and_tab_steps_its_kind() {
    let app = app_showing(DIFF)
        .cursor_down()
        .begin_annotation()
        .annotation_push('h')
        .annotation_push('i')
        .annotation_next_kind();

    let pending = app.input.annotating.expect("still open");
    assert_eq!(pending.text, "hi");
    assert_eq!(pending.kind, Kind::Suggestion);
}

#[test]
fn backspacing_past_the_start_leaves_the_line_open() {
    // A vanished input would swallow the next keystrokes.
    let app = app_showing(DIFF)
        .cursor_down()
        .begin_annotation()
        .annotation_backspace();

    assert_eq!(app.input.annotating.expect("still open").text, "");
}

#[test]
fn an_empty_note_is_discarded_rather_than_recorded() {
    // Enter on an empty line reads as "never mind".
    let app = app_showing(DIFF)
        .cursor_down()
        .begin_annotation()
        .annotation_push(' ')
        .annotation_recorded();

    assert!(app.input.annotating.is_none());
    assert!(app.data.annotations.is_empty(), "nothing worth keeping");
}

#[test]
fn cancelling_keeps_what_was_already_recorded() {
    let app = app_showing(DIFF)
        .cursor_down()
        .begin_annotation()
        .annotation_push('x')
        .cancel_annotation();

    assert!(app.input.annotating.is_none());
    assert!(
        app.data.annotations.is_empty(),
        "the cancelled note is gone"
    );
}

#[test]
fn a_saved_note_is_located_back_onto_its_line() {
    let app = app_showing(DIFF)
        .cursor_down()
        .begin_annotation()
        .annotation_push('!')
        .annotation_recorded();

    assert_eq!(app.data.annotations.len(), 1);
    assert_eq!(
        app.located_annotations(),
        vec![(1, Kind::Issue)],
        "the marker lands on the line it was written about"
    );
}

#[test]
fn removing_a_note_needs_one_to_be_there() {
    let app = app_showing(DIFF).cursor_down().remove_annotation_here(Ok(()));
    assert!(app.view.notice.expect("says why nothing happened").is_error);
}

#[test]
fn sending_with_nothing_collected_says_so() {
    let app = app_showing(DIFF).send_review(&Vec::new(), Ok(()), Ok(()));
    assert!(app.view.notice.expect("a reason is given").is_error);
}

#[test]
fn the_cursor_scrolls_the_pane_to_follow_it() {
    // Marking a line must not require scrolling to it first.
    let raw: Vec<String> = std::iter::once("@@ -1,50 +1,50 @@".to_string())
        .chain((0..50).map(|i| format!("+line {i}")))
        .collect();
    let borrowed: Vec<&str> = raw.iter().map(String::as_str).collect();

    let mut app = app_showing(&borrowed);
    for _ in 0..30 {
        app = app.cursor_down();
    }
    let app = app.cursor_into_view(10);

    assert!(
        app.view.diff_scroll > 0,
        "the pane followed the cursor down, got {}",
        app.view.diff_scroll
    );
    assert!(
        usize::from(app.view.diff_scroll) <= app.view.diff_cursor,
        "the cursor is not above the window"
    );
}
