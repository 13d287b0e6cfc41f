//! The state of the viewer and its transitions.

use herdr_strays::annotate::{Anchor, Annotation, Annotations, Kind};
use herdr_strays::app::{App, Data, Filter, Input, View};
use herdr_strays::config::Config;
use herdr_strays::discover::{Project, Scope};
use herdr_strays::model::{Diff, DiffLine, Stray, StrayStatus};
use herdr_strays::tree::{ProjectStrays, Row};

/// The viewer with nothing open, as it starts.
fn blank() -> App {
    App::load(
        "herdr",
        Vec::new(),
        None,
        Scope::AllWorkspaces,
        &Config::default(),
    )
}

fn app_with_diff(lines: usize) -> App {
    let diff = Diff::Text(
        (0..lines)
            .map(|i| DiffLine::parse(&format!("+line {i}")))
            .collect(),
    );
    App {
        data: Data {
            projects: vec![ProjectStrays {
                project: Project {
                    root: "/repo".to_string(),
                    name: "repo".into(),
                },
                strays: vec![Stray::new(StrayStatus::Modified, "a.rs")],
                branch: Some("main".into()),
                upstream: None,
                touched: None,
                agent: None,
                error: None,
            }],
            diff,
            ..blank().data
        },
        view: View {
            rows: vec![Row::File {
                project: 0,
                stray: 0,
                depth: 0,
            }],
            ..blank().view
        },
        ..blank()
    }
}

fn scrolled_to(diff: Diff, diff_scroll: u16) -> App {
    App {
        data: Data {
            diff,
            ..blank().data
        },
        view: View {
            diff_scroll,
            ..blank().view
        },
        ..blank()
    }
}

fn with_prompt(prompt: Option<String>) -> App {
    App {
        input: Input {
            prompt,
            ..blank().input
        },
        ..blank()
    }
}

#[test]
fn app_paging_down_moves_by_almost_a_screen() {
    let app = app_with_diff(245).page_diff_down(13);
    assert_eq!(app.view.diff_scroll, 11, "a 13-row pane pages by 11");
}

#[test]
fn app_jumping_to_the_end_lands_at_the_last_screenful() {
    let app = app_with_diff(245).scroll_diff_end(13);
    assert_eq!(app.view.diff_scroll, 232, "245 lines minus a 13-row pane");
}

#[test]
fn app_scrolling_cannot_pass_the_end_of_the_diff() {
    let mut app = app_with_diff(20);
    for _ in 0..100 {
        app = app.scroll_diff_down(13);
    }
    assert_eq!(app.view.diff_scroll, 7, "20 lines minus a 13-row pane");
}

#[test]
fn app_a_diff_shorter_than_the_pane_does_not_scroll() {
    let app = app_with_diff(5).scroll_diff_end(13);
    assert_eq!(app.view.diff_scroll, 0, "nothing to scroll to");
}

#[test]
fn app_home_returns_to_the_top() {
    let app = app_with_diff(245).scroll_diff_end(13).scroll_diff_home();
    assert_eq!(app.view.diff_scroll, 0);
}

#[test]
fn app_scrolling_up_stops_at_the_top() {
    let app = app_with_diff(245).scroll_diff_up().scroll_diff_up();
    assert_eq!(app.view.diff_scroll, 0);
}

/// The filesystem watch fires every few hundred milliseconds while the user is
/// reading. A silent refresh that reset the scroll would make a long diff
/// impossible to read.
#[test]
fn app_a_silent_refresh_keeps_the_reader_where_they_were() {
    let app = scrolled_to(
        Diff::Text(
            (0..200)
                .map(|i| DiffLine::parse(&format!("+line {i}")))
                .collect(),
        ),
        87,
    );

    let refreshed = app.refresh_silently();
    assert_eq!(
        refreshed.view.diff_scroll, 87,
        "an unrequested refresh must not move the reader"
    );
}

#[test]
fn app_a_deliberate_refresh_starts_the_diff_from_the_top() {
    // `r` is the user asking for a fresh look, so resetting is correct.
    let app = scrolled_to(Diff::Empty, 40);
    assert_eq!(app.refresh().view.diff_scroll, 0);
}

#[test]
fn app_an_open_prompt_captures_typing() {
    let app = with_prompt(Some(String::new()));

    let typed = app.prompt_push('h').prompt_push('i').prompt_push('!');
    assert_eq!(typed.input.prompt.as_deref(), Some("hi!"));

    let corrected = typed.prompt_backspace();
    assert_eq!(corrected.input.prompt.as_deref(), Some("hi"));

    assert_eq!(corrected.cancel_prompt().input.prompt, None);
}

#[test]
fn app_typing_is_ignored_when_no_prompt_is_open() {
    let app = with_prompt(None);
    assert_eq!(app.prompt_push('x').input.prompt, None);
}

/// The same watch, and the same reader, with the mark somewhere in the diff.
#[test]
fn mod_a_silent_refresh_keeps_the_reader_where_they_were() {
    let app = App {
        data: Data {
            diff: Diff::Text(
                (0..200)
                    .map(|i| DiffLine::parse(&format!("+line {i}")))
                    .collect(),
            ),
            ..blank().data
        },
        view: View {
            diff_scroll: 87,
            diff_cursor: 90,
            ..blank().view
        },
        ..blank()
    };

    let refreshed = app.refresh_silently();
    assert_eq!(
        refreshed.view.diff_scroll, 87,
        "an unrequested refresh must not move the reader"
    );
    assert_eq!(refreshed.view.diff_cursor, 90, "nor the mark");
}

/// A silent refresh fires every few hundred milliseconds while the reader works.
/// One that cleared the collected notes would delete their review out from under
/// them, unprompted and unrecoverably.
#[test]
fn a_silent_refresh_keeps_the_notes_that_were_collected() {
    let annotations = Annotations::new().with(Annotation {
        anchor: Anchor {
            file: "a.rs".to_string(),
            line: 1,
            hash: 0,
        },
        kind: Kind::Issue,
        text: "hard-won".into(),
    });

    let app = App {
        data: Data {
            annotations,
            ..blank().data
        },
        ..blank()
    };

    let refreshed = app.refresh_silently();
    assert_eq!(
        refreshed.data.annotations.len(),
        1,
        "an unrequested refresh must not discard a review"
    );
}

/// The same refresh must not drop the query either — the list would silently
/// widen back to everything while the reader was reading it.
#[test]
fn a_silent_refresh_keeps_the_filter_in_force() {
    let app = App {
        input: Input {
            filter: Filter {
                query: "mod".into(),
                editing: false,
            },
            ..blank().input
        },
        ..blank()
    };

    assert_eq!(app.refresh_silently().input.filter.query, "mod");
}

#[test]
fn mod_a_deliberate_refresh_starts_the_diff_from_the_top() {
    // `r` is the user asking for a fresh look, so resetting is correct.
    let app = App {
        view: View {
            diff_scroll: 40,
            ..blank().view
        },
        ..blank()
    };
    assert_eq!(app.refresh().view.diff_scroll, 0);
}
