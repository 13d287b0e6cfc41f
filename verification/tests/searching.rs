//! Searching inside the diff pane.

use herdr_strays::app::{App, Data, Input, Search, View};
use herdr_strays::config::Config;
use herdr_strays::discover::{Project, Scope};
use herdr_strays::model::{number_lines, Diff, DiffLine, Stray, StrayStatus};
use herdr_strays::tree::{ProjectStrays, Row};

/// The viewer with nothing open, as it starts.
fn blank() -> App {
    App::load(
        "herdr",
        Vec::new(),
        None,
        Scope::AllWorkspaces,
        &Config::default(),
    )
}

fn app_showing(raw: &[&str]) -> App {
    let lines = number_lines(raw.iter().map(|l| DiffLine::parse(l)).collect());

    App {
        data: Data {
            projects: vec![ProjectStrays {
                project: Project {
                    root: "/nonexistent/search-test".to_string(),
                    name: "repo".into(),
                },
                strays: vec![Stray::new(StrayStatus::Modified, "a.rs")],
                branch: Some("main".into()),
                upstream: None,
                touched: None,
                agent: None,
                error: None,
            }],
            diff: Diff::Text(lines),
            ..blank().data
        },
        view: View {
            rows: vec![Row::File {
                project: 0,
                stray: 0,
                depth: 0,
            }],
            ..blank().view
        },
        ..blank()
    }
}

const DIFF: &[&str] = &[
    "@@ -1,5 +1,5 @@",
    " fn alpha() {}",
    "+fn beta() {}",
    " fn gamma() {}",
    "+fn beta() {}",
];

/// Type a whole query into an open search line.
fn typed(app: App, query: &str) -> App {
    query
        .chars()
        .fold(app.begin_search(), |a, c| a.search_push(c, 10))
}

#[test]
fn typing_jumps_to_the_first_match() {
    let app = typed(app_showing(DIFF), "beta");
    assert_eq!(app.view.diff_cursor, 2, "the first `beta` is line index 2");
}

#[test]
fn a_query_matching_the_current_line_does_not_skip_it() {
    // Otherwise a query would leap past what the user is already reading
    // while they are still typing it.
    let app = App {
        view: View {
            diff_cursor: 2,
            ..app_showing(DIFF).view
        },
        ..app_showing(DIFF)
    };
    assert_eq!(typed(app, "beta").view.diff_cursor, 2);
}

#[test]
fn repeating_the_search_moves_to_the_next_match() {
    let app = typed(app_showing(DIFF), "beta").accept_search();
    assert_eq!(app.search_next(10).view.diff_cursor, 4, "the second `beta`");
}

#[test]
fn searching_past_the_last_match_wraps_and_says_so() {
    // Doing nothing at the end would read as a broken key.
    let app = typed(app_showing(DIFF), "beta").accept_search();
    let app = app.search_next(10).search_next(10);

    assert_eq!(app.view.diff_cursor, 2, "back to the first match");
    assert_eq!(app.view.notice.expect("says it wrapped").text, "wrapped");
}

#[test]
fn searching_backwards_moves_up_and_wraps_too() {
    let app = typed(app_showing(DIFF), "beta").accept_search();
    assert_eq!(app.clone().search_next(10).view.diff_cursor, 4);

    // From the first match, back one lands on the last, going round.
    let app = app.search_previous(10);
    assert_eq!(app.view.diff_cursor, 4);
}

#[test]
fn a_query_nothing_matches_reports_it_and_leaves_the_mark_alone() {
    let showing = app_showing(DIFF);
    let app = App {
        view: View {
            diff_cursor: 3,
            ..showing.view
        },
        input: Input {
            search: Search {
                query: "nowhere".into(),
                editing: false,
            },
            ..showing.input
        },
        ..showing
    };
    let app = app.search_next(10);

    assert_eq!(app.view.diff_cursor, 3, "the mark stays put");
    assert!(app.view.notice.expect("says nothing was found").is_error);
}

#[test]
fn repeating_with_no_search_running_says_so() {
    let app = app_showing(DIFF).search_next(10);
    assert!(app.view.notice.expect("a reason is given").is_error);
}

#[test]
fn a_query_that_stops_matching_leaves_the_mark_where_it_was() {
    // Typing `beta` lands on it; the `X` that follows matches nothing, and
    // snapping back to the top would lose the place mid-keystroke.
    let app = typed(app_showing(DIFF), "betaX");
    assert_eq!(
        app.view.diff_cursor, 2,
        "still on the last thing that matched"
    );
}

#[test]
fn backspacing_widens_the_search_again() {
    let app = App {
        view: View {
            diff_cursor: 0,
            ..app_showing(DIFF).view
        },
        ..app_showing(DIFF)
    };
    // `gamma` is line 3; backspacing to `gamm` still matches it, and one
    // more to `gam` continues to.
    let app = typed(app, "gamma");
    assert_eq!(app.view.diff_cursor, 3);

    let app = app.search_backspace(10).search_backspace(10);
    assert_eq!(app.input.search.query, "gam");
    assert_eq!(app.view.diff_cursor, 3, "the shorter query still matches");
}

#[test]
fn the_query_survives_closing_the_line_so_it_can_be_repeated() {
    let app = typed(app_showing(DIFF), "beta").accept_search();
    assert!(!app.input.search.editing, "the line is closed");
    assert!(app.input.search.is_active(), "the query is still there");
}

#[test]
fn cancelling_forgets_the_query_entirely() {
    let app = typed(app_showing(DIFF), "beta").cancel_search();
    assert!(!app.input.search.is_active());
}

#[test]
fn searching_a_lower_case_query_ignores_case() {
    let app = typed(
        app_showing(&["@@ -1,1 +1,1 @@", "+let Widget = 1;"]),
        "widget",
    );
    assert_eq!(app.view.diff_cursor, 1);
}

#[test]
fn searching_an_upper_case_query_demands_it() {
    // Smart case, the same rule the file filter uses.
    let raw = &["@@ -1,2 +1,2 @@", "+let widget = 1;", "+let Widget = 2;"];
    let app = typed(app_showing(raw), "Widget");
    assert_eq!(app.view.diff_cursor, 2, "only the capitalised one matches");
}

#[test]
fn the_number_of_matching_lines_is_reported() {
    let app = typed(app_showing(DIFF), "beta");
    assert_eq!(app.search_hits(), 2);
}

#[test]
fn an_empty_diff_finds_nothing_rather_than_looping() {
    let showing = app_showing(DIFF);
    let app = App {
        data: Data {
            diff: Diff::Empty,
            ..showing.data
        },
        input: Input {
            search: Search {
                query: "anything".into(),
                editing: false,
            },
            ..showing.input
        },
        ..showing
    };
    assert_eq!(app.search_hits(), 0);
    // The jump must return rather than spin looking for a line.
    assert!(
        app.search_next(10)
            .view
            .notice
            .expect("reports it")
            .is_error
    );
}
