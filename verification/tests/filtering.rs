//! The filter line: narrowing the list to the files a query names.

use herdr_strays::app::{App, Data, View};
use herdr_strays::config::Config;
use herdr_strays::discover::{Project, Scope};
use herdr_strays::model::{Stray, StrayStatus};
use herdr_strays::tree::{ProjectStrays, Row};

/// The viewer with nothing open, as it starts.
fn blank() -> App {
    App::load(
        "herdr",
        Vec::new(),
        None,
        Scope::AllWorkspaces,
        &Config::default(),
    )
}

/// An app holding one project with the given files.
fn app_with(paths: &[&str]) -> App {
    let app = App {
        data: Data {
            projects: vec![ProjectStrays {
                project: Project {
                    root: "/nonexistent/filter-test".to_string(),
                    name: "repo".into(),
                },
                strays: paths
                    .iter()
                    .map(|p| Stray::new(StrayStatus::Modified, p))
                    .collect(),
                branch: Some("main".into()),
                upstream: None,
                touched: None,
                agent: None,
                error: None,
            }],
            ..blank().data
        },
        ..blank()
    };
    app.rebuilt()
}

/// The paths of the file rows currently listed.
fn listed(app: &App) -> Vec<String> {
    app.view
        .rows
        .iter()
        .filter_map(|row| {
            let Row::File { project, stray, .. } = row else {
                return None;
            };
            Some(
                app.data.projects[*project].strays[*stray]
                    .path
                    .clone(),
            )
        })
        .collect()
}

const FILES: &[&str] = &["src/app/mod.rs", "src/ui.rs", "tests/worktree_test.rs"];

#[test]
fn typing_narrows_the_list_as_it_goes() {
    // Seeing the list shrink is how the user knows when to stop typing.
    let app = app_with(FILES).begin_filter();
    assert_eq!(listed(&app).len(), 3, "everything, before any query");

    let app = app.filter_push('u').filter_push('i');
    assert_eq!(listed(&app), vec!["src/ui.rs"]);
}

#[test]
fn backspacing_widens_the_list_again() {
    let app = app_with(FILES)
        .begin_filter()
        .filter_push('u')
        .filter_push('i')
        .filter_push('x');
    assert!(listed(&app).is_empty(), "uix matches nothing");

    let app = app.filter_backspace();
    assert_eq!(listed(&app), vec!["src/ui.rs"], "ui matches again");
}

#[test]
fn typing_is_ignored_when_the_line_is_closed() {
    let app = app_with(FILES).filter_push('u');
    assert_eq!(listed(&app).len(), 3, "the key went to navigation");
}

#[test]
fn the_query_outlives_its_input_line() {
    // Enter closes the line; the results stay so they can be moved through.
    let app = app_with(FILES)
        .begin_filter()
        .filter_push('u')
        .filter_push('i')
        .accept_filter();

    assert!(!app.input.filter.editing, "the line is closed");
    assert!(app.input.filter.is_active(), "the query is still in force");
    assert_eq!(listed(&app), vec!["src/ui.rs"]);
}

#[test]
fn clearing_restores_the_whole_tree() {
    let app = app_with(FILES)
        .begin_filter()
        .filter_push('u')
        .accept_filter()
        .clear_filter();

    assert!(!app.input.filter.is_active());
    assert_eq!(listed(&app).len(), 3);
}

#[test]
fn narrowing_brings_the_cursor_back_inside_the_list() {
    // The cursor sat on row 3; filtering leaves fewer rows than that, and
    // a selection past the end would read as no selection at all.
    let app = app_with(FILES);
    let app = App {
        view: View {
            selected: 3,
            ..app.view
        },
        ..app
    };

    let app = app.begin_filter().filter_push('u').filter_push('i');
    assert!(
        app.view.selected < app.view.rows.len(),
        "selected {} against {} rows",
        app.view.selected,
        app.view.rows.len()
    );
}

#[test]
fn a_query_matching_nothing_leaves_an_empty_list_rather_than_the_old_one() {
    let app = app_with(FILES).begin_filter().filter_push('z');
    assert!(listed(&app).is_empty(), "showing stale rows would mislead");
}

#[test]
fn reopening_the_line_keeps_the_query_so_it_can_be_widened() {
    let app = app_with(FILES)
        .begin_filter()
        .filter_push('u')
        .filter_push('i')
        .accept_filter()
        .begin_filter();

    assert_eq!(
        app.input.filter.query, "ui",
        "backspace widens, rather than restarting"
    );
}

#[test]
fn clearing_an_inactive_filter_changes_nothing() {
    let app = app_with(FILES);
    let rows_before = app.view.rows.len();
    let app = app.clear_filter();
    assert_eq!(app.view.rows.len(), rows_before);
}
