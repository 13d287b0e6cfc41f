//! Scrolling the diff pane and the key reference.

use herdr_strays::app::{App, Data, View};
use herdr_strays::config::Config;
use herdr_strays::discover::{Project, Scope};
use herdr_strays::model::{Diff, DiffLine, Stray, StrayStatus};
use herdr_strays::tree::{ProjectStrays, Row};
use herdr_strays::ui::help_line_count;

/// The viewer with nothing open, as it starts.
fn blank() -> App {
    App::load(
        "herdr",
        Vec::new(),
        None,
        Scope::AllWorkspaces,
        &Config::default(),
    )
}

fn app_with_diff(lines: usize) -> App {
    let diff = Diff::Text(
        (0..lines)
            .map(|i| DiffLine::parse(&format!("+line {i}")))
            .collect(),
    );
    App {
        data: Data {
            projects: vec![ProjectStrays {
                project: Project {
                    root: "/repo".to_string(),
                    name: "repo".into(),
                },
                strays: vec![Stray::new(StrayStatus::Modified, "a.rs")],
                branch: Some("main".into()),
                upstream: None,
                touched: None,
                agent: None,
                error: None,
            }],
            diff,
            ..blank().data
        },
        view: View {
            rows: vec![Row::File {
                project: 0,
                stray: 0,
                depth: 0,
            }],
            ..blank().view
        },
        ..blank()
    }
}

#[test]
fn scroll_paging_down_moves_by_almost_a_screen() {
    let app = app_with_diff(245).page_diff_down(13);
    assert_eq!(app.view.diff_scroll, 11, "a 13-row pane pages by 11");
}

#[test]
fn scroll_jumping_to_the_end_lands_at_the_last_screenful() {
    let app = app_with_diff(245).scroll_diff_end(13);
    assert_eq!(app.view.diff_scroll, 232, "245 lines minus a 13-row pane");
}

#[test]
fn scroll_scrolling_cannot_pass_the_end_of_the_diff() {
    let mut app = app_with_diff(20);
    for _ in 0..100 {
        app = app.scroll_diff_down(13);
    }
    assert_eq!(app.view.diff_scroll, 7, "20 lines minus a 13-row pane");
}

#[test]
fn scroll_a_diff_shorter_than_the_pane_does_not_scroll() {
    let app = app_with_diff(5).scroll_diff_end(13);
    assert_eq!(app.view.diff_scroll, 0, "nothing to scroll to");
}

#[test]
fn scroll_home_returns_to_the_top() {
    let app = app_with_diff(245).scroll_diff_end(13).scroll_diff_home();
    assert_eq!(app.view.diff_scroll, 0);
}

/// A diff whose runs are uneven, so pairing collapses it: four removals
/// against one addition is five lines but four rows. Every test below turns
/// on the difference between those two counts.
fn app_with_replacement() -> App {
    let raw = [
        "@@ -1,4 +1,1 @@",
        "-old one",
        "-old two",
        "-old three",
        "-old four",
        "+new one",
    ];
    let diff = Diff::Text(raw.iter().map(|line| DiffLine::parse(line)).collect());
    App {
        data: Data {
            diff,
            ..app_with_diff(0).data
        },
        ..app_with_diff(0)
    }
}

/// Pairing collapses lines into rows, so the two counts must not be the
/// same number — otherwise the tests below prove nothing.
#[test]
fn the_split_draws_fewer_rows_than_the_diff_has_lines() {
    let app = app_with_replacement().toggle_split_diff();
    assert!(
        app.scroll_rows() < app.diff_line_count(),
        "pairing should collapse the uneven run"
    );
}

/// Scrolling to the end of the split must land on its last row, not on the
/// last diff line: past the rows, both columns draw blank.
#[test]
fn the_split_cannot_scroll_past_its_last_row() {
    let app = app_with_replacement()
        .toggle_split_diff()
        .scroll_diff_end(2);
    let rows = app.scroll_rows();
    assert_eq!(
        app.view.diff_scroll,
        rows - 2,
        "the last screenful of rows stays on screen"
    );
    assert!(
        usize::from(app.view.diff_scroll) < usize::from(rows),
        "the pane would be blank past the last row"
    );
}

/// Folding the split away puts the offset back in line units, so the
/// unified view still reaches its own last line.
#[test]
fn the_unified_diff_still_scrolls_by_lines() {
    let app = app_with_replacement().scroll_diff_end(2);
    assert_eq!(app.view.diff_scroll, app.diff_line_count() - 2);
}

/// The cursor names a diff line; the scroll counts rows. Moving the cursor
/// while the split is up has to keep its *row* on screen.
#[test]
fn the_cursor_stays_on_screen_in_the_split() {
    let mut app = app_with_replacement().toggle_split_diff();
    for _ in 0..6 {
        app = app.cursor_down().cursor_into_view(2);
    }
    let row = u16::try_from(app.cursor_row()).unwrap();
    assert!(
        row >= app.view.diff_scroll && row < app.view.diff_scroll + 2,
        "row {row} is outside the window at {}",
        app.view.diff_scroll
    );
}

/// The last addition sits opposite the first removal, so its row is far
/// above its line number. Asking for the line number would scroll past it.
#[test]
fn a_paired_line_reports_the_row_it_is_drawn_on() {
    let app = App {
        view: View {
            diff_cursor: 5,
            ..app_with_replacement().view
        },
        ..app_with_replacement()
    }
    .toggle_split_diff();
    assert_eq!(
        app.cursor_row(),
        1,
        "the addition pairs with the first removal"
    );
}

/// The reference is longer than a short pane, which is the whole reason it
/// scrolls. Asserting that rather than a fixed length keeps the test honest
/// when a key is added or removed.
#[test]
fn the_key_reference_is_taller_than_a_short_pane() {
    let app = blank();
    assert!(
        help_line_count(&app.data.bindings) > 20,
        "the reference should outgrow a 20-row pane, or it need not scroll"
    );
}

#[test]
fn the_key_reference_scrolls_down_a_line() {
    let app = blank().scroll_help(1, 20);
    assert_eq!(app.view.help_scroll, 1);
}

#[test]
fn the_key_reference_cannot_scroll_past_its_last_row() {
    let mut app = blank();
    for _ in 0..500 {
        app = app.scroll_help(1, 20);
    }
    let expected = help_line_count(&app.data.bindings) - 20;
    assert_eq!(
        app.view.help_scroll, expected,
        "the last screenful stays on screen"
    );
}

#[test]
fn the_key_reference_cannot_scroll_above_its_first_row() {
    let app = blank().scroll_help(-5, 20);
    assert_eq!(app.view.help_scroll, 0);
}

#[test]
fn jumping_to_the_end_of_the_key_reference_shows_its_last_row() {
    let app = blank().scroll_help_to(true, 20);
    let expected = help_line_count(&app.data.bindings) - 20;
    assert_eq!(app.view.help_scroll, expected);
}

/// A pane taller than the reference has nothing below it to reach.
#[test]
fn a_pane_taller_than_the_key_reference_does_not_scroll() {
    let app = blank().scroll_help(10, 500);
    assert_eq!(app.view.help_scroll, 0);
}

/// Closing the reference winds it back, so it opens at the top next time
/// rather than part-way down where it was last left.
#[test]
fn closing_the_key_reference_returns_it_to_the_top() {
    let app = blank().scroll_help(5, 20).toggle_help();
    assert_eq!(app.view.help_scroll, 0);
}

/// The two offsets share a pane but not a position: winding the reference
/// must leave the diff where the reader put it.
#[test]
fn scrolling_the_key_reference_leaves_the_diff_where_it_was() {
    let app = app_with_diff(245).scroll_diff_end(13).scroll_help(4, 20);
    assert_eq!(app.view.diff_scroll, 232, "the diff has not moved");
    assert_eq!(app.view.help_scroll, 4);
}

#[test]
fn scroll_scrolling_up_stops_at_the_top() {
    let app = app_with_diff(245).scroll_diff_up().scroll_diff_up();
    assert_eq!(app.view.diff_scroll, 0);
}
