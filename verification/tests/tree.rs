//! The list as it is drawn, row by row.

use herdr_strays::discover::Project;
use herdr_strays::model::{Stray, StrayStatus};
use herdr_strays::tree::{
    auto_folded, flatten, flatten_filtered, node_of, Folds, ProjectStrays, Row,
};

fn project(name: &str, paths: &[&str]) -> ProjectStrays {
    ProjectStrays {
        project: Project {
            root: format!("/repo/{name}"),
            name: name.to_string(),
        },
        strays: paths
            .iter()
            .map(|p| Stray::new(StrayStatus::Modified, p))
            .collect(),
        branch: None,
        upstream: None,
        touched: None,
        agent: None,
        error: None,
    }
}

fn listed() -> Vec<ProjectStrays> {
    vec![
        project("api", &["README.md", "src/app/mod.rs", "src/ui.rs"]),
        project("web", &["index.html"]),
    ]
}

#[test]
fn each_directory_stands_once_above_what_is_in_it() {
    let rows = flatten(&listed(), &Folds::new());
    assert_eq!(
        rows,
        vec![
            Row::Project { project: 0 },
            Row::File { project: 0, stray: 0, depth: 1 },
            Row::Dir { project: 0, stray: 1, depth: 1 },
            Row::Dir { project: 0, stray: 1, depth: 2 },
            Row::File { project: 0, stray: 1, depth: 3 },
            Row::File { project: 0, stray: 2, depth: 2 },
            Row::Project { project: 1 },
            Row::File { project: 1, stray: 0, depth: 1 },
        ]
    );
}

#[test]
fn a_folded_directory_hides_what_is_in_it_and_stays_itself() {
    let projects = listed();
    let src = Row::Dir { project: 0, stray: 1, depth: 1 };
    let node = node_of(&projects, &src).expect("a directory can be folded");
    let folds = Folds::new().toggled(node);

    let rows = flatten(&projects, &folds);
    assert_eq!(
        rows,
        vec![
            Row::Project { project: 0 },
            Row::File { project: 0, stray: 0, depth: 1 },
            src,
            Row::Project { project: 1 },
            Row::File { project: 1, stray: 0, depth: 1 },
        ]
    );

    let node = node_of(&projects, &src).expect("it still can");
    assert_eq!(flatten(&projects, &folds.toggled(node)).len(), 8);
}

#[test]
fn a_folded_project_is_one_row() {
    let projects = listed();
    let node = node_of(&projects, &Row::Project { project: 0 }).unwrap();
    let rows = flatten(&projects, &Folds::new().toggled(node));
    assert_eq!(rows[0], Row::Project { project: 0 });
    assert_eq!(rows[1], Row::Project { project: 1 });
    assert_eq!(rows.len(), 3);
}

#[test]
fn a_file_has_nothing_to_fold() {
    let file = Row::File { project: 0, stray: 0, depth: 1 };
    assert_eq!(node_of(&listed(), &file), None);
}

#[test]
fn a_query_leaves_out_projects_it_names_nothing_in() {
    let rows = flatten_filtered(&listed(), &Folds::new(), "ui");
    assert_eq!(
        rows,
        vec![
            Row::Project { project: 0 },
            Row::Dir { project: 0, stray: 2, depth: 1 },
            Row::File { project: 0, stray: 2, depth: 2 },
        ]
    );
}

#[test]
fn a_directory_that_holds_too_many_starts_folded() {
    let projects = vec![project("api", &["out/a", "out/b", "out/deep/c", "src/a"])];
    let folds = auto_folded(&projects, 3);
    let rows = flatten(&projects, &folds);
    assert_eq!(
        rows,
        vec![
            Row::Project { project: 0 },
            Row::Dir { project: 0, stray: 0, depth: 1 },
            Row::Dir { project: 0, stray: 3, depth: 1 },
            Row::File { project: 0, stray: 3, depth: 2 },
        ]
    );
    assert_eq!(auto_folded(&projects, 4), Folds::new());
}
