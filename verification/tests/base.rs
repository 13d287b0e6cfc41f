//! What a diff is taken against.

use herdr_strays::git::base::{candidates, merge_base, resolve, Attempt, Base};
use herdr_strays::git::run::GitError;

#[test]
fn head_needs_no_resolving_and_says_so() {
    assert_eq!(Base::Head.rev(), "HEAD");
    assert!(Base::Head.is_head(), "the title bar stays quiet for this");
}

const MAIN_TIP: &str = "dd2fd163c2b2dc4c7f5a4f12d8538ad5618139d9";
const FORK: &str = "2d4cee43bda0eaa0dc47078682a5c2ff51dd449d";

/// What `rev-parse` prints for a commit.
fn printed(commit: &str) -> Result<Vec<u8>, GitError> {
    Ok(format!("{commit}\n").into_bytes())
}

/// Git refusing, as it does for what it does not know.
fn refused(stderr: &str) -> GitError {
    GitError::Failed {
        status: Some(128),
        stderr: stderr.to_string(),
    }
}

#[test]
fn a_named_revision_resolves_to_a_commit() {
    let base = resolve("main", printed(MAIN_TIP)).expect("main is a revision");

    assert_eq!(base.label(), "main", "the user sees what they asked for");
    assert_eq!(base.rev().len(), 40, "git is given a resolved commit");
    assert!(!base.is_head());
}

#[test]
fn a_revision_that_does_not_exist_is_refused_rather_than_diffed() {
    // Producing an empty diff for every file would look like "no changes",
    // which is a wrong answer rather than a missing one.
    let err = resolve("no-such-branch", Err(refused("fatal: bad revision")))
        .expect_err("should fail");
    assert!(
        err.message().contains("no such revision"),
        "got {}",
        err.message()
    );
}

#[test]
fn an_empty_name_is_refused() {
    assert!(resolve("", Ok(Vec::new())).is_err());
}

#[test]
fn a_missing_git_is_not_a_missing_revision() {
    assert_eq!(
        resolve("main", Err(GitError::NotInstalled)),
        Err(GitError::NotInstalled)
    );
}

#[test]
fn the_merge_base_is_where_the_branch_diverged_not_the_tip_of_main() {
    // The whole point: comparing against main's tip would report the commit
    // made to main after the branch was cut as though the branch removed it.
    let attempts = vec![Attempt {
        name: "main".to_string(),
        resolved: printed(MAIN_TIP),
        meeting: printed(FORK),
    }];
    let base = merge_base(&attempts).expect("main exists");

    assert_ne!(
        base.rev(),
        MAIN_TIP,
        "the merge base is the fork point, not where main has got to"
    );
    assert_eq!(base.rev(), FORK, "the branch was cut here");
}

#[test]
fn the_merge_base_is_labelled_by_the_branch_it_was_derived_from() {
    let attempts = vec![
        Attempt {
            name: "origin/main".to_string(),
            resolved: Err(refused("fatal: bad revision")),
            meeting: Err(refused("fatal: bad revision")),
        },
        Attempt {
            name: "main".to_string(),
            resolved: printed(MAIN_TIP),
            meeting: printed(FORK),
        },
    ];
    let base = merge_base(&attempts).expect("main exists");
    assert_eq!(
        base.label(),
        "main",
        "a bare hash would make every project look alike"
    );
}

#[test]
fn a_repository_with_no_default_branch_says_so_rather_than_guessing() {
    let err = merge_base(&Vec::new()).expect_err("nothing to compare against");
    assert!(
        err.message().contains("no upstream"),
        "got {}",
        err.message()
    );
}

#[test]
fn the_upstream_is_tried_before_the_usual_names() {
    let names = candidates(Some("origin/release".to_string()));
    assert_eq!(names[0], "origin/release");
    assert!(names.contains(&"main".to_string()), "got {names:?}");
    assert!(!candidates(None).contains(&"origin/release".to_string()));
}
